//! Tests of the utilities, errors, and configuration defaults.

use minnehack_check_in::config::Config;
use minnehack_check_in::errors::Error;
use minnehack_check_in::util::{bounded_bytes, bytes_cmp, log_err, now};

#[test]
fn bounded_bytes_respects_cap() {
    assert_eq!(bounded_bytes(&[1, 2, 3], 3), Some(vec![1, 2, 3]));
    assert_eq!(bounded_bytes(&[1, 2, 3], 2), None);
    assert_eq!(bounded_bytes(&[], 0), Some(Vec::new()));
}

#[test]
fn bytes_cmp_is_lexicographic() {
    assert!(bytes_cmp(&[1, 2], &[1, 3]) < 0);
    assert!(bytes_cmp(&[1, 3], &[1, 2]) > 0);
    assert_eq!(bytes_cmp(&[1, 2], &[1, 2]), 0);
    // A proper prefix precedes its extensions.
    assert!(bytes_cmp(&[1, 2], &[1, 2, 0]) < 0);
    assert!(bytes_cmp(&[], &[0]) < 0);
}

#[test]
fn log_err_reports_errors() {
    assert!(!log_err(Ok(())));
    assert!(log_err(Err(Error::CouldNotRecvMessage)));
}

#[test]
fn error_descriptions() {
    assert_eq!(Error::CouldNotRecvMessage.describe(), "could not receive a message");
    assert_eq!(Error::CouldNotSendMessage.describe(), "could not send a message");
    assert_eq!(Error::CouldNotStartListener.describe(), "could not start listener");
    assert_eq!(Error::InvalidPacket(vec![1, 2]).describe(), "received invalid packet");
    assert_eq!(
        Error::CouldNotParseConfig("a.toml".to_string()).describe(),
        "could not parse the config",
    );
    assert_eq!(
        Error::CouldNotReadConfig("a.toml".to_string()).describe(),
        "could not read the config",
    );
}

#[test]
fn config_defaults() {
    let config = Config::default();
    assert_eq!(config.discovery_peer_interval, 60);
    assert_eq!(config.discovery_ping_interval, 60);
    assert_eq!(config.max_karma, 10);
    assert_eq!(config.status_check_interval, 30);
    assert!(config.peers.is_empty());
    assert_eq!(config.port, 10101);
}

#[test]
fn clock_is_past_release() {
    // The sitting clock reads after the genesis timestamp.
    assert!(now() > 1515140055);
}
