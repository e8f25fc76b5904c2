//! Tests of the chain engine: genesis identity, mining, fork detection,
//! the deterministic merge, and the block wire codec.

use minnehack_check_in::blockchain::{hash_block, zero_hash, Block, BlockStatus, Chain};
use minnehack_check_in::util::now;

fn bytes(s: &str) -> Vec<u8> {
    s.as_bytes().to_vec()
}

fn example_chain() -> Chain {
    let mut chain = Chain::new();
    chain.mine_at(1000, bytes("foo"));
    chain.mine_at(2500, bytes("bar"));
    chain
}

fn example_chain_2() -> Chain {
    let mut chain = Chain::new();
    chain.mine_at(1000, bytes("foo"));
    chain.mine_at(2000, bytes("baz"));
    chain
}

#[test]
fn combine() {
    let combined_1 = example_chain().combine(example_chain_2());
    let combined_2 = example_chain_2().combine(example_chain());

    let mut expected = Chain::new();
    expected.mine_at(1000, bytes("foo"));
    expected.mine_at(2000, bytes("baz"));
    expected.mine_at(now(), bytes("bar"));

    assert_eq!(combined_1, expected);
    assert_eq!(combined_2, expected);

    assert!(combined_1.is_valid());
    assert!(combined_2.is_valid());
    assert!(expected.is_valid());
}

#[test]
fn combine_at_is_deterministic() {
    let a = example_chain();
    let b = example_chain_2();
    let left = a.combine_at(example_chain_2(), 4000);
    let right = b.combine_at(example_chain(), 4000);
    assert_eq!(left, right);
    assert!(left.is_valid());
    assert_eq!(left.len(), 4);
    // The shared "foo" block and the smaller "baz" block keep their
    // timestamps; the "bar" data is re-mined at the given time.
    assert_eq!(left.index(1).data, bytes("foo"));
    assert_eq!(left.index(2).data, bytes("baz"));
    assert_eq!(left.index(2).timestamp, 2000);
    assert_eq!(left.index(3).data, bytes("bar"));
    assert_eq!(left.index(3).timestamp, 4000);
}

#[test]
fn combine_keeps_longer_chain_when_no_fork_in_left_order() {
    // A chain that lags behind another is overtaken unchanged when the
    // longer chain is on the left.
    let mut longer = Chain::new();
    longer.mine_at(1000, bytes("foo"));
    longer.mine_at(2000, bytes("baz"));
    let mut shorter = Chain::new();
    shorter.mine_at(1000, bytes("foo"));
    let kept = longer.combine_at(shorter, 9000);
    assert_eq!(kept, example_chain_2());
}

#[test]
fn combine_preserves_all_payloads() {
    // Chains sharing only the genesis: every payload of both sides appears
    // in the merge, whichever side wins.
    let mut a = Chain::new();
    a.mine_at(100, bytes("left"));
    let mut b = Chain::new();
    b.mine_at(200, bytes("right"));
    let merged = a.combine_at(b, 5000);
    assert!(merged.is_valid());
    assert_eq!(merged.len(), 3);
    let mut payloads = Vec::new();
    for i in 1..merged.len() {
        payloads.push(merged.index(i).data.clone());
    }
    assert!(payloads.contains(&bytes("left")));
    assert!(payloads.contains(&bytes("right")));
}

#[test]
fn iter() {
    let mut expected = vec![Block::new(0, zero_hash(), 1515140055, bytes("Hello, world!"))];
    let mut next = expected[0].create_at(1000, bytes("foo"));
    expected.push(next);
    next = expected[1].create_at(2500, bytes("bar"));
    expected.push(next);

    let chain = example_chain();
    assert_eq!(chain.len(), expected.len() as u64);
    for i in 0..chain.len() {
        assert_eq!(chain.index(i), &expected[i as usize]);
    }
}

#[test]
fn find_fork() {
    let l = example_chain();
    let r = example_chain_2();

    assert_eq!(l.find_fork(&r), Some(1));
    assert_eq!(r.find_fork(&l), Some(1));

    assert_eq!(l.find_fork(&l), None);
    assert_eq!(r.find_fork(&r), None);
}

#[test]
fn genesis_identity() {
    let chain = Chain::new();
    assert_eq!(chain.len(), 1);
    let genesis = chain.genesis();
    assert_eq!(genesis.index, 0);
    assert_eq!(genesis.timestamp, 1515140055);
    assert_eq!(genesis.prev_hash, zero_hash());
    assert_eq!(genesis.data, bytes("Hello, world!"));
    // SHA-256 of le64(0) || 32 zero bytes || le64(1515140055) || the data,
    // computed independently.
    let expected: [u8; 32] = [
        214, 179, 100, 186, 209, 222, 232, 229, 242, 198, 242, 243, 201, 221, 11, 131, 12, 174,
        252, 52, 93, 24, 229, 103, 185, 4, 236, 76, 32, 86, 141, 90,
    ];
    assert_eq!(genesis.hash.0, expected);
    assert!(genesis.is_valid());
    assert!(chain.is_valid());
}

#[test]
fn mine_and_validate() {
    let mut chain = Chain::new();
    let block = chain.mine(bytes("hello"));
    assert_eq!(chain.len(), 2);
    assert_eq!(block.index, 1);
    assert_eq!(block.prev_hash, chain.genesis().hash);
    assert!(block.is_valid());
    assert!(chain.is_valid());
    assert_eq!(chain.tip(), &block);
}

#[test]
fn mine_full_payload() {
    let mut chain = Chain::new();
    let data = vec![7u8; 255];
    chain.mine_at(1234, data.clone());
    assert_eq!(chain.len(), 2);
    assert!(chain.is_valid());
    assert_eq!(chain.tip().data, data);
}

#[test]
fn push_rejects_invalid_tip() {
    let mut chain = Chain::new();
    let stranger = Block::new(5, zero_hash(), 77, bytes("x"));
    assert!(!chain.push(stranger));
    assert_eq!(chain.len(), 1);
    let child = chain.tip().create_at(50, bytes("y"));
    assert!(chain.push(child));
    assert_eq!(chain.len(), 2);
}

#[test]
fn status_of_blocks() {
    let mut chain = Chain::new();
    chain.mine_at(10, bytes("a"));
    let contained = chain.index(1).clone();
    assert_eq!(chain.status(&contained), BlockStatus::Contained);
    let tip_child = chain.tip().create_at(20, bytes("b"));
    assert_eq!(chain.status(&tip_child), BlockStatus::ValidTip);
    let far = Block::new(9, zero_hash(), 1, bytes("c"));
    assert_eq!(chain.status(&far), BlockStatus::PotentiallyValid);
    let wrong = Block::new(1, zero_hash(), 1, bytes("d"));
    assert_eq!(chain.status(&wrong), BlockStatus::Invalid);
}

#[test]
fn hash_block_matches_genesis() {
    let h = hash_block(0, &zero_hash(), 1515140055, &bytes("Hello, world!"));
    assert_eq!(h, Chain::new().genesis().hash);
    // The hash is not the preimage handed back: it has its own fixed width
    // and differs from the zero hash.
    assert_ne!(h, zero_hash());
}

#[test]
fn block_wire_round_trip() {
    let block = Block::new(3, zero_hash(), 99, bytes("payload"));
    let wire = block.serialize();
    assert_eq!(wire.len(), 8 + 32 + 8 + 1 + 7 + 32);
    let back = Block::parse_from(&wire).expect("failed to parse");
    assert_eq!(block, back);

    let full = Block::new(1, zero_hash(), 2, vec![0xabu8; 255]);
    let wire = full.serialize();
    let back = Block::parse_from(&wire).expect("failed to parse");
    assert_eq!(full, back);

    let empty = Block::new(0, zero_hash(), 0, Vec::new());
    let wire = empty.serialize();
    let back = Block::parse_from(&wire).expect("failed to parse");
    assert_eq!(empty, back);
}

#[test]
fn block_parse_is_strict() {
    let block = Block::new(3, zero_hash(), 99, bytes("payload"));
    let mut wire = block.serialize();
    wire.push(0);
    assert_eq!(Block::parse_from(&wire), None);
    let wire = block.serialize();
    assert_eq!(Block::parse_from(&wire[..wire.len() - 1]), None);
    assert_eq!(Block::parse_from(&[]), None);
}
