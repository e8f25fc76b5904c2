//! Parsing a block from its wire form. Parsing is strict: the buffer must
//! hold exactly one block and nothing else.

use vstd::bytes::{
    lemma_auto_spec_u64_to_from_le_bytes, spec_u64_from_le_bytes, spec_u64_to_le_bytes,
    u64_from_le_bytes,
};
use vstd::prelude::*;
use vstd::slice::slice_subrange;

use crate::util::bounded_bytes;
use super::serialize::spec_serialize_block;
use super::{Block, BlockView};

verus! {

/// The block a byte string decodes to, if any: the fixed-width fields are
/// read at their offsets, and the buffer must end exactly after the
/// data-length byte's worth of data and the final hash.
pub open spec fn spec_parse_block(s: Seq<u8>) -> Option<BlockView> {
    if s.len() < 49 {
        None
    } else {
        let dl = s[48] as int;
        if s.len() == 49 + dl + 32 {
            Some(
                BlockView {
                    index: spec_u64_from_le_bytes(s.subrange(0, 8)),
                    prev_hash: s.subrange(8, 40),
                    timestamp: spec_u64_from_le_bytes(s.subrange(40, 48)),
                    data: s.subrange(49, 49 + dl),
                    hash: s.subrange(49 + dl, 49 + dl + 32),
                },
            )
        } else {
            None
        }
    }
}

impl Block {
    /// Attempts to parse a block from a buffer; the buffer must be consumed
    /// exactly.
    pub fn parse_from(msg: &[u8]) -> (r: Option<Block>)
        ensures
            match r {
                Some(b) => spec_parse_block(msg@) == Some(b@) && b@.wf(),
                None => spec_parse_block(msg@) is None,
            },
    {
        if msg.len() < 49 {
            return None;
        }
        let dl = *vstd::slice::slice_index_get(msg, 48) as usize;
        if msg.len() != 49 + dl + 32 {
            return None;
        }
        let index = u64_from_le_bytes(slice_subrange(msg, 0, 8));
        let prev_hash = super::Hash::from_slice(slice_subrange(msg, 8, 40));
        let timestamp = u64_from_le_bytes(slice_subrange(msg, 40, 48));
        let data = match bounded_bytes(slice_subrange(msg, 49, 49 + dl), crate::MAX_DATA_LEN) {
            Some(v) => v,
            None => {
                return None;
            },
        };
        let hash = super::Hash::from_slice(slice_subrange(msg, 49 + dl, 49 + dl + 32));
        Some(Block { index, prev_hash, timestamp, hash, data })
    }
}

/// Round trip: parsing the wire form of a well-formed block yields exactly
/// that block.
pub proof fn lemma_block_round_trip(b: BlockView)
    requires
        b.wf(),
    ensures
        spec_parse_block(spec_serialize_block(b)) == Some(b),
{
    lemma_auto_spec_u64_to_from_le_bytes();
    let s = spec_serialize_block(b);
    let dl = b.data.len() as int;
    assert(s.len() == 49 + dl + 32);
    assert(s[48] == dl as u8);
    assert(s.subrange(0, 8) =~= spec_u64_to_le_bytes(b.index));
    assert(s.subrange(8, 40) =~= b.prev_hash);
    assert(s.subrange(40, 48) =~= spec_u64_to_le_bytes(b.timestamp));
    assert(s.subrange(49, 49 + dl) =~= b.data);
    assert(s.subrange(49 + dl, 49 + dl + 32) =~= b.hash);
}

/// Soundness: a byte string that parses as a block is exactly that block's
/// wire form, and the block is well formed. In particular no decoded block
/// carries more than 255 bytes of data: the wire's length field is a single
/// byte.
pub proof fn lemma_block_parse_sound(s: Seq<u8>, b: BlockView)
    requires
        spec_parse_block(s) == Some(b),
    ensures
        s == spec_serialize_block(b),
        b.wf(),
{
    lemma_auto_spec_u64_to_from_le_bytes();
    let dl = s[48] as int;
    assert(spec_u64_to_le_bytes(b.index) =~= s.subrange(0, 8));
    assert(spec_u64_to_le_bytes(b.timestamp) =~= s.subrange(40, 48));
    assert(s =~= spec_serialize_block(b)) by {
        assert(b.data.len() == dl);
        assert(spec_serialize_block(b).len() == 49 + dl + 32);
        assert forall|j: int| 0 <= j < s.len() implies s[j] == spec_serialize_block(b)[j] by {
            let t = spec_serialize_block(b);
            if j < 8 {
                assert(t[j] == spec_u64_to_le_bytes(b.index)[j]);
                assert(s.subrange(0, 8)[j] == s[j]);
            } else if j < 40 {
                assert(t[j] == b.prev_hash[j - 8]);
                assert(s.subrange(8, 40)[j - 8] == s[j]);
            } else if j < 48 {
                assert(t[j] == spec_u64_to_le_bytes(b.timestamp)[j - 40]);
                assert(s.subrange(40, 48)[j - 40] == s[j]);
            } else if j == 48 {
                assert(t[48] == b.data.len() as u8);
            } else if j < 49 + dl {
                assert(t[j] == b.data[j - 49]);
                assert(s.subrange(49, 49 + dl)[j - 49] == s[j]);
            } else {
                assert(t[j] == b.hash[j - 49 - dl]);
                assert(s.subrange(49 + dl, 49 + dl + 32)[j - 49 - dl] == s[j]);
            }
        }
    }
}

} // verus!
