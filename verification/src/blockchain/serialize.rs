//! The wire form of a block: index (8 bytes, little endian), previous hash
//! (32), timestamp (8, little endian), data length (1), data, hash (32).

use vstd::bytes::{spec_u64_to_le_bytes, u64_to_le_bytes};
use vstd::prelude::*;

use crate::util::append_bytes;
use super::{Block, BlockView};

verus! {

/// The exact bytes a block occupies on the wire.
pub open spec fn spec_serialize_block(b: BlockView) -> Seq<u8> {
    spec_u64_to_le_bytes(b.index) + b.prev_hash + spec_u64_to_le_bytes(b.timestamp) + seq![
        b.data.len() as u8,
    ] + b.data + b.hash
}

impl Block {
    /// Appends the wire form of the block to `w`.
    pub fn write_to(&self, w: &mut Vec<u8>)
        requires
            self@.wf(),
        ensures
            final(w)@ == old(w)@ + spec_serialize_block(self@),
    {
        let idx = u64_to_le_bytes(self.index);
        append_bytes(w, idx.as_slice());
        append_bytes(w, self.prev_hash.0.as_slice());
        let ts = u64_to_le_bytes(self.timestamp);
        append_bytes(w, ts.as_slice());
        w.push(self.data.len() as u8);
        append_bytes(w, self.data.as_slice());
        append_bytes(w, self.hash.0.as_slice());
        proof {
            assert(w@ =~= old(w)@ + spec_serialize_block(self@));
        }
    }

    /// Returns the wire form of the block.
    pub fn serialize(&self) -> (out: Vec<u8>)
        requires
            self@.wf(),
        ensures
            out@ == spec_serialize_block(self@),
    {
        let mut out: Vec<u8> = Vec::new();
        self.write_to(&mut out);
        proof {
            assert(out@ =~= spec_serialize_block(self@));
        }
        out
    }
}

} // verus!
