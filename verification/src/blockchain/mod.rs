//! The chain of content-addressed blocks: validation, append, fork
//! detection, and the deterministic merge.

pub mod merge;
pub mod parse;
pub mod serialize;

use crypto::digest::Digest;
use vstd::bytes::{spec_u64_to_le_bytes, u64_to_le_bytes};
use vstd::prelude::*;

use crate::util::{append_bytes, bytes_eq, copy_bytes, now};
use crate::MAX_DATA_LEN;

verus! {

/// A SHA-256 hash.
#[derive(Clone, Copy, Debug, PartialEq, Eq)]
pub struct Hash(pub [u8; 32]);

impl View for Hash {
    type V = Seq<u8>;

    open spec fn view(&self) -> Seq<u8> {
        self.0@
    }
}

/// The SHA-256 digest of a byte string, as the outside hash routine
/// computes it. The digest is a function of the bytes alone; it is 32 bytes
/// long, which each use of it below states.
pub uninterp spec fn sha256_of(bytes: Seq<u8>) -> Seq<u8>;

/// Relies on `crypto::sha2::Sha256` (together with `crypto::digest::Digest`)
/// to compute the SHA-256 digest of `bytes`: 32 bytes, a function of the
/// input alone.
#[verifier::external_body]
fn sha256(bytes: &[u8]) -> (h: Hash)
    ensures
        h@ == sha256_of(bytes@),
{
    let mut hasher = crypto::sha2::Sha256::new();
    hasher.input(bytes);
    let mut out = [0u8; 32];
    hasher.result(&mut out);
    Hash(out)
}

/// The all-zero hash, used as the previous hash of a genesis block.
pub open spec fn zero_hash_seq() -> Seq<u8> {
    Seq::new(32, |i: int| 0u8)
}

/// Returns the all-zero hash.
pub fn zero_hash() -> (h: Hash)
    ensures
        h@ == zero_hash_seq(),
{
    let h = Hash([0u8; 32]);
    proof {
        assert(h@ =~= zero_hash_seq());
    }
    h
}

impl Hash {
    /// Builds a hash from a 32-byte slice.
    pub fn from_slice(s: &[u8]) -> (h: Hash)
        requires
            s@.len() == 32,
        ensures
            h@ == s@,
    {
        Hash(crate::util::bytes_to_array::<32>(s))
    }
}

/// Whether two hashes hold the same bytes.
pub fn hash_eq(a: &Hash, b: &Hash) -> (r: bool)
    ensures
        r == (a@ == b@),
{
    bytes_eq(a.0.as_slice(), b.0.as_slice())
}

/// The mathematical content of a block: its fields with byte strings in
/// place of the executable vectors.
pub ghost struct BlockView {
    /// The position of the block in the chain.
    pub index: u64,
    /// The hash of the preceding block, or all zeroes for a genesis block.
    pub prev_hash: Seq<u8>,
    /// The Unix timestamp at which the block was created.
    pub timestamp: u64,
    /// The hash of the block itself.
    pub hash: Seq<u8>,
    /// The data payload.
    pub data: Seq<u8>,
}

/// The preimage hashed to identify a block: the little-endian index, the
/// previous hash, the little-endian timestamp, and the data, in that order.
pub open spec fn hash_preimage(index: u64, prev_hash: Seq<u8>, timestamp: u64, data: Seq<u8>) -> Seq<
    u8,
> {
    spec_u64_to_le_bytes(index) + prev_hash + spec_u64_to_le_bytes(timestamp) + data
}

/// The hash a block with the given fields must carry.
pub open spec fn spec_hash_block(
    index: u64,
    prev_hash: Seq<u8>,
    timestamp: u64,
    data: Seq<u8>,
) -> Seq<u8> {
    sha256_of(hash_preimage(index, prev_hash, timestamp, data))
}

/// The block that `Block::new` constructs from the given fields.
pub open spec fn spec_new_block(
    index: u64,
    prev_hash: Seq<u8>,
    timestamp: u64,
    data: Seq<u8>,
) -> BlockView {
    BlockView {
        index,
        prev_hash,
        timestamp,
        hash: spec_hash_block(index, prev_hash, timestamp, data),
        data,
    }
}

impl BlockView {
    /// Structural bounds on a block: hashes are 32 bytes and the data
    /// payload is within the hard cap.
    pub open spec fn wf(self) -> bool {
        &&& self.prev_hash.len() == 32
        &&& self.hash.len() == 32
        &&& self.data.len() <= MAX_DATA_LEN
    }

    /// Whether the stored hash matches the block's fields.
    pub open spec fn valid(self) -> bool {
        self.hash == spec_hash_block(self.index, self.prev_hash, self.timestamp, self.data)
    }

    /// Whether `next` is a valid successor of this block: the index
    /// advances by one, the back-pointer matches, and `next` is internally
    /// valid.
    pub open spec fn valid_next(self, next: BlockView) -> bool {
        &&& next.index == self.index + 1
        &&& next.prev_hash == self.hash
        &&& next.valid()
    }
}

/// A block on the blockchain.
#[derive(Clone, Debug, PartialEq, Eq)]
pub struct Block {
    /// The index of the block in the chain.
    pub index: u64,
    /// The hash of the previous block in the chain.
    pub prev_hash: Hash,
    /// The time at which the block's hash was computed. This may change
    /// when a fork is resolved.
    pub timestamp: u64,
    /// The hash of this block.
    pub hash: Hash,
    /// The data in the block.
    pub data: Vec<u8>,
}

impl View for Block {
    type V = BlockView;

    open spec fn view(&self) -> BlockView {
        BlockView {
            index: self.index,
            prev_hash: self.prev_hash@,
            timestamp: self.timestamp,
            hash: self.hash@,
            data: self.data@,
        }
    }
}

/// Hashes the components of a block.
pub fn hash_block(index: u64, prev_hash: &Hash, timestamp: u64, data: &[u8]) -> (h: Hash)
    ensures
        h@ == spec_hash_block(index, prev_hash@, timestamp, data@),
{
    let mut buf = u64_to_le_bytes(index);
    append_bytes(&mut buf, prev_hash.0.as_slice());
    let ts = u64_to_le_bytes(timestamp);
    append_bytes(&mut buf, ts.as_slice());
    append_bytes(&mut buf, data);
    proof {
        assert(buf@ =~= hash_preimage(index, prev_hash@, timestamp, data@));
    }
    sha256(buf.as_slice())
}

impl Block {
    /// Creates a new block with the given values, computing its hash.
    pub fn new(index: u64, prev_hash: Hash, timestamp: u64, data: Vec<u8>) -> (b: Block)
        requires
            data@.len() <= MAX_DATA_LEN,
        ensures
            b@ == spec_new_block(index, prev_hash@, timestamp, data@),
            b@.wf(),
            b@.valid(),
    {
        let hash = hash_block(index, &prev_hash, timestamp, data.as_slice());
        Block { index, prev_hash, timestamp, hash, data }
    }

    /// Creates a new block appended onto the current one with the given
    /// data and timestamp.
    pub fn create_at(&self, timestamp: u64, data: Vec<u8>) -> (b: Block)
        requires
            self.index < u64::MAX,
            data@.len() <= MAX_DATA_LEN,
        ensures
            b@ == spec_new_block((self@.index + 1) as u64, self@.hash, timestamp, data@),
            b@.wf(),
            b@.valid(),
    {
        Block::new(self.index + 1, self.hash, timestamp, data)
    }

    /// Creates a new block appended onto the current one with the given
    /// data, timestamped with the current time.
    pub fn create(&self, data: Vec<u8>) -> (b: Block)
        requires
            self.index < u64::MAX,
            data@.len() <= MAX_DATA_LEN,
        ensures
            b@ == spec_new_block((self@.index + 1) as u64, self@.hash, b@.timestamp, data@),
            b@.wf(),
            b@.valid(),
    {
        self.create_at(now(), data)
    }

    /// Checks whether this block's hash is internally consistent.
    pub fn is_valid(&self) -> (r: bool)
        ensures
            r == self@.valid(),
    {
        let h = hash_block(self.index, &self.prev_hash, self.timestamp, self.data.as_slice());
        hash_eq(&h, &self.hash)
    }

    /// Checks whether another block is a valid "next block" relative to
    /// this block.
    pub fn valid_next(&self, next: &Block) -> (r: bool)
        ensures
            r == self@.valid_next(next@),
    {
        if self.index == u64::MAX {
            false
        } else if self.index + 1 != next.index {
            false
        } else if !hash_eq(&self.hash, &next.prev_hash) {
            false
        } else {
            next.is_valid()
        }
    }

    /// Copies the block.
    pub fn duplicate(&self) -> (b: Block)
        ensures
            b@ == self@,
    {
        Block {
            index: self.index,
            prev_hash: self.prev_hash,
            timestamp: self.timestamp,
            hash: self.hash,
            data: copy_bytes(&self.data),
        }
    }

    /// Whether two blocks are equal in all fields.
    pub fn same_as(&self, other: &Block) -> (r: bool)
        ensures
            r == (self@ == other@),
    {
        let r = self.index == other.index && self.timestamp == other.timestamp && hash_eq(
            &self.prev_hash,
            &other.prev_hash,
        ) && hash_eq(&self.hash, &other.hash) && bytes_eq(self.data.as_slice(), other.data.as_slice());
        proof {
            if r {
                assert(self@ == other@);
            }
        }
        r
    }
}

/// The views of a sequence of blocks.
pub open spec fn blocks_view(v: Seq<Block>) -> Seq<BlockView> {
    v.map_values(|b: Block| b@)
}

/// Structural bounds on every block of a chain.
pub open spec fn chain_wf(s: Seq<BlockView>) -> bool {
    &&& s.len() >= 1
    &&& forall|i: int| 0 <= i < s.len() ==> #[trigger] s[i].wf()
}

/// Validity of a chain: it starts with a block of index 0, and every block
/// is a valid successor of the one before it.
pub open spec fn chain_valid(s: Seq<BlockView>) -> bool {
    &&& s.len() >= 1
    &&& s[0].index == 0
    &&& forall|i: int| 0 <= i < s.len() - 1 ==> #[trigger] s[i].valid_next(s[i + 1])
}

/// The data payload of the default genesis block: the UTF-8 bytes of
/// "Hello, world!".
pub open spec fn genesis_data() -> Seq<u8> {
    seq![72u8, 101u8, 108u8, 108u8, 111u8, 44u8, 32u8, 119u8, 111u8, 114u8, 108u8, 100u8, 33u8]
}

/// The timestamp of the default genesis block, fixed so that all nodes of a
/// network share one genesis.
pub const GENESIS_TIMESTAMP: u64 = 1515140055;

/// The default genesis block.
pub open spec fn default_genesis() -> BlockView {
    spec_new_block(0, zero_hash_seq(), GENESIS_TIMESTAMP, genesis_data())
}

/// The status of a block with regard to a chain.
#[derive(Clone, Copy, Debug, PartialEq, Eq)]
pub enum BlockStatus {
    /// The block is contained within the chain.
    Contained,
    /// The block is valid to be appended to the tip of the chain.
    ValidTip,
    /// The block is potentially valid, but our chain isn't long enough to
    /// verify that.
    PotentiallyValid,
    /// The block is definitely not valid.
    Invalid,
}

/// The status of a block with regard to a valid chain: contained if it
/// equals the block already at its index, a valid tip if it extends the
/// chain, potentially valid if it lies beyond the next position, and
/// invalid otherwise.
pub open spec fn spec_status(s: Seq<BlockView>, b: BlockView) -> BlockStatus {
    if b.index < s.len() {
        if s[b.index as int] == b {
            BlockStatus::Contained
        } else {
            BlockStatus::Invalid
        }
    } else if b.index == s.len() {
        if s.last().valid_next(b) {
            BlockStatus::ValidTip
        } else {
            BlockStatus::Invalid
        }
    } else {
        BlockStatus::PotentiallyValid
    }
}

/// The first position at or after `i` at which the successor lists `x` and
/// `y` diverge: the first position where they differ or where one of them
/// ends, or `None` if they are equal.
pub open spec fn first_divergence(x: Seq<BlockView>, y: Seq<BlockView>, i: int) -> Option<int>
    recommends
        0 <= i,
    decreases x.len() + y.len() - 2 * i,
{
    if i < x.len() && i < y.len() {
        if x[i] == y[i] {
            first_divergence(x, y, i + 1)
        } else {
            Some(i)
        }
    } else if i < x.len() || i < y.len() {
        Some(i)
    } else {
        None
    }
}

/// Where two chains fork: the first position in their successor lists
/// (position 0 is the block after the genesis) at which they diverge.
pub open spec fn spec_find_fork(a: Seq<BlockView>, b: Seq<BlockView>) -> Option<int> {
    first_divergence(a.skip(1), b.skip(1), 0)
}

/// A blockchain: a genesis block and its successors.
#[derive(Clone, Debug, PartialEq, Eq)]
pub struct Chain {
    genesis: Block,
    blocks: Vec<Block>,
}

impl View for Chain {
    type V = Seq<BlockView>;

    closed spec fn view(&self) -> Seq<BlockView> {
        seq![self.genesis@] + blocks_view(self.blocks@)
    }
}

impl Chain {
    /// Creates a new chain holding only the given genesis block.
    pub fn with_genesis(genesis: Block) -> (c: Chain)
        requires
            genesis@.index == 0,
        ensures
            c@ == seq![genesis@],
    {
        let c = Chain { genesis, blocks: Vec::new() };
        proof {
            assert(c@ =~= seq![c.genesis@]);
        }
        c
    }

    /// Creates a new chain with the default genesis block.
    pub fn new() -> (c: Chain)
        ensures
            c@ == seq![default_genesis()],
            chain_valid(c@),
            chain_wf(c@),
    {
        let mut data: Vec<u8> = Vec::new();
        data.push(72);
        data.push(101);
        data.push(108);
        data.push(108);
        data.push(111);
        data.push(44);
        data.push(32);
        data.push(119);
        data.push(111);
        data.push(114);
        data.push(108);
        data.push(100);
        data.push(33);
        proof {
            assert(data@ =~= genesis_data());
        }
        let genesis = Block::new(0, zero_hash(), GENESIS_TIMESTAMP, data);
        Chain::with_genesis(genesis)
    }

    /// Returns a reference to the first block in the chain.
    pub fn genesis(&self) -> (b: &Block)
        ensures
            b@ == self@[0],
    {
        &self.genesis
    }

    /// Returns a reference to the last block in the chain.
    pub fn tip(&self) -> (b: &Block)
        ensures
            b@ == self@.last(),
    {
        if self.blocks.len() == 0 {
            &self.genesis
        } else {
            &self.blocks[self.blocks.len() - 1]
        }
    }

    /// Returns the number of blocks in the chain, the genesis included.
    pub fn len(&self) -> (n: u64)
        requires
            self@.len() <= u64::MAX,
        ensures
            n == self@.len(),
    {
        (self.blocks.len() as u64) + 1
    }

    /// Returns a reference to the block at the given position; 0 is the
    /// genesis.
    pub fn index(&self, i: u64) -> (b: &Block)
        requires
            i < self@.len(),
        ensures
            b@ == self@[i as int],
    {
        if i == 0 {
            &self.genesis
        } else {
            let _n = self.blocks.len();
            proof {
                assert(self@.len() == 1 + self.blocks@.len());
                assert(self@[i as int] == blocks_view(self.blocks@)[i as int - 1]);
            }
            let j = (i - 1) as usize;
            &self.blocks[j]
        }
    }

    /// Whether the given block is valid as the next block in the chain.
    pub fn valid_tip(&self, block: &Block) -> (r: bool)
        ensures
            r == self@.last().valid_next(block@),
    {
        self.tip().valid_next(block)
    }

    /// Pushes a new block onto the chain if it is a valid tip; returns
    /// whether the block was pushed.
    pub fn push(&mut self, block: Block) -> (r: bool)
        ensures
            r == old(self)@.last().valid_next(block@),
            r ==> final(self)@ == old(self)@.push(block@),
            !r ==> final(self)@ == old(self)@,
    {
        if self.valid_tip(&block) {
            self.blocks.push(block);
            proof {
                assert(self@ =~= old(self)@.push(self.blocks@.last()@));
            }
            true
        } else {
            false
        }
    }

    /// Mines a new block holding the given data and timestamp onto the tip
    /// of the chain; returns a copy of the new block.
    pub fn mine_at(&mut self, timestamp: u64, data: Vec<u8>) -> (b: Block)
        requires
            data@.len() <= MAX_DATA_LEN,
            old(self)@.last().index < u64::MAX,
        ensures
            b@ == spec_new_block(
                (old(self)@.last().index + 1) as u64,
                old(self)@.last().hash,
                timestamp,
                data@,
            ),
            b@.wf(),
            final(self)@ == old(self)@.push(b@),
    {
        let block = self.tip().create_at(timestamp, data);
        let copy = block.duplicate();
        self.blocks.push(block);
        proof {
            assert(self@ =~= old(self)@.push(copy@));
        }
        copy
    }

    /// Mines a new block holding the given data onto the tip of the chain,
    /// timestamped with the current time; returns a copy of the new block.
    pub fn mine(&mut self, data: Vec<u8>) -> (b: Block)
        requires
            data@.len() <= MAX_DATA_LEN,
            old(self)@.last().index < u64::MAX,
        ensures
            b@ == spec_new_block(
                (old(self)@.last().index + 1) as u64,
                old(self)@.last().hash,
                b@.timestamp,
                data@,
            ),
            b@.wf(),
            final(self)@ == old(self)@.push(b@),
    {
        let t = now();
        self.mine_at(t, data)
    }

    /// Checks whether every block of the chain keeps its data payload
    /// within the hard cap.
    pub fn check_wf(&self) -> (r: bool)
        ensures
            r == chain_wf(self@),
    {
        if self.genesis.data.len() > MAX_DATA_LEN {
            proof {
                assert(!self@[0].wf());
            }
            return false;
        }
        let mut i: usize = 0;
        while i < self.blocks.len()
            invariant
                i <= self.blocks@.len(),
                self@.len() == 1 + self.blocks@.len(),
                self@[0].wf(),
                forall|j: int| 1 <= j < i + 1 ==> (#[trigger] self@[j]).wf(),
            decreases self.blocks@.len() - i,
        {
            proof {
                assert(self@[i as int + 1] == blocks_view(self.blocks@)[i as int]);
            }
            if self.blocks[i].data.len() > MAX_DATA_LEN {
                proof {
                    assert(!self@[i as int + 1].wf());
                }
                return false;
            }
            i = i + 1;
        }
        true
    }

    /// Whether the chain has room for at least one more block under `u64`
    /// indexing.
    pub fn has_room(&self) -> (r: bool)
        ensures
            r == (self@.len() < u64::MAX),
    {
        (self.blocks.len() as u64) < u64::MAX - 1
    }

    /// Checks whether the chain is valid.
    pub fn is_valid(&self) -> (r: bool)
        ensures
            r == chain_valid(self@),
    {
        let mut i: usize = 0;
        while i < self.blocks.len()
            invariant
                i <= self.blocks@.len(),
                self@.len() == 1 + self.blocks@.len(),
                forall|j: int| 0 <= j < i ==> #[trigger] self@[j].valid_next(self@[j + 1]),
            decreases self.blocks@.len() - i,
        {
            let prev: &Block = if i == 0 {
                &self.genesis
            } else {
                &self.blocks[i - 1]
            };
            if !prev.valid_next(&self.blocks[i]) {
                proof {
                    assert(!self@[i as int].valid_next(self@[i as int + 1]));
                }
                return false;
            }
            i = i + 1;
        }
        self.genesis.index == 0
    }

    /// Gets the status of a block with respect to the chain, which must be
    /// valid.
    pub fn status(&self, block: &Block) -> (r: BlockStatus)
        requires
            chain_valid(self@),
            self@.len() <= u64::MAX,
        ensures
            r == spec_status(self@, block@),
    {
        let n = self.len();
        if block.index < n {
            if block.same_as(self.index(block.index)) {
                BlockStatus::Contained
            } else {
                BlockStatus::Invalid
            }
        } else if block.index == n {
            if self.valid_tip(block) {
                BlockStatus::ValidTip
            } else {
                BlockStatus::Invalid
            }
        } else {
            BlockStatus::PotentiallyValid
        }
    }

    /// Finds the position at which the successor lists of two chains
    /// diverge, or `None` if the chains are equal. The chains must share a
    /// genesis block and both be valid.
    pub fn find_fork(&self, other: &Chain) -> (r: Option<u64>)
        requires
            chain_valid(self@),
            chain_valid(other@),
            self@[0] == other@[0],
            self@.len() <= u64::MAX,
            other@.len() <= u64::MAX,
        ensures
            r matches Some(k) ==> spec_find_fork(self@, other@) == Some(k as int),
            r is None ==> spec_find_fork(self@, other@) is None,
    {
        proof {
            assert(self@.skip(1) =~= blocks_view(self.blocks@));
            assert(other@.skip(1) =~= blocks_view(other.blocks@));
        }
        let mut i: usize = 0;
        while i < self.blocks.len() || i < other.blocks.len()
            invariant
                i <= self.blocks@.len() || i <= other.blocks@.len(),
                self@.skip(1) == blocks_view(self.blocks@),
                other@.skip(1) == blocks_view(other.blocks@),
                first_divergence(self@.skip(1), other@.skip(1), 0) == first_divergence(
                    self@.skip(1),
                    other@.skip(1),
                    i as int,
                ),
            decreases self.blocks@.len() + other.blocks@.len() - i,
        {
            if i >= self.blocks.len() || i >= other.blocks.len() {
                return Some(i as u64);
            }
            if !self.blocks[i].same_as(&other.blocks[i]) {
                return Some(i as u64);
            }
            i = i + 1;
        }
        None
    }
}

/// Every block constructed from explicit fields carries the hash of those
/// fields, so it is internally valid.
pub proof fn lemma_new_block_is_valid(index: u64, prev_hash: Seq<u8>, timestamp: u64, data: Seq<u8>)
    ensures
        spec_new_block(index, prev_hash, timestamp, data).valid(),
{
}

/// In a valid chain, the block at each position carries that position as
/// its index; consequently a valid chain cannot hold more than 2^64 blocks.
pub proof fn lemma_chain_indices(s: Seq<BlockView>)
    requires
        chain_valid(s),
    ensures
        forall|i: int| 0 <= i < s.len() ==> #[trigger] s[i].index == i,
        s.len() <= 0x1_0000_0000_0000_0000,
{
    assert forall|i: int| 0 <= i < s.len() implies #[trigger] s[i].index == i by {
        lemma_chain_index_at(s, i);
    }
    if s.len() > 0x1_0000_0000_0000_0000 {
        assert(s[0x1_0000_0000_0000_0000].index == 0x1_0000_0000_0000_0000);
    }
}

proof fn lemma_chain_index_at(s: Seq<BlockView>, i: int)
    requires
        chain_valid(s),
        0 <= i < s.len(),
    ensures
        s[i].index == i,
    decreases i,
{
    if i > 0 {
        let j = i - 1;
        lemma_chain_index_at(s, j);
        assert(s[j].valid_next(s[j + 1]));
    }
}

/// In a valid chain, the index of the tip is one less than the length of
/// the chain.
pub proof fn lemma_tip_index(s: Seq<BlockView>)
    requires
        chain_valid(s),
    ensures
        s.last().index + 1 == s.len(),
{
    lemma_chain_indices(s);
}

/// Appending a valid successor to a valid chain keeps it valid.
pub proof fn lemma_chain_valid_push(c: Seq<BlockView>, b: BlockView)
    requires
        chain_valid(c),
        c.last().valid_next(b),
    ensures
        chain_valid(c.push(b)),
{
    let d = c.push(b);
    assert forall|i: int| 0 <= i < d.len() - 1 implies #[trigger] d[i].valid_next(d[i + 1]) by {
        if i < c.len() - 1 {
            assert(c[i].valid_next(c[i + 1]));
        } else {
            assert(d[i] == c.last() && d[i + 1] == b);
        }
    }
}

/// In a valid chain, every block is a valid successor of the one before it.
pub proof fn lemma_chain_links(s: Seq<BlockView>)
    requires
        chain_valid(s),
    ensures
        forall|j: int| 0 <= j < s.len() - 1 ==> #[trigger] s[j].valid_next(s[j + 1]),
{
}

} // verus!
