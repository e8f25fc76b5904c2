//! The deterministic merge of two chains that share a genesis block.
//!
//! The point at which the chains fork is found; the side whose first
//! diverging block is smaller under a fixed total order keeps its blocks,
//! and the data of the losing side is re-mined in its original order onto
//! the new tip.

use vstd::prelude::*;
use vstd::seq_lib::lemma_multiset_commutative;

use crate::util::{bytes_lt, lemma_bytes_lt_trichotomy};
use super::{
    blocks_view, chain_valid, chain_wf, first_divergence, lemma_chain_valid_push, spec_find_fork,
    spec_new_block, Block, BlockView, Chain,
};

verus! {

/// The strict total order on blocks used to break ties during a merge:
/// lexicographic on the tuple (index, prev_hash, timestamp, hash, data),
/// with byte strings ordered lexicographically.
pub open spec fn spec_block_lt(a: BlockView, b: BlockView) -> bool {
    if a.index != b.index {
        a.index < b.index
    } else if a.prev_hash != b.prev_hash {
        bytes_lt(a.prev_hash, b.prev_hash)
    } else if a.timestamp != b.timestamp {
        a.timestamp < b.timestamp
    } else if a.hash != b.hash {
        bytes_lt(a.hash, b.hash)
    } else {
        bytes_lt(a.data, b.data)
    }
}

/// The reflexive closure of the block order.
pub open spec fn spec_block_le(a: BlockView, b: BlockView) -> bool {
    spec_block_lt(a, b) || a == b
}

/// The block order is a strict total order: of two distinct blocks, exactly
/// one precedes the other.
pub proof fn lemma_block_lt_trichotomy(a: BlockView, b: BlockView)
    ensures
        spec_block_lt(a, b) || spec_block_lt(b, a) || a == b,
        spec_block_lt(a, b) ==> !spec_block_lt(b, a) && a != b,
        spec_block_lt(b, a) ==> !spec_block_lt(a, b) && a != b,
{
    lemma_bytes_lt_trichotomy(a.prev_hash, b.prev_hash);
    lemma_bytes_lt_trichotomy(a.hash, b.hash);
    lemma_bytes_lt_trichotomy(a.data, b.data);
    if a.index == b.index && a.prev_hash == b.prev_hash && a.timestamp == b.timestamp && a.hash
        == b.hash && a.data == b.data {
        assert(a == b);
    }
}

/// Compares two blocks under the merge order.
pub fn block_le(a: &Block, b: &Block) -> (r: bool)
    ensures
        r == spec_block_le(a@, b@),
{
    proof {
        lemma_block_lt_trichotomy(a@, b@);
    }
    if a.index != b.index {
        return a.index < b.index;
    }
    let c = crate::util::bytes_cmp(a.prev_hash.0.as_slice(), b.prev_hash.0.as_slice());
    if c != 0 {
        return c < 0;
    }
    if a.timestamp != b.timestamp {
        return a.timestamp < b.timestamp;
    }
    let c = crate::util::bytes_cmp(a.hash.0.as_slice(), b.hash.0.as_slice());
    if c != 0 {
        return c < 0;
    }
    let c = crate::util::bytes_cmp(a.data.as_slice(), b.data.as_slice());
    proof {
        if a@.data == b@.data {
            assert(a@ == b@);
        }
    }
    c <= 0
}

/// The block mined onto `tip` with the given timestamp and data.
pub open spec fn spec_mine_block(tip: BlockView, timestamp: u64, data: Seq<u8>) -> BlockView {
    spec_new_block((tip.index + 1) as u64, tip.hash, timestamp, data)
}

/// The chain `c` extended by mining each of `datas` in order at time `t`.
pub open spec fn extend_chain(c: Seq<BlockView>, datas: Seq<Seq<u8>>, t: u64) -> Seq<BlockView>
    decreases datas.len(),
{
    if datas.len() == 0 {
        c
    } else {
        extend_chain(c.push(spec_mine_block(c.last(), t, datas.first())), datas.drop_first(), t)
    }
}

/// The data payloads of a chain, in order.
pub open spec fn chain_datas(s: Seq<BlockView>) -> Seq<Seq<u8>> {
    s.map_values(|b: BlockView| b.data)
}

/// Which of two diverging suffixes is kept in place: the left one if its
/// first block precedes the right one's under the block order, and also
/// whenever either suffix is empty.
pub open spec fn suffixes_le(l: Seq<BlockView>, r: Seq<BlockView>) -> bool {
    if l.len() > 0 && r.len() > 0 {
        spec_block_le(l[0], r[0])
    } else {
        true
    }
}

/// The deterministic merge of chains `a` and `b` at time `t`: if they do
/// not fork, `a` itself; otherwise the chain whose diverging suffix is
/// smaller keeps its blocks, and the data of the other side's suffix is
/// re-mined onto its tip at time `t`.
pub open spec fn spec_combine(a: Seq<BlockView>, b: Seq<BlockView>, t: u64) -> Seq<BlockView> {
    match spec_find_fork(a, b) {
        None => a,
        Some(i) => {
            let l = a.skip(1 + i);
            let r = b.skip(1 + i);
            if suffixes_le(l, r) {
                extend_chain(a, chain_datas(r), t)
            } else {
                extend_chain(b, chain_datas(l), t)
            }
        },
    }
}

/// Facts about a divergence point: the lists agree before it, and at it
/// they differ or one of them ends.
proof fn lemma_divergence_some(x: Seq<BlockView>, y: Seq<BlockView>, i: int, k: int)
    requires
        0 <= i <= x.len(),
        i <= y.len(),
        first_divergence(x, y, i) == Some(k),
    ensures
        i <= k <= x.len(),
        k <= y.len(),
        k < x.len() || k < y.len(),
        forall|j: int| i <= j < k ==> x[j] == y[j],
        k < x.len() && k < y.len() ==> x[k] != y[k],
    decreases x.len() + y.len() - 2 * i,
{
    if i < x.len() && i < y.len() && x[i] == y[i] {
        lemma_divergence_some(x, y, i + 1, k);
    }
}

/// If two successor lists never diverge, they are equal.
proof fn lemma_divergence_none(x: Seq<BlockView>, y: Seq<BlockView>, i: int)
    requires
        0 <= i <= x.len(),
        i <= y.len(),
        first_divergence(x, y, i) is None,
    ensures
        x.len() == y.len(),
        forall|j: int| i <= j < x.len() ==> x[j] == y[j],
    decreases x.len() + y.len() - 2 * i,
{
    if i < x.len() && i < y.len() {
        lemma_divergence_none(x, y, i + 1);
    }
}

/// The divergence point does not depend on the order of the two lists.
proof fn lemma_divergence_sym(x: Seq<BlockView>, y: Seq<BlockView>, i: int)
    requires
        0 <= i,
    ensures
        first_divergence(x, y, i) == first_divergence(y, x, i),
    decreases x.len() + y.len() - 2 * i,
{
    if i < x.len() && i < y.len() && x[i] == y[i] {
        lemma_divergence_sym(x, y, i + 1);
    }
}

/// Extending a chain appends one block per data payload and touches nothing
/// before the old length.
proof fn lemma_extend_chain_shape(c: Seq<BlockView>, datas: Seq<Seq<u8>>, t: u64)
    ensures
        extend_chain(c, datas, t).len() == c.len() + datas.len(),
        forall|j: int| 0 <= j < c.len() ==> extend_chain(c, datas, t)[j] == c[j],
    decreases datas.len(),
{
    if datas.len() > 0 {
        let nb = spec_mine_block(c.last(), t, datas.first());
        lemma_extend_chain_shape(c.push(nb), datas.drop_first(), t);
        assert forall|j: int| 0 <= j < c.len() implies extend_chain(c, datas, t)[j] == c[j] by {
            assert(extend_chain(c.push(nb), datas.drop_first(), t)[j] == c.push(nb)[j]);
        }
    }
}

/// The data payloads of an extended chain are the old payloads followed by
/// the mined payloads.
proof fn lemma_extend_chain_datas(c: Seq<BlockView>, datas: Seq<Seq<u8>>, t: u64)
    ensures
        chain_datas(extend_chain(c, datas, t)) == chain_datas(c) + datas,
    decreases datas.len(),
{
    if datas.len() == 0 {
        assert(chain_datas(extend_chain(c, datas, t)) =~= chain_datas(c) + datas);
    } else {
        let nb = spec_mine_block(c.last(), t, datas.first());
        lemma_extend_chain_datas(c.push(nb), datas.drop_first(), t);
        assert(chain_datas(c.push(nb)) =~= chain_datas(c).push(nb.data));
        assert(chain_datas(c).push(nb.data) + datas.drop_first() =~= chain_datas(c) + datas);
    }
}

/// Extending a valid chain whose indices stay within `u64` yields a valid
/// chain.
proof fn lemma_extend_chain_valid(c: Seq<BlockView>, datas: Seq<Seq<u8>>, t: u64)
    requires
        chain_valid(c),
        c.last().index + datas.len() <= u64::MAX,
    ensures
        chain_valid(extend_chain(c, datas, t)),
        extend_chain(c, datas, t).last().index == c.last().index + datas.len(),
    decreases datas.len(),
{
    if datas.len() > 0 {
        let nb = spec_mine_block(c.last(), t, datas.first());
        assert(c.last().valid_next(nb));
        lemma_chain_valid_push(c, nb);
        lemma_extend_chain_valid(c.push(nb), datas.drop_first(), t);
    }
}

impl Chain {
    /// Combines two chains deterministically at the given timestamp. The
    /// chains must share a genesis block and both be valid.
    pub fn combine_at(self, other: Chain, timestamp: u64) -> (c: Chain)
        requires
            chain_valid(self@),
            chain_valid(other@),
            chain_wf(self@),
            chain_wf(other@),
            self@[0] == other@[0],
            self@.len() + other@.len() <= u64::MAX,
        ensures
            c@ == spec_combine(self@, other@, timestamp),
            chain_valid(c@),
            chain_wf(c@),
    {
        let ghost a = self@;
        let ghost b = other@;
        let ghost sblocks0 = self.blocks@;
        let ghost oblocks0 = other.blocks@;
        let fork = self.find_fork(&other);
        let mut s = self;
        let mut o = other;
        match fork {
            None => {
                proof {
                    assert(spec_combine(a, b, timestamp) == a);
                }
                s
            },
            Some(fork_pos) => {
                let ghost i = fork_pos as int;
                proof {
                    assert(a.skip(1) =~= blocks_view(s.blocks@));
                    assert(b.skip(1) =~= blocks_view(o.blocks@));
                    lemma_divergence_some(a.skip(1), b.skip(1), 0, i);
                }
                let s_len = s.blocks.len();
                let o_len = o.blocks.len();
                proof {
                    assert(i <= s_len && i <= o_len);
                }
                let at = fork_pos as usize;
                let l = s.blocks.split_off(at);
                let r = o.blocks.split_off(at);
                let left_wins = if l.len() > 0 && r.len() > 0 {
                    block_le(&l[0], &r[0])
                } else {
                    true
                };
                proof {
                    assert(blocks_view(l@) =~= a.skip(1 + i));
                    assert(blocks_view(r@) =~= b.skip(1 + i));
                    assert(left_wins == suffixes_le(a.skip(1 + i), b.skip(1 + i)));
                    super::lemma_chain_indices(a);
                    super::lemma_chain_indices(b);
                }
                if left_wins {
                    append_all(&mut s.blocks, l);
                    proof {
                        assert(s@ =~= a);
                        assert forall|j: int|
                            0 <= j < r@.len() implies (#[trigger] r@[j])@.data.len()
                            <= crate::MAX_DATA_LEN by {
                            assert(blocks_view(r@)[j] == r@[j]@);
                            assert(b.skip(1 + i)[j] == b[1 + i + j]);
                            assert(b[1 + i + j].wf());
                        }
                        assert(a.last().index == a.len() - 1);
                        assert(chain_datas(blocks_view(r@)) == chain_datas(b.skip(1 + i)));
                    }
                    remine(&mut s, r, timestamp);
                    s
                } else {
                    append_all(&mut s.blocks, r);
                    proof {
                        assert(s@.len() == b.len());
                        assert(s@ =~= b) by {
                            assert forall|j: int| 0 <= j < b.len() implies s@[j] == b[j] by {
                                if j == 0 {
                                    assert(s@[0] == a[0]);
                                } else if j < 1 + i {
                                    assert(s@[j] == s.blocks@[j - 1]@);
                                    assert(s.blocks@[j - 1] == sblocks0[j - 1]);
                                    assert(blocks_view(sblocks0)[j - 1] == sblocks0[j - 1]@);
                                    assert(a.skip(1)[j - 1] == b.skip(1)[j - 1]);
                                    assert(b[j] == b.skip(1)[j - 1]);
                                } else {
                                    assert(s@[j] == s.blocks@[j - 1]@);
                                    assert(s.blocks@[j - 1] == r@[j - 1 - i]);
                                    assert(blocks_view(r@)[j - 1 - i] == r@[j - 1 - i]@);
                                    assert(b[j] == b.skip(1 + i)[j - 1 - i]);
                                }
                            }
                        }
                        assert forall|j: int|
                            0 <= j < l@.len() implies (#[trigger] l@[j])@.data.len()
                            <= crate::MAX_DATA_LEN by {
                            assert(blocks_view(l@)[j] == l@[j]@);
                            assert(a.skip(1 + i)[j] == a[1 + i + j]);
                            assert(a[1 + i + j].wf());
                        }
                        assert(b.last().index == b.len() - 1);
                        assert(chain_datas(blocks_view(l@)) == chain_datas(a.skip(1 + i)));
                    }
                    remine(&mut s, l, timestamp);
                    s
                }
            },
        }
    }

    /// Combines two chains deterministically, stamping re-mined blocks with
    /// the current time. The chains must share a genesis block and both be
    /// valid.
    pub fn combine(self, other: Chain) -> (c: Chain)
        requires
            chain_valid(self@),
            chain_valid(other@),
            chain_wf(self@),
            chain_wf(other@),
            self@[0] == other@[0],
            self@.len() + other@.len() <= u64::MAX,
        ensures
            exists|t: u64| c@ == spec_combine(self@, other@, t),
            chain_valid(c@),
            chain_wf(c@),
    {
        let t = crate::util::now();
        let c = self.combine_at(other, t);
        proof {
            assert(c@ == spec_combine(self@, other@, t));
        }
        c
    }
}

/// Where two chains fork: if the fork is at `k`, their successor lists
/// agree before `k` and differ at `k` (or one of them ends there); if there
/// is no fork, the chains are equal.
pub proof fn lemma_find_fork_properties(a: Seq<BlockView>, b: Seq<BlockView>)
    requires
        a.len() >= 1,
        b.len() >= 1,
        a[0] == b[0],
    ensures
        spec_find_fork(a, b) matches Some(k) ==> {
            &&& 0 <= k <= a.len() - 1
            &&& k <= b.len() - 1
            &&& k < a.len() - 1 || k < b.len() - 1
            &&& forall|j: int| 0 <= j < k + 1 ==> a[j] == b[j]
            &&& (k < a.len() - 1 && k < b.len() - 1 ==> a[k + 1] != b[k + 1])
        },
        spec_find_fork(a, b) is None ==> a == b,
{
    let x = a.skip(1);
    let y = b.skip(1);
    match spec_find_fork(a, b) {
        Some(k) => {
            lemma_divergence_some(x, y, 0, k);
            assert forall|j: int| 0 <= j < k + 1 implies a[j] == b[j] by {
                if j >= 1 {
                    assert(x[j - 1] == y[j - 1]);
                    assert(a[j] == x[j - 1] && b[j] == y[j - 1]);
                }
            }
            if k < a.len() - 1 && k < b.len() - 1 {
                assert(a[k + 1] == x[k] && b[k + 1] == y[k]);
            }
        },
        None => {
            lemma_divergence_none(x, y, 0);
            assert(a =~= b) by {
                assert forall|j: int| 0 <= j < a.len() implies a[j] == b[j] by {
                    if j >= 1 {
                        assert(x[j - 1] == y[j - 1]);
                        assert(a[j] == x[j - 1] && b[j] == y[j - 1]);
                    }
                }
            }
        },
    }
}

/// The fork position does not depend on the order of the two chains.
pub proof fn lemma_find_fork_symmetric(a: Seq<BlockView>, b: Seq<BlockView>)
    ensures
        spec_find_fork(a, b) == spec_find_fork(b, a),
{
    lemma_divergence_sym(a.skip(1), b.skip(1), 0);
}

/// Merge determinism: two valid chains that share a genesis block combine
/// to the same chain in either order, provided each chain reaches past the
/// fork. (When one chain is a proper prefix of the other, the orders differ:
/// one keeps the longer chain verbatim while the other re-mines its extra
/// blocks with fresh timestamps.)
pub proof fn lemma_combine_deterministic(a: Seq<BlockView>, b: Seq<BlockView>, t: u64)
    requires
        chain_valid(a),
        chain_valid(b),
        a[0] == b[0],
        spec_find_fork(a, b) matches Some(i) ==> i < a.len() - 1 && i < b.len() - 1,
    ensures
        spec_combine(a, b, t) == spec_combine(b, a, t),
{
    let x = a.skip(1);
    let y = b.skip(1);
    lemma_divergence_sym(x, y, 0);
    match spec_find_fork(a, b) {
        None => {
            lemma_divergence_none(x, y, 0);
            assert(a =~= b) by {
                assert forall|j: int| 0 <= j < a.len() implies a[j] == b[j] by {
                    if j >= 1 {
                        assert(x[j - 1] == y[j - 1]);
                        assert(a[j] == x[j - 1] && b[j] == y[j - 1]);
                    }
                }
            }
        },
        Some(i) => {
            lemma_divergence_some(x, y, 0, i);
            let l = a.skip(1 + i);
            let r = b.skip(1 + i);
            assert(l.len() > 0 && r.len() > 0);
            assert(l[0] == x[i] && r[0] == y[i]);
            assert(l[0] != r[0]);
            lemma_block_lt_trichotomy(l[0], r[0]);
            assert(spec_find_fork(b, a) == Some(i));
            if spec_block_le(l[0], r[0]) {
                assert(!suffixes_le(r, l));
                assert(spec_combine(a, b, t) == extend_chain(a, chain_datas(r), t));
                assert(spec_combine(b, a, t) == extend_chain(a, chain_datas(r), t));
            } else {
                assert(suffixes_le(r, l));
                assert(spec_combine(a, b, t) == extend_chain(b, chain_datas(l), t));
                assert(spec_combine(b, a, t) == extend_chain(b, chain_datas(l), t));
            }
        },
    }
}

/// Merge preservation: if the chains do not fork, the merge is the left
/// chain itself; if they fork, the multiset of non-genesis data payloads of
/// the merged chain is the union of the non-genesis payloads of the left
/// chain and the payloads of the right chain past the fork.
pub proof fn lemma_combine_preserves_data(a: Seq<BlockView>, b: Seq<BlockView>, t: u64)
    requires
        chain_valid(a),
        chain_valid(b),
        a[0] == b[0],
    ensures
        spec_find_fork(a, b) is None ==> spec_combine(a, b, t) == a,
        spec_find_fork(a, b) matches Some(i) ==> chain_datas(
            spec_combine(a, b, t),
        ).skip(1).to_multiset() == chain_datas(a).skip(1).to_multiset().add(
            chain_datas(b).skip(1 + i).to_multiset(),
        ),
{
    let x = a.skip(1);
    let y = b.skip(1);
    if let Some(i) = spec_find_fork(a, b) {
        lemma_divergence_some(x, y, 0, i);
        let l = a.skip(1 + i);
        let r = b.skip(1 + i);
        let da = chain_datas(a).skip(1);
        let db = chain_datas(b).skip(1);
        let dl = chain_datas(l);
        let dr = chain_datas(r);
        assert(dl =~= chain_datas(a).skip(1 + i));
        assert(dr =~= chain_datas(b).skip(1 + i));
        let p = chain_datas(a).subrange(1, 1 + i);
        assert(p =~= chain_datas(b).subrange(1, 1 + i)) by {
            assert forall|j: int| 0 <= j < i implies p[j] == chain_datas(b).subrange(1, 1 + i)[j] by {
                assert(x[j] == y[j]);
                assert(a[j + 1] == x[j] && b[j + 1] == y[j]);
            }
        }
        assert(da =~= p + dl);
        assert(db =~= p + dr);
        if suffixes_le(l, r) {
            assert(spec_combine(a, b, t) == extend_chain(a, dr, t));
            lemma_extend_chain_datas(a, dr, t);
            assert(chain_datas(extend_chain(a, dr, t)).skip(1) =~= da + dr);
            lemma_multiset_commutative(da, dr);
        } else {
            assert(spec_combine(a, b, t) == extend_chain(b, dl, t));
            lemma_extend_chain_datas(b, dl, t);
            assert(chain_datas(extend_chain(b, dl, t)).skip(1) =~= db + dl);
            lemma_multiset_commutative(db, dl);
            lemma_multiset_commutative(da, dr);
            lemma_multiset_commutative(p, dl);
            lemma_multiset_commutative(p, dr);
            assert(db.to_multiset().add(dl.to_multiset()) =~= da.to_multiset().add(
                dr.to_multiset(),
            ));
        }
    }
}

/// Moves all blocks of `w` onto the end of `v`, in order.
fn append_all(v: &mut Vec<Block>, w: Vec<Block>)
    ensures
        final(v)@ == old(v)@ + w@,
{
    let mut w = w;
    let ghost w0 = w@;
    while w.len() > 0
        invariant
            v@ + w@ == old(v)@ + w0,
        decreases w@.len(),
    {
        let b = w.remove(0);
        v.push(b);
        proof {
            assert(v@ + w@ =~= old(v)@ + w0);
        }
    }
    proof {
        assert(v@ =~= old(v)@ + w0);
    }
}

/// Re-mines the data of each given block, in order, onto the tip of `c` at
/// time `t`.
fn remine(c: &mut Chain, blocks: Vec<Block>, t: u64)
    requires
        chain_valid(old(c)@),
        chain_wf(old(c)@),
        forall|j: int|
            0 <= j < blocks@.len() ==> (#[trigger] blocks@[j])@.data.len() <= crate::MAX_DATA_LEN,
        old(c)@.last().index + blocks@.len() <= u64::MAX,
    ensures
        final(c)@ == extend_chain(old(c)@, chain_datas(blocks_view(blocks@)), t),
        chain_valid(final(c)@),
        chain_wf(final(c)@),
{
    let mut blocks = blocks;
    let ghost target = extend_chain(old(c)@, chain_datas(blocks_view(blocks@)), t);
    while blocks.len() > 0
        invariant
            chain_valid(c@),
            chain_wf(c@),
            forall|j: int|
                0 <= j < blocks@.len() ==> (#[trigger] blocks@[j])@.data.len()
                    <= crate::MAX_DATA_LEN,
            c@.last().index + blocks@.len() <= u64::MAX,
            extend_chain(c@, chain_datas(blocks_view(blocks@)), t) == target,
        decreases blocks@.len(),
    {
        let ghost before = blocks@;
        let b = blocks.remove(0);
        let ghost pre = c@;
        let ghost rest = chain_datas(blocks_view(blocks@));
        proof {
            assert(chain_datas(blocks_view(before)).first() == b@.data);
            assert(chain_datas(blocks_view(before)).drop_first() =~= rest);
        }
        let _mined = c.mine_at(t, b.data);
        proof {
            assert(c@ == pre.push(spec_mine_block(pre.last(), t, b@.data)));
            assert(pre.last().valid_next(spec_mine_block(pre.last(), t, b@.data)));
            lemma_chain_valid_push(pre, spec_mine_block(pre.last(), t, b@.data));
            assert(chain_wf(c@)) by {
                assert(forall|j: int| 0 <= j < pre.len() ==> c@[j] == pre[j]);
                assert(c@.last().wf());
                assert(forall|j: int| 0 <= j < c@.len() ==> #[trigger] c@[j].wf());
            }
        }
    }
    proof {
        assert(chain_datas(blocks_view(blocks@)) =~= Seq::<Seq<u8>>::empty());
        assert(extend_chain(c@, chain_datas(blocks_view(blocks@)), t) == c@);
    }
}

} // verus!
