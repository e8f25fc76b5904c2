//! Small utilities: the system clock, byte-vector helpers, and the
//! lexicographic order on byte strings used to break ties during merges.

use std::io::Write;
use vstd::prelude::*;

use crate::errors::Error;

verus! {

/// Returns the current Unix timestamp in seconds.
///
/// Relies on `std::time::SystemTime::now`: the result depends on the system
/// clock, so nothing can be promised of it. A clock before the Unix epoch is
/// reported as 0.
#[verifier::external_body]
pub fn now() -> u64 {
    std::time::SystemTime::now()
        .duration_since(std::time::UNIX_EPOCH)
        .map(|d| d.as_secs())
        .unwrap_or(0)
}

/// Writes one line to standard error.
///
/// Relies on `std::io::stderr`; a write failure is ignored, as the message
/// is advisory only.
#[verifier::external_body]
fn write_stderr(msg: &str) {
    let _ = writeln!(std::io::stderr(), "{}", msg);
}

/// Reports an error on standard error, returning whether an error occurred.
pub fn log_err(r: Result<(), Error>) -> (b: bool)
    ensures
        b == r.is_err(),
{
    match r {
        Ok(_) => false,
        Err(err) => {
            write_stderr(err.describe());
            true
        },
    }
}

/// Copies a byte vector.
pub fn copy_bytes(v: &Vec<u8>) -> (out: Vec<u8>)
    ensures
        out@ == v@,
{
    vstd::slice::slice_to_vec(v.as_slice())
}

/// Converts a byte slice to a `Vec<u8>` if its length is at most `cap`.
pub fn bounded_bytes(s: &[u8], cap: usize) -> (out: Option<Vec<u8>>)
    ensures
        match out {
            Some(v) => v@ == s@ && s@.len() <= cap,
            None => s@.len() > cap,
        },
{
    if s.len() > cap {
        None
    } else {
        Some(vstd::slice::slice_to_vec(s))
    }
}

/// Copies a byte slice of length `N` into an array.
pub fn bytes_to_array<const N: usize>(s: &[u8]) -> (a: [u8; N])
    requires
        s@.len() == N,
    ensures
        a@ == s@,
{
    let mut a = [0u8; N];
    let mut i: usize = 0;
    while i < N
        invariant
            i <= N,
            s@.len() == N,
            a@.len() == N,
            forall|j: int| 0 <= j < i ==> a@[j] == s@[j],
        decreases N - i,
    {
        a[i] = *vstd::slice::slice_index_get(s, i);
        i = i + 1;
    }
    proof {
        assert(a@ =~= s@);
    }
    a
}

/// Appends all bytes of `s` to `out`.
pub fn append_bytes(out: &mut Vec<u8>, s: &[u8])
    ensures
        final(out)@ == old(out)@ + s@,
{
    let mut i: usize = 0;
    while i < s.len()
        invariant
            i <= s@.len(),
            out@ == old(out)@ + s@.take(i as int),
        decreases s@.len() - i,
    {
        out.push(*vstd::slice::slice_index_get(s, i));
        proof {
            assert(out@ =~= old(out)@ + s@.take(i + 1));
        }
        i = i + 1;
    }
    proof {
        assert(out@ =~= old(out)@ + s@);
    }
}

/// Whether two byte strings are equal.
pub fn bytes_eq(x: &[u8], y: &[u8]) -> (r: bool)
    ensures
        r == (x@ == y@),
{
    if x.len() != y.len() {
        return false;
    }
    let mut i: usize = 0;
    while i < x.len()
        invariant
            x@.len() == y@.len(),
            i <= x@.len(),
            forall|j: int| 0 <= j < i ==> x@[j] == y@[j],
        decreases x@.len() - i,
    {
        if *vstd::slice::slice_index_get(x, i) != *vstd::slice::slice_index_get(y, i) {
            return false;
        }
        i = i + 1;
    }
    proof {
        assert(x@ =~= y@);
    }
    true
}

/// The strict lexicographic order on byte strings: a proper prefix precedes
/// its extensions, and otherwise the first differing byte decides.
pub open spec fn bytes_lt(x: Seq<u8>, y: Seq<u8>) -> bool
    decreases x.len(),
{
    if x.len() == 0 {
        y.len() > 0
    } else if y.len() == 0 {
        false
    } else if x.first() != y.first() {
        x.first() < y.first()
    } else {
        bytes_lt(x.drop_first(), y.drop_first())
    }
}

/// Exactly one of `x < y`, `x == y`, `y < x` holds under the lexicographic
/// order.
pub proof fn lemma_bytes_lt_trichotomy(x: Seq<u8>, y: Seq<u8>)
    ensures
        bytes_lt(x, y) || bytes_lt(y, x) || x == y,
        bytes_lt(x, y) ==> !bytes_lt(y, x) && x != y,
        bytes_lt(y, x) ==> !bytes_lt(x, y) && x != y,
    decreases x.len(),
{
    if x.len() == 0 {
        if y.len() == 0 {
            assert(x =~= y);
        }
    } else if y.len() == 0 {
    } else if x.first() != y.first() {
    } else {
        lemma_bytes_lt_trichotomy(x.drop_first(), y.drop_first());
        if x.drop_first() == y.drop_first() {
            assert(x =~= y) by {
                assert(forall|j: int|
                    1 <= j < x.len() ==> x[j] == x.drop_first()[j - 1] && y[j] == y.drop_first()[j
                        - 1]);
            }
        }
        if x == y {
            assert(x.drop_first() =~= y.drop_first());
        }
    }
}

/// Relates the lexicographic order to the first position at which two byte
/// strings differ: if they agree on their first `i` bytes, the byte at `i`
/// (or the end of the shorter one) decides the order.
pub proof fn lemma_bytes_lt_at(x: Seq<u8>, y: Seq<u8>, i: int)
    requires
        0 <= i <= x.len(),
        i <= y.len(),
        forall|j: int| 0 <= j < i ==> x[j] == y[j],
    ensures
        i == x.len() && i == y.len() ==> x == y,
        i == x.len() && i < y.len() ==> bytes_lt(x, y),
        i == y.len() && i < x.len() ==> bytes_lt(y, x),
        i < x.len() && i < y.len() && x[i] < y[i] ==> bytes_lt(x, y),
        i < x.len() && i < y.len() && y[i] < x[i] ==> bytes_lt(y, x),
    decreases i,
{
    if i == 0 {
        if x.len() == 0 && y.len() == 0 {
            assert(x =~= y);
        }
    } else {
        let xs = x.drop_first();
        let ys = y.drop_first();
        assert(forall|j: int|
            0 <= j < i - 1 ==> xs[j] == x[j + 1] && ys[j] == y[j + 1]);
        lemma_bytes_lt_at(xs, ys, i - 1);
        if i == x.len() && i == y.len() {
            assert(x =~= y) by {
                assert(forall|j: int| 1 <= j < x.len() ==> x[j] == xs[j - 1] && y[j] == ys[j - 1]);
            }
        }
        if i < x.len() && i < y.len() {
            assert(xs[i - 1] == x[i] && ys[i - 1] == y[i]);
        }
    }
}

/// Three-way comparison of byte strings under the lexicographic order:
/// negative means `x` precedes `y`, zero means equal, positive means `y`
/// precedes `x`.
pub fn bytes_cmp(x: &[u8], y: &[u8]) -> (c: i32)
    ensures
        (c < 0) == bytes_lt(x@, y@),
        (c == 0) == (x@ == y@),
        (c > 0) == bytes_lt(y@, x@),
{
    let mut i: usize = 0;
    loop
        invariant
            i <= x@.len(),
            i <= y@.len(),
            forall|j: int| 0 <= j < i ==> x@[j] == y@[j],
        decreases x@.len() + y@.len() - 2 * i,
    {
        proof {
            lemma_bytes_lt_trichotomy(x@, y@);
            lemma_bytes_lt_at(x@, y@, i as int);
        }
        if i == x.len() && i == y.len() {
            return 0;
        }
        if i == x.len() {
            return -1;
        }
        if i == y.len() {
            return 1;
        }
        let xb = *vstd::slice::slice_index_get(x, i);
        let yb = *vstd::slice::slice_index_get(y, i);
        if xb < yb {
            return -1;
        }
        if yb < xb {
            return 1;
        }
        i = i + 1;
    }
}

} // verus!
