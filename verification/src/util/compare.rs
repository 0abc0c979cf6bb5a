//! Comparing byte strings without stopping at the first difference.

use vstd::prelude::*;

verus! {

/// Whether `a` and `b` hold the same bytes. Strings of equal length are
/// compared in full, whatever they hold.
pub fn bytes_equal(a: &[u8], b: &[u8]) -> (r: bool)
    ensures
        r == (a@ == b@),
{
    if a.len() != b.len() {
        return false;
    }
    let n: usize = a.len();
    let mut diff: u8 = 0;
    let mut k: usize = 0;
    assert(a@.subrange(0, 0) =~= b@.subrange(0, 0));
    while k < n
        invariant
            k <= n,
            n == a@.len(),
            n == b@.len(),
            (diff == 0) == (a@.subrange(0, k as int) == b@.subrange(0, k as int)),
        decreases n - k,
    {
        let x: u8 = a[k];
        let y: u8 = b[k];
        let ghost before = diff;
        diff = diff | (x ^ y);
        proof {
            assert(((before | (x ^ y)) == 0) == (before == 0 && x == y)) by (bit_vector);
            let pa = a@.subrange(0, k as int);
            let pb = b@.subrange(0, k as int);
            assert(a@.subrange(0, k + 1) =~= pa.push(x));
            assert(b@.subrange(0, k + 1) =~= pb.push(y));
            if pa.push(x) == pb.push(y) {
                assert(pa.push(x).drop_last() =~= pa);
                assert(pb.push(y).drop_last() =~= pb);
                assert(pa.push(x).last() == x);
                assert(pb.push(y).last() == y);
            }
        }
        k += 1;
    }
    assert(a@.subrange(0, n as int) =~= a@);
    assert(b@.subrange(0, n as int) =~= b@);
    diff == 0
}

} // verus!
