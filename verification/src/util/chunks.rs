//! Rows of equal length and their concatenation.

use vstd::prelude::*;

verus! {

/// The rows that a vector of byte vectors holds.
pub open spec fn spec_rows(v: Seq<Vec<u8>>) -> Seq<Seq<u8>> {
    Seq::new(v.len(), |k: int| v[k]@)
}

/// Every row of `rows` is `n` long.
pub open spec fn uniform(rows: Seq<Seq<u8>>, n: nat) -> bool {
    forall|k: int| 0 <= k < rows.len() ==> (#[trigger] rows[k]).len() == n
}

/// The first `count` rows of length `n` that `s` splits into.
pub open spec fn spec_chunks(s: Seq<u8>, n: nat, count: nat) -> Seq<Seq<u8>> {
    Seq::new(count, |k: int| s.subrange(k * n, k * n + n))
}

/// Whether every row is `n` long.
pub fn rows_uniform(rows: &Vec<Vec<u8>>, n: usize) -> (r: bool)
    ensures
        r == uniform(spec_rows(rows@), n as nat),
{
    let count: usize = rows.len();
    let mut k: usize = 0;
    while k < count
        invariant
            k <= count,
            count == rows@.len(),
            forall|j: int| 0 <= j < k ==> (#[trigger] spec_rows(rows@)[j]).len() == n,
        decreases count - k,
    {
        if rows[k].len() != n {
            assert(spec_rows(rows@)[k as int].len() != n);
            return false;
        }
        k += 1;
    }
    true
}

/// Appends every row to `out`, in order.
pub fn append_rows(out: &mut Vec<u8>, rows: &Vec<Vec<u8>>)
    ensures
        final(out)@ == old(out)@ + spec_rows(rows@).flatten(),
{
    let ghost head = out@;
    let ghost all = spec_rows(rows@);
    let count: usize = rows.len();
    let mut k: usize = 0;
    proof {
        assert(all.subrange(0, 0).flatten() =~= Seq::<u8>::empty());
        assert(head + Seq::<u8>::empty() =~= head);
    }
    while k < count
        invariant
            k <= count,
            count == rows@.len(),
            all == spec_rows(rows@),
            out@ == head + all.subrange(0, k as int).flatten(),
        decreases count - k,
    {
        out.extend_from_slice(rows[k].as_slice());
        proof {
            let row = rows@[k as int]@;
            assert(all.subrange(0, k + 1) =~= all.subrange(0, k as int).push(row));
            all.subrange(0, k as int).lemma_flatten_push(row);
            assert(out@ =~= head + all.subrange(0, k + 1).flatten());
        }
        k += 1;
    }
    assert(all.subrange(0, count as int) =~= all);
}

/// Reads `count` rows of `n` bytes off the head of `data`.
pub fn read_rows(data: &[u8], n: usize, count: usize) -> (rows: Vec<Vec<u8>>)
    requires
        count * n <= data@.len(),
    ensures
        spec_rows(rows@) == spec_chunks(data@, n as nat, count as nat),
{
    let mut rows: Vec<Vec<u8>> = Vec::new();
    let total: usize = data.len();
    let mut k: usize = 0;
    while k < count
        invariant
            k <= count,
            count * n <= total,
            total == data@.len(),
            rows@.len() == k,
            forall|j: int| 0 <= j < k ==> (#[trigger] rows@[j])@ == data@.subrange(j * n, j * n + n),
        decreases count - k,
    {
        assert(k * n + n <= count * n && k * n >= 0) by (nonlinear_arith)
            requires
                0 <= k < count,
                n >= 0,
        ;
        let start: usize = k * n;
        let row = vstd::slice::slice_to_vec(vstd::slice::slice_subrange(data, start, start + n));
        rows.push(row);
        k += 1;
    }
    assert(spec_rows(rows@) =~= spec_chunks(data@, n as nat, count as nat));
    rows
}

/// Two byte strings of one length that differ at position `p` and
/// nowhere else.
pub open spec fn spec_differ_at(a: Seq<u8>, b: Seq<u8>, p: int) -> bool {
    &&& a.len() == b.len()
    &&& 0 <= p < a.len()
    &&& a[p] != b[p]
    &&& forall|k: int| 0 <= k < a.len() && k != p ==> a[k] == b[k]
}

/// Of two byte strings that differ at one position, cut at one place,
/// the parts that do not hold the position are the same, and the parts
/// that hold it differ there and nowhere else.
pub proof fn lemma_differ_at_split(
    head: Seq<u8>,
    tail: Seq<u8>,
    other_head: Seq<u8>,
    other_tail: Seq<u8>,
    p: int,
)
    requires
        head.len() == other_head.len(),
        spec_differ_at(head + tail, other_head + other_tail, p),
    ensures
        p < head.len() ==> spec_differ_at(head, other_head, p) && tail == other_tail,
        p >= head.len() ==> head == other_head && spec_differ_at(tail, other_tail, p - head.len()),
{
    let a = head + tail;
    let b = other_head + other_tail;
    assert forall|k: int| 0 <= k < head.len() && k != p implies head[k] == other_head[k] by {
        assert(a[k] == b[k]);
    }
    assert forall|k: int| 0 <= k < tail.len() && k + head.len() != p implies tail[k] == other_tail[k] by {
        assert(a[k + head.len()] == b[k + head.len()]);
    }
    if p < head.len() {
        assert(a[p] == head[p] && b[p] == other_head[p]);
        assert(tail =~= other_tail);
    } else {
        assert(a[p] == tail[p - head.len()] && b[p] == other_tail[p - head.len()]);
        assert(head =~= other_head);
    }
}

/// The concatenation of `count` rows of length `n` is `count * n` long.
pub proof fn lemma_flatten_len(rows: Seq<Seq<u8>>, n: nat)
    requires
        uniform(rows, n),
    ensures
        rows.flatten().len() == rows.len() * n,
    decreases rows.len(),
{
    if rows.len() == 0 {
        assert(rows.flatten() =~= Seq::<u8>::empty());
    } else {
        let head = rows.drop_last();
        assert(rows =~= head.push(rows.last()));
        head.lemma_flatten_push(rows.last());
        lemma_flatten_len(head, n);
        assert(head.len() * n + n == rows.len() * n) by (nonlinear_arith)
            requires
                head.len() + 1 == rows.len(),
        ;
    }
}

/// Splitting a byte string into rows and concatenating them gives back
/// the bytes that the rows cover.
pub proof fn lemma_flatten_chunks(s: Seq<u8>, n: nat, count: nat)
    requires
        count * n <= s.len(),
    ensures
        uniform(spec_chunks(s, n, count), n),
        spec_chunks(s, n, count).flatten() == s.subrange(0, (count * n) as int),
    decreases count,
{
    let rows = spec_chunks(s, n, count);
    assert forall|k: int| 0 <= k < rows.len() implies (#[trigger] rows[k]).len() == n by {
        assert(k * n + n <= count * n) by (nonlinear_arith)
            requires
                0 <= k < count,
        ;
    }
    if count == 0 {
        assert(count * n == 0) by (nonlinear_arith)
            requires
                count == 0,
        ;
        assert(rows.flatten() =~= Seq::<u8>::empty());
        assert(s.subrange(0, 0) =~= Seq::<u8>::empty());
    } else {
        let m = count - 1;
        assert(m * n + n == count * n) by (nonlinear_arith)
            requires
                m + 1 == count,
        ;
        let head = spec_chunks(s, n, m as nat);
        lemma_flatten_chunks(s, n, m as nat);
        assert(rows =~= head.push(s.subrange(m * n, m * n + n)));
        let tail = s.subrange(m * n, m * n + n);
        head.lemma_flatten_push(tail);
        assert(rows.flatten() == head.flatten() + tail);
        assert(head.flatten() == s.subrange(0, m * n));
        assert(s.subrange(0, m * n) + tail =~= s.subrange(0, (count * n) as int));
    }
}

/// Concatenating rows of equal length and splitting the result gives the
/// rows back.
pub proof fn lemma_chunks_flatten(rows: Seq<Seq<u8>>, n: nat)
    requires
        uniform(rows, n),
    ensures
        spec_chunks(rows.flatten(), n, rows.len()) == rows,
    decreases rows.len(),
{
    let flat = rows.flatten();
    lemma_flatten_len(rows, n);
    if rows.len() > 0 {
        let head = rows.drop_last();
        let m = head.len();
        assert(rows =~= head.push(rows.last()));
        head.lemma_flatten_push(rows.last());
        lemma_flatten_len(head, n);
        lemma_chunks_flatten(head, n);
        assert(m * n + n == rows.len() * n) by (nonlinear_arith)
            requires
                m + 1 == rows.len(),
        ;
        assert forall|k: int| 0 <= k < rows.len() implies flat.subrange(k * n, k * n + n)
            == #[trigger] rows[k] by {
            if k < m {
                assert(k * n + n <= m * n) by (nonlinear_arith)
                    requires
                        0 <= k < m,
                ;
                assert(flat.subrange(k * n, k * n + n) =~= head.flatten().subrange(
                    k * n,
                    k * n + n,
                ));
                assert(spec_chunks(head.flatten(), n, m)[k] == head[k]);
            } else {
                assert(flat.subrange(k * n, k * n + n) =~= rows.last());
            }
        }
    }
    assert(spec_chunks(flat, n, rows.len()) =~= rows);
}

} // verus!
