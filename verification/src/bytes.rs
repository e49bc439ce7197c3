//! Byte-buffer helpers.
use vstd::prelude::*;

verus! {

/// A copy of `b[from..to]`.
pub fn range(b: &[u8], from: usize, to: usize) -> (r: Vec<u8>)
    requires
        from <= to <= b@.len(),
    ensures
        r@ == b@.subrange(from as int, to as int),
{
    let mut r: Vec<u8> = Vec::new();
    let mut k: usize = from;
    while k < to
        invariant
            from <= k <= to,
            to <= b@.len(),
            r@ == b@.subrange(from as int, k as int),
        decreases to - k,
    {
        r.push(b[k]);
        assert(b@.subrange(from as int, k as int + 1) =~= b@.subrange(from as int, k as int).push(
            b@[k as int],
        ));
        k += 1;
    }
    r
}

/// A copy of `b[..n]`.
pub fn prefix(b: &[u8], n: usize) -> (r: Vec<u8>)
    requires
        n <= b@.len(),
    ensures
        r@ == b@.take(n as int),
{
    let r = range(b, 0, n);
    assert(b@.subrange(0, n as int) =~= b@.take(n as int));
    r
}

} // verus!
