//! Small verified helpers on byte vectors and slices.

use vstd::prelude::*;

verus! {

/// Append all bytes of a slice to a vector.
pub fn extend_from(out: &mut Vec<u8>, data: &[u8])
    ensures
        final(out)@ == old(out)@ + data@,
{
    let mut k: usize = 0;
    while k < data.len()
        invariant
            k <= data@.len(),
            out@ == old(out)@ + data@.take(k as int),
        decreases data@.len() - k,
    {
        out.push(data[k]);
        proof {
            assert(old(out)@ + data@.take(k as int) + seq![data@[k as int]] =~= old(out)@
                + data@.take(k + 1));
        }
        k += 1;
    }
    proof {
        assert(data@.take(data@.len() as int) =~= data@);
    }
}

/// Copy a slice into a fresh vector.
pub fn clone_bytes(data: &[u8]) -> (r: Vec<u8>)
    ensures
        r@ == data@,
{
    let mut out: Vec<u8> = Vec::new();
    extend_from(&mut out, data);
    proof {
        assert(Seq::<u8>::empty() + data@ =~= data@);
    }
    out
}

/// The bytes of a slice between two positions.
pub fn slice_range(data: &[u8], from: usize, to: usize) -> (r: Vec<u8>)
    requires
        from <= to <= data@.len(),
    ensures
        r@ == data@.subrange(from as int, to as int),
{
    let mut out: Vec<u8> = Vec::new();
    let mut k: usize = from;
    while k < to
        invariant
            from <= k <= to <= data@.len(),
            out@ == data@.subrange(from as int, k as int),
        decreases to - k,
    {
        out.push(data[k]);
        proof {
            assert(data@.subrange(from as int, k as int) + seq![data@[k as int]]
                =~= data@.subrange(from as int, k + 1));
        }
        k += 1;
    }
    out
}

/// The first `n` bytes of a slice.
pub fn slice_prefix(data: &[u8], n: usize) -> (r: Vec<u8>)
    requires
        n <= data@.len(),
    ensures
        r@ == data@.take(n as int),
{
    let r = slice_range(data, 0, n);
    proof {
        assert(data@.subrange(0, n as int) =~= data@.take(n as int));
    }
    r
}

/// Overwrite every byte of a vector with zero.
pub fn zero_bytes(data: &mut Vec<u8>)
    ensures
        final(data)@ == Seq::new(old(data)@.len(), |i: int| 0u8),
{
    let n = data.len();
    let mut k: usize = 0;
    while k < n
        invariant
            k <= n,
            data@.len() == n == old(data)@.len(),
            forall|i: int| 0 <= i < k ==> data@[i] == 0u8,
        decreases n - k,
    {
        data.set(k, 0u8);
        k += 1;
    }
    proof {
        assert(data@ =~= Seq::new(old(data)@.len(), |i: int| 0u8));
    }
}

/// Constant-length equality of two byte vectors, for use where timing is
/// irrelevant.
pub fn bytes_eq(a: &[u8], b: &[u8]) -> (r: bool)
    ensures
        r == (a@ == b@),
{
    if a.len() != b.len() {
        proof {
            assert(a@ != b@);
        }
        return false;
    }
    let mut k: usize = 0;
    while k < a.len()
        invariant
            k <= a@.len(),
            a@.len() == b@.len(),
            forall|i: int| 0 <= i < k ==> a@[i] == b@[i],
        decreases a@.len() - k,
    {
        if a[k] != b[k] {
            return false;
        }
        k += 1;
    }
    proof {
        assert(a@ =~= b@);
    }
    true
}

} // verus!
