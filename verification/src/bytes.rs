//! Byte-buffer helpers.

use vstd::prelude::*;

verus! {

/// `n` zero bytes.
pub open spec fn zeros(n: nat) -> Seq<u8> {
    Seq::new(n, |i: int| 0u8)
}

/// `base` with the bytes from `at` on replaced by `data`.
pub open spec fn splice(base: Seq<u8>, at: int, data: Seq<u8>) -> Seq<u8> {
    Seq::new(
        base.len(),
        |i: int|
            if at <= i < at + data.len() {
                data[i - at]
            } else {
                base[i]
            },
    )
}

/// A buffer of `n` zero bytes.
pub fn zeroed(n: usize) -> (r: Vec<u8>)
    ensures
        r@ == zeros(n as nat),
{
    let r: Vec<u8> = vec![0u8; n];
    assert(r@ =~= zeros(n as nat));
    r
}

/// Copies `src[from..from + n]` to `dst[at..at + n]`.
pub fn copy_range(dst: &mut [u8], at: usize, src: &[u8], from: usize, n: usize)
    requires
        at + n <= old(dst)@.len(),
        from + n <= src@.len(),
    ensures
        final(dst)@ == splice(old(dst)@, at as int, src@.subrange(from as int, from + n)),
{
    let mut i: usize = 0;
    while i < n
        invariant
            i <= n,
            at + n <= dst.len(),
            dst@.len() == old(dst)@.len(),
            from + n <= src.len(),
            dst@ == splice(old(dst)@, at as int, src@.subrange(from as int, from + i)),
        decreases n - i,
    {
        dst[at + i] = src[from + i];
        i += 1;
        assert(dst@ =~= splice(old(dst)@, at as int, src@.subrange(from as int, from + i)));
    }
    assert(n == 0 ==> dst@ =~= splice(old(dst)@, at as int, src@.subrange(from as int, from + n)));
}

/// Sets `dst[at..at + n]` to zero.
pub fn fill_zero(dst: &mut [u8], at: usize, n: usize)
    requires
        at + n <= old(dst)@.len(),
    ensures
        final(dst)@ == splice(old(dst)@, at as int, zeros(n as nat)),
{
    let mut i: usize = 0;
    while i < n
        invariant
            i <= n,
            at + n <= dst.len(),
            dst@.len() == old(dst)@.len(),
            dst@ == splice(old(dst)@, at as int, zeros(i as nat)),
        decreases n - i,
    {
        dst[at + i] = 0;
        i += 1;
        assert(dst@ =~= splice(old(dst)@, at as int, zeros(i as nat)));
    }
    assert(n == 0 ==> dst@ =~= splice(old(dst)@, at as int, zeros(n as nat)));
}

} // verus!
