//! The rank statistic of a digest's remainder bits.

use vstd::prelude::*;

verus! {

/// Number of significant bits of `w`: the length of its binary form.
pub open spec fn bit_width(w: nat) -> nat
    decreases w,
{
    if w == 0 {
        0
    } else {
        1 + bit_width(w / 2)
    }
}

/// The rank of `w` in a window of `max_width` bits: the 1-based position of
/// its first set bit counted from the window's most significant end.
pub open spec fn rank_in_window(w: nat, max_width: int) -> int {
    max_width - bit_width(w) + 1
}

/// The leading zeros of a 64-bit word are what its significant bits leave.
pub proof fn lemma_leading_zeros_width(w: u64)
    ensures
        vstd::std_specs::bits::u64_leading_zeros(w) == 64 - bit_width(w as nat),
    decreases w,
{
    reveal(vstd::std_specs::bits::u64_leading_zeros);
    if w != 0 {
        lemma_leading_zeros_width(w / 2);
    }
}

/// A value fits in `n` bits exactly when its width is at most `n`.
pub proof fn lemma_width_bound(w: nat, n: nat)
    ensures
        bit_width(w) <= n <==> w < vstd::arithmetic::power2::pow2(n),
    decreases n,
{
    vstd::arithmetic::power2::lemma_pow2_pos(n);
    if n == 0 {
        vstd::arithmetic::power2::lemma2_to64();
        if w != 0 {
            assert(bit_width(w) >= 1);
        }
    } else {
        vstd::arithmetic::power2::lemma_pow2_unfold(n);
        lemma_width_bound(w / 2, (n - 1) as nat);
    }
}

/// Rank of `w` within a window of `max_width` bits.
///
/// Fails with [`InternalInvariantError`] when `w` has more significant bits
/// than the window holds, so that the rank would not be positive.
pub fn rho(w: u64, max_width: isize) -> (r: Result<u64, InternalInvariantError>)
    ensures
        match r {
            Ok(v) => rank_in_window(w as nat, max_width as int) >= 1 && v == rank_in_window(
                w as nat,
                max_width as int,
            ),
            Err(e) => rank_in_window(w as nat, max_width as int) <= 0 && e == (
            InternalInvariantError { remainder: w, max_width }),
        },
{
    let zeros: u32 = w.leading_zeros();
    proof {
        lemma_leading_zeros_width(w);
    }
    let rank: i128 = max_width as i128 - (64 - zeros as i128) + 1;
    if rank <= 0 {
        Err(InternalInvariantError { remainder: w, max_width })
    } else {
        Ok(rank as u64)
    }
}

/// A remainder wider than the window it was taken from: the digest split
/// went wrong and no rank can be recorded.
#[derive(Debug, Clone, Copy, PartialEq, Eq, Structural)]
pub struct InternalInvariantError {
    pub remainder: u64,
    pub max_width: isize,
}

} // verus!
