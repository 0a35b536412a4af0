//! Logarithms and powers of two.
use vstd::arithmetic::power2::*;
use vstd::bits::*;
use vstd::prelude::*;

verus! {

/// Whether `2^r` is the least power of two that is not below `n`.
pub open spec fn is_log2_ceil(n: int, r: int) -> bool {
    &&& r >= 0
    &&& n <= pow2(r as nat)
    &&& r > 0 ==> pow2((r - 1) as nat) < n
}

/// The binary logarithm of `n`, rounded up; zero for `n == 0`.
pub open spec fn ceil_log2(n: nat) -> nat
    decreases n,
{
    if n <= 1 {
        0
    } else {
        1 + ceil_log2((n + 1) / 2)
    }
}

/// `plonky2_util::log2_strict` returns the exponent of a power of two, and
/// panics on every other number.
pub assume_specification[ plonky2_util::log2_strict ](n: usize) -> (r: usize)
    requires
        is_pow2(n as int),
    ensures
        pow2(r as nat) == n,
;

/// `plonky2_util::log2_ceil` returns the least exponent whose power of two is
/// not below `n`.
pub assume_specification[ plonky2_util::log2_ceil ](n: usize) -> (r: usize)
    ensures
        is_log2_ceil(n as int, r as int),
;

/// The rounded logarithm names the least power of two that is not below `n`.
pub proof fn lemma_ceil_log2(n: nat)
    ensures
        is_log2_ceil(n as int, ceil_log2(n) as int),
    decreases n,
{
    lemma2_to64();
    if n > 1 {
        let m = (n + 1) / 2;
        lemma_ceil_log2(m);
        lemma_pow2_unfold((1 + ceil_log2(m)) as nat);
        if ceil_log2(m) > 0 {
            lemma_pow2_unfold(ceil_log2(m));
        }
    }
}

/// There is only one such exponent.
pub proof fn lemma_log2_ceil_unique(n: nat, r: int)
    requires
        is_log2_ceil(n as int, r),
    ensures
        r == ceil_log2(n),
{
    lemma_ceil_log2(n);
    let s = ceil_log2(n);
    if r < s {
        lemma_pow2_monotonic(r as nat, (s - 1) as nat);
    } else if s < r {
        lemma_pow2_monotonic(s, (r - 1) as nat);
    }
}

/// A greater exponent gives no smaller power.
pub proof fn lemma_pow2_monotonic(a: nat, b: nat)
    requires
        a <= b,
    ensures
        pow2(a) <= pow2(b),
{
    if a < b {
        lemma_pow2_strictly_increases(a, b);
    }
}

/// The exponent of a power of two that fits in a `usize` is below its width.
pub proof fn lemma_exponent_fits(e: nat)
    ensures
        e < usize::BITS <==> pow2(e) <= usize::MAX,
{
    if e < usize::BITS {
        lemma_usize_pow2_no_overflow(e);
    } else {
        lemma_pow2_monotonic(usize::BITS as nat, e);
        lemma2_to64();
        lemma2_to64_rest();
    }
}

/// `2^exponent`.
pub fn power_of_2(exponent: usize) -> (r: usize)
    requires
        exponent < usize::BITS,
    ensures
        r == pow2(exponent as nat),
{
    proof {
        lemma_usize_pow2_no_overflow(exponent as nat);
        lemma_usize_shl_is_mul(1, exponent);
    }
    1usize << exponent
}

/// The binary logarithm of a power of two.
pub fn log2_strict(n: usize) -> (r: usize)
    requires
        is_pow2(n as int),
    ensures
        pow2(r as nat) == n,
        r < usize::BITS,
{
    let r = plonky2_util::log2_strict(n);
    proof {
        lemma_exponent_fits(r as nat);
    }
    r
}

/// The binary logarithm of `n`, rounded up.
pub fn log2_ceil(n: usize) -> (r: usize)
    ensures
        r == ceil_log2(n as nat),
        n <= pow2(r as nat),
        r > 0 ==> pow2((r - 1) as nat) < n,
{
    let r = plonky2_util::log2_ceil(n);
    proof {
        lemma_ceil_log2(n as nat);
        lemma_log2_ceil_unique(n as nat, r as int);
    }
    r
}

} // verus!
