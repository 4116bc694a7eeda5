//! Power-of-two arithmetic shared by the ring index math.
use vstd::prelude::*;
use vstd::arithmetic::power2::{pow2, lemma_pow2_pos, lemma_pow2_unfold};
use vstd::bits::{lemma_u64_low_bits_mask_is_mod, lemma_u64_pow2_no_overflow};

verus! {

/// `a` is a power of two that fits a `u64`.
pub open spec fn is_pow2_u64(a: int) -> bool {
    exists|k: nat| k < 64 && pow2(k) == a
}

/// For a power-of-two `a`, masking with `a - 1` is reduction modulo `a`, and
/// masking with its complement rounds down to a multiple of `a`.
pub proof fn lemma_mask_is_mod(n: u64, a: u64)
    requires
        is_pow2_u64(a as int),
    ensures
        n & ((a - 1) as u64) == n % a,
        n & !((a - 1) as u64) == n - n % a,
{
    let k = choose|k: nat| k < 64 && pow2(k) == a;
    lemma_pow2_pos(k);
    lemma_u64_low_bits_mask_is_mod(n, k);
    let m = (a - 1) as u64;
    assert(m == a - 1);
    assert((n & !m) + (n & m) == n) by (bit_vector);
    assert(n & m == n % a);
}

/// A power of two of at least 64 is a multiple of 64.
pub proof fn lemma_pow2_multiple_of_64(a: int)
    requires
        is_pow2_u64(a),
        a >= 64,
    ensures
        a % 64 == 0,
{
    let k = choose|k: nat| k < 64 && pow2(k) == a;
    vstd::arithmetic::power2::lemma2_to64();
    if k < 6 {
        vstd::arithmetic::power2::lemma_pow2_strictly_increases(k, 6);
    } else {
        vstd::arithmetic::power2::lemma_pow2_adds(6, (k - 6) as nat);
        vstd::arithmetic::div_mod::lemma_mod_multiples_basic(pow2((k - 6) as nat) as int, 64);
    }
}

/// Decides whether `x` is a power of two.
pub fn is_power_of_two(x: u64) -> (r: bool)
    ensures
        r == is_pow2_u64(x as int),
{
    let mut p: u64 = 1;
    let mut k: u64 = 0;
    proof {
        vstd::arithmetic::power2::lemma2_to64();
    }
    while p < x && k < 63
        invariant
            k <= 63,
            p == pow2(k as nat),
            forall|j: nat| j < k ==> pow2(j) < x,
        decreases 63 - k,
    {
        proof {
            lemma_pow2_unfold((k + 1) as nat);
            lemma_u64_pow2_no_overflow((k + 1) as nat);
        }
        p = p * 2;
        k = k + 1;
    }
    proof {
        if is_pow2_u64(x as int) && p != x {
            let j = choose|j: nat| j < 64 && pow2(j) == x;
            if j < k {
            } else if j > k {
                vstd::arithmetic::power2::lemma_pow2_strictly_increases(k as nat, j);
                if k == 63 {
                    lemma_u64_pow2_no_overflow(j);
                }
            }
        }
    }
    p == x
}

/// Rounds `n` up to the nearest multiple of `align`, wrapping modulo 2^64.
pub open spec fn spec_align_up(n: u64, align: u64) -> u64 {
    (((n + align - 1) % 0x1_0000_0000_0000_0000int) as u64) & !((align - 1) as u64)
}

/// Round `n` up to the nearest multiple of `align` (a power of two).
pub fn align_up(n: u64, align: u64) -> (r: u64)
    requires
        align > 0,
    ensures
        r == spec_align_up(n, align),
        is_pow2_u64(align as int) && n + align - 1 <= u64::MAX ==> {
            &&& r % align == 0
            &&& n <= r < n + align
        },
{
    let s = n.wrapping_add(align - 1);
    let r = s & !(align - 1);
    proof {
        if is_pow2_u64(align as int) && n + align - 1 <= u64::MAX {
            lemma_mask_is_mod(s, align);
            assert(s == n + align - 1);
            assert(r == s - s % align);
            vstd::arithmetic::div_mod::lemma_fundamental_div_mod(s as int, align as int);
            vstd::arithmetic::div_mod::lemma_mod_multiples_basic((s / align) as int, align as int);
            vstd::arithmetic::mul::lemma_mul_is_commutative((s / align) as int, align as int);
        }
    }
    r
}

} // verus!
