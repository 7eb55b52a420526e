use vstd::prelude::*;
use vstd::arithmetic::div_mod::{
    lemma_div_multiples_vanish_fancy, lemma_fundamental_div_mod,
    lemma_mod_division_less_than_divisor,
};
use vstd::arithmetic::power::pow;
use vstd::arithmetic::power2::{
    is_pow2, is_pow2_equiv, lemma2_to64_rest, lemma_pow2_strictly_increases, pow2,
};
use vstd::bits::{lemma_u64_low_bits_mask_is_mod, low_bits_mask};

verus! {

/// The smallest multiple of `a` that is at least `x`.
pub open spec fn align_up(x: int, a: int) -> int
    recommends
        a > 0,
{
    ((x + a - 1) / a) * a
}

/// Round-up-to-boundary arithmetic over the unsigned widths the
/// loader works with. The alignment must be a power of two, and
/// `self + value - 1` must fit the width; both are the caller's
/// obligation, not a checked runtime behaviour.
pub trait Aligned: Sized {
    spec fn as_int(&self) -> int;

    spec fn type_max() -> int;

    fn aligned(&self, value: Self) -> (r: Self)
        requires
            is_pow2(value.as_int()),
            self.as_int() + value.as_int() - 1 <= Self::type_max(),
        ensures
            r.as_int() == align_up(self.as_int(), value.as_int()),
    ;
}

/// A power of two has an exponent below 64 once it fits in a `u64`.
proof fn lemma_pow2_exponent(a: u64) -> (k: nat)
    requires
        is_pow2(a as int),
    ensures
        a as nat == pow2(k),
        k < 64,
{
    broadcast use is_pow2_equiv;

    let k = choose|i: nat| pow(2, i) == a as int;
    assert(pow2(k) == a as nat);
    if k >= 64 {
        lemma2_to64_rest();
        if k > 64 {
            lemma_pow2_strictly_increases(64, k);
        }
        assert(false);
    }
    k
}

/// A power of two is positive.
pub proof fn lemma_is_pow2_pos(a: int)
    requires
        is_pow2(a),
    ensures
        a >= 1,
{
    reveal(is_pow2);
    if a <= 0 {
        assert(!is_pow2(a));
    }
}

/// Properties of `align_up` for any positive alignment.
pub proof fn lemma_align_up_pos(x: int, a: int)
    requires
        x >= 0,
        a > 0,
    ensures
        align_up(x, a) >= x,
        align_up(x, a) < x + a,
        align_up(x, a) % a == 0,
        align_up(align_up(x, a), a) == align_up(x, a),
{
    let s = x + a - 1;
    let q = s / a;
    lemma_fundamental_div_mod(s, a);
    lemma_mod_division_less_than_divisor(s, a);
    assert(q * a == s - s % a);
    assert(align_up(x, a) == q * a);
    assert(q * a % a == 0) by {
        lemma_fundamental_div_mod(q * a, a);
        lemma_div_multiples_vanish_fancy(q, 0, a);
    }
    assert(align_up(q * a, a) == q * a) by {
        lemma_div_multiples_vanish_fancy(q, a - 1, a);
        assert((a * q + (a - 1)) / a == q);
    }
}

/// The mask trick computes `align_up` for power-of-two alignments.
proof fn lemma_mask_rounds_up(x: u64, a: u64)
    requires
        is_pow2(a as int),
        x + a - 1 <= u64::MAX,
    ensures
        ((x + (a - 1) as u64) as u64) & !((a - 1) as u64) == align_up(x as int, a as int),
{
    lemma_is_pow2_pos(a as int);
    let k = lemma_pow2_exponent(a);
    let m: u64 = (a - 1) as u64;
    let s: u64 = (x + m) as u64;
    assert(m == low_bits_mask(k) as u64);
    lemma_u64_low_bits_mask_is_mod(s, k);
    assert(s & m == s % a);
    assert((s & !m) + (s & m) == s && s & m <= s) by (bit_vector);
    lemma_fundamental_div_mod(s as int, a as int);
    assert((s as int) - (s as int) % (a as int) == ((s as int) / (a as int)) * (a as int));
}

impl Aligned for u64 {
    open spec fn as_int(&self) -> int {
        *self as int
    }

    open spec fn type_max() -> int {
        u64::MAX as int
    }

    fn aligned(&self, value: Self) -> (r: Self) {
        proof {
            lemma_is_pow2_pos(value as int);
            lemma_mask_rounds_up(*self, value);
        }
        let mask: u64 = value - 1;
        (*self + mask) & !mask
    }
}

impl Aligned for u32 {
    open spec fn as_int(&self) -> int {
        *self as int
    }

    open spec fn type_max() -> int {
        u32::MAX as int
    }

    fn aligned(&self, value: Self) -> (r: Self) {
        let x: u64 = *self as u64;
        let a: u64 = value as u64;
        proof {
            lemma_is_pow2_pos(a as int);
            lemma_mask_rounds_up(x, a);
            lemma_align_up_pos(x as int, a as int);
        }
        let mask: u64 = a - 1;
        (((x + mask) & !mask)) as u32
    }
}

impl Aligned for u16 {
    open spec fn as_int(&self) -> int {
        *self as int
    }

    open spec fn type_max() -> int {
        u16::MAX as int
    }

    fn aligned(&self, value: Self) -> (r: Self) {
        let x: u64 = *self as u64;
        let a: u64 = value as u64;
        proof {
            lemma_is_pow2_pos(a as int);
            lemma_mask_rounds_up(x, a);
            lemma_align_up_pos(x as int, a as int);
        }
        let mask: u64 = a - 1;
        (((x + mask) & !mask)) as u16
    }
}

impl Aligned for u8 {
    open spec fn as_int(&self) -> int {
        *self as int
    }

    open spec fn type_max() -> int {
        u8::MAX as int
    }

    fn aligned(&self, value: Self) -> (r: Self) {
        let x: u64 = *self as u64;
        let a: u64 = value as u64;
        proof {
            lemma_is_pow2_pos(a as int);
            lemma_mask_rounds_up(x, a);
            lemma_align_up_pos(x as int, a as int);
        }
        let mask: u64 = a - 1;
        (((x + mask) & !mask)) as u8
    }
}

impl Aligned for usize {
    open spec fn as_int(&self) -> int {
        *self as int
    }

    open spec fn type_max() -> int {
        usize::MAX as int
    }

    fn aligned(&self, value: Self) -> (r: Self) {
        let x: u64 = *self as u64;
        let a: u64 = value as u64;
        proof {
            lemma_is_pow2_pos(a as int);
            lemma_mask_rounds_up(x, a);
            lemma_align_up_pos(x as int, a as int);
        }
        let mask: u64 = a - 1;
        (((x + mask) & !mask)) as usize
    }
}

/// The bit test `a != 0 && a & (a - 1) == 0` recognises exactly the
/// powers of two among the 32-bit values.
pub proof fn lemma_u32_pow2_bit_test(a: u32)
    ensures
        (a != 0 && a & (a - 1) as u32 == 0) <==> is_pow2(a as int),
    decreases a,
{
    reveal(is_pow2);
    if a != 0 && a & (a - 1) as u32 == 0 {
        if a != 1 {
            assert(a % 2 == 0 && a / 2 != 0 && (a / 2) & ((a / 2) - 1) as u32 == 0)
                by (bit_vector)
                requires
                    a != 0,
                    a != 1,
                    a & (a - 1) as u32 == 0,
            ;
            lemma_u32_pow2_bit_test(a / 2);
        }
    }
    if is_pow2(a as int) {
        lemma_is_pow2_pos(a as int);
        if a == 1 {
            assert(1u32 & 0u32 == 0) by (bit_vector);
        } else {
            lemma_u32_pow2_bit_test(a / 2);
            assert(a & (a - 1) as u32 == 0) by (bit_vector)
                requires
                    a % 2 == 0,
                    a / 2 != 0,
                    (a / 2) & ((a / 2) - 1) as u32 == 0,
            ;
        }
    }
}

/// The two block and padding granularities the loader relies on are
/// powers of two.
pub proof fn lemma_pow2_constants()
    ensures
        is_pow2(512),
        is_pow2(4096),
{
    reveal(is_pow2);
    assert(is_pow2(1));
    assert(is_pow2(2));
    assert(is_pow2(4));
    assert(is_pow2(8));
    assert(is_pow2(16));
    assert(is_pow2(32));
    assert(is_pow2(64));
    assert(is_pow2(128));
    assert(is_pow2(256));
    assert(is_pow2(512));
    assert(is_pow2(1024));
    assert(is_pow2(2048));
    assert(is_pow2(4096));
}

/// Rounding up to a power-of-two boundary never moves a value by a full
/// alignment, lands on a multiple of the alignment, and doing it twice
/// changes nothing more than doing it once.
pub proof fn lemma_align_up_properties(x: int, a: int)
    requires
        x >= 0,
        is_pow2(a),
    ensures
        align_up(x, a) >= x,
        align_up(x, a) < x + a,
        align_up(x, a) % a == 0,
        align_up(align_up(x, a), a) == align_up(x, a),
{
    lemma_is_pow2_pos(a);
    lemma_align_up_pos(x, a);
}

} // verus!
