//! Arithmetic of the machine on 8-, 16- and 32-bit register views.
use vstd::prelude::*;

verus! {

/// Mask of a register width in bytes (zero for other widths).
pub open spec fn mask_of(width: u8) -> u32 {
    if width == 1 {
        0xFF
    } else if width == 2 {
        0xFFFF
    } else if width == 4 {
        0xFFFF_FFFF
    } else {
        0
    }
}

/// Sign bit of a register width in bytes (zero for other widths).
pub open spec fn sign_of(width: u8) -> u32 {
    if width == 1 {
        0x80
    } else if width == 2 {
        0x8000
    } else if width == 4 {
        0x8000_0000
    } else {
        0
    }
}

/// One more than the largest value of a width.
pub open spec fn modulus(width: u8) -> int {
    mask_of(width) + 1
}

/// Whether a width is one of the register widths.
pub open spec fn valid_width(width: u8) -> bool {
    width == 1 || width == 2 || width == 4
}

/// The value `v` taken modulo the width.
pub open spec fn wrap(v: int, width: u8) -> u32 {
    (v % modulus(width)) as u32
}

/// The two's-complement value of the low `width` bytes of `v`.
pub open spec fn signed_value(v: u32, width: u8) -> int {
    let m = (v as int) % modulus(width);
    if m >= sign_of(width) {
        m - modulus(width)
    } else {
        m
    }
}

/// Whether a signed result fits the width.
pub open spec fn fits_signed(v: int, width: u8) -> bool {
    -(sign_of(width) as int) <= v < sign_of(width)
}

/// Mask of a register width.
pub fn mask_for_width(width: u8) -> (m: u32)
    ensures
        m == mask_of(width),
{
    if width == 1 {
        0xFF
    } else if width == 2 {
        0xFFFF
    } else if width == 4 {
        0xFFFF_FFFF
    } else {
        0
    }
}

/// Sign bit of a register width.
pub fn sign_bit(width: u8) -> (s: u32)
    ensures
        s == sign_of(width),
{
    if width == 1 {
        0x80
    } else if width == 2 {
        0x8000
    } else if width == 4 {
        0x8000_0000
    } else {
        0
    }
}

/// Masking by a width is reduction modulo the width.
pub proof fn lemma_mask_mod(v: u32, width: u8)
    requires
        valid_width(width),
    ensures
        v & mask_of(width) == (v as int) % modulus(width),
        v & mask_of(width) <= mask_of(width),
{
    if width == 1 {
        assert(v & 0xFF == v % 256) by (bit_vector);
        assert(modulus(width) == 256);
    } else if width == 2 {
        assert(v & 0xFFFF == v % 65536) by (bit_vector);
        assert(modulus(width) == 65536);
    } else {
        assert(v & 0xFFFF_FFFF == v) by (bit_vector);
        assert(modulus(width) == 0x1_0000_0000);
        assert((v as int) % 0x1_0000_0000 == v as int);
    }
}

/// Reduction of a value below twice the modulus, or above minus the modulus.
pub proof fn lemma_mod_near(x: int, m: int)
    requires
        m > 0,
        -m <= x < 2 * m,
    ensures
        x % m == if x >= m {
            x - m
        } else if x < 0 {
            x + m
        } else {
            x
        },
{
    if x >= m {
        vstd::arithmetic::div_mod::lemma_mod_multiples_vanish(1, x - m, m);
        vstd::arithmetic::div_mod::lemma_small_mod((x - m) as nat, m as nat);
    } else if x < 0 {
        vstd::arithmetic::div_mod::lemma_mod_multiples_vanish(-1, x + m, m);
        vstd::arithmetic::div_mod::lemma_small_mod((x + m) as nat, m as nat);
    } else {
        vstd::arithmetic::div_mod::lemma_small_mod(x as nat, m as nat);
    }
}

/// Sum of two values of a width: the wrapped sum and whether it carried out of the width.
pub fn add_values(lhs: u32, rhs: u32, width: u8) -> (r: (u32, bool))
    requires
        valid_width(width),
        lhs <= mask_of(width),
        rhs <= mask_of(width),
    ensures
        r.0 == wrap(lhs + rhs, width),
        r.1 == (lhs + rhs > mask_of(width)),
{
    let mask = mask_for_width(width);
    proof {
        lemma_mod_near(lhs + rhs, modulus(width));
    }
    let sum: u64 = lhs as u64 + rhs as u64;
    let carry = sum > mask as u64;
    let res = if carry {
        (sum - mask as u64 - 1) as u32
    } else {
        sum as u32
    };
    (res, carry)
}

/// Difference of two values of a width: the wrapped difference and whether it borrowed.
pub fn sub_values(lhs: u32, rhs: u32, width: u8) -> (r: (u32, bool))
    requires
        valid_width(width),
        lhs <= mask_of(width),
        rhs <= mask_of(width),
    ensures
        r.0 == wrap(lhs - rhs, width),
        r.1 == (rhs > lhs),
{
    let mask = mask_for_width(width);
    proof {
        lemma_mod_near(lhs - rhs, modulus(width));
    }
    if rhs > lhs {
        let res = ((mask as u64 + 1) - (rhs - lhs) as u64) as u32;
        (res, true)
    } else {
        (lhs - rhs, false)
    }
}

/// Unsigned product of two values of a width: the wrapped product, and whether it did not
/// fit (reported as both carry and overflow).
pub fn mul_values(lhs: u32, rhs: u32, width: u8) -> (r: (u32, bool, bool))
    requires
        valid_width(width),
        lhs <= mask_of(width),
        rhs <= mask_of(width),
    ensures
        r.0 == wrap(lhs * rhs, width),
        r.1 == (lhs * rhs > mask_of(width)),
        r.2 == r.1,
{
    let mask = mask_for_width(width);
    assert(lhs as int * rhs as int <= 0xFFFF_FFFF * 0xFFFF_FFFF) by (nonlinear_arith)
        requires
            lhs <= 0xFFFF_FFFF,
            rhs <= 0xFFFF_FFFF,
    ;
    let product: u64 = lhs as u64 * rhs as u64;
    let m = mask as u64 + 1;
    let res = (product % m) as u32;
    let carry = product > mask as u64;
    (res, carry, carry)
}

/// Two's-complement value of the low `width` bytes.
pub fn sign_extend_to_i64(value: u32, width: u8) -> (r: i64)
    requires
        valid_width(width),
    ensures
        r == signed_value(value, width),
{
    let mask = mask_for_width(width);
    let sign = sign_bit(width);
    let m = value & mask;
    proof {
        lemma_mask_mod(value, width);
    }
    if m >= sign {
        m as i64 - (mask as i64 + 1)
    } else {
        m as i64
    }
}

/// Whether the signed sum of two values of a width leaves the width's signed range.
pub fn check_add_overflow(lhs: u32, rhs: u32, width: u8) -> (r: bool)
    requires
        valid_width(width),
    ensures
        r == !fits_signed(signed_value(lhs, width) + signed_value(rhs, width), width),
{
    let a = sign_extend_to_i64(lhs, width);
    let b = sign_extend_to_i64(rhs, width);
    let s = a + b;
    let half = sign_bit(width) as i64;
    s < -half || s >= half
}

/// Whether the signed difference of two values of a width leaves the width's signed range.
pub fn check_sub_overflow(lhs: u32, rhs: u32, width: u8) -> (r: bool)
    requires
        valid_width(width),
    ensures
        r == !fits_signed(signed_value(lhs, width) - signed_value(rhs, width), width),
{
    let a = sign_extend_to_i64(lhs, width);
    let b = sign_extend_to_i64(rhs, width);
    let s = a - b;
    let half = sign_bit(width) as i64;
    s < -half || s >= half
}

/// A signed value reduced modulo 2^32.
fn to_u32_wrapping(v: i64) -> (r: u32)
    requires
        -0x1_0000_0000_0000_0000 < v < 0x1_0000_0000_0000_0000,
    ensures
        r == v % 0x1_0000_0000,
{
    let m: i64 = 0x1_0000_0000;
    let q = if v >= 0 {
        v % m
    } else {
        let n = (-(v + 1)) % m;
        m - 1 - n
    };
    proof {
        if v < 0 {
            let vi = v as int;
            let mi = m as int;
            assert((mi - 1 - ((-(vi + 1)) % mi)) == vi % mi) by (nonlinear_arith)
                requires
                    mi == 0x1_0000_0000,
                    vi < 0,
            ;
        }
    }
    q as u32
}

/// Signed product of two values of a width: the wrapped product, and whether it left the
/// signed range (reported as both carry and overflow).
pub fn smul_values(lhs: u32, rhs: u32, width: u8) -> (r: (u32, bool, bool))
    requires
        valid_width(width),
    ensures
        r.0 == wrap(signed_value(lhs, width) * signed_value(rhs, width), width),
        r.1 == !fits_signed(signed_value(lhs, width) * signed_value(rhs, width), width),
        r.2 == r.1,
{
    let a = sign_extend_to_i64(lhs, width);
    let b = sign_extend_to_i64(rhs, width);
    proof {
        assert(-0x8000_0000 <= a <= 0x7FFF_FFFF);
        assert(-0x8000_0000 <= b <= 0x7FFF_FFFF);
        assert(-0x4000_0000_0000_0000 <= a * b <= 0x4000_0000_0000_0000) by (nonlinear_arith)
            requires
                -0x8000_0000 <= a <= 0x7FFF_FFFF,
                -0x8000_0000 <= b <= 0x7FFF_FFFF,
        ;
    }
    let p = a * b;
    let half = sign_bit(width) as i64;
    let overflow = p < -half || p >= half;
    let w = to_u32_wrapping(p);
    let mask = mask_for_width(width);
    let res = w & mask;
    proof {
        lemma_mask_mod(w, width);
        let pi = p as int;
        let md = modulus(width);
        assert(((pi % 0x1_0000_0000) % md) == pi % md) by (nonlinear_arith)
            requires
                md == 0x100 || md == 0x1_0000 || md == 0x1_0000_0000,
        ;
    }
    (res, overflow, overflow)
}

/// Quotient of a division rounded toward zero.
pub open spec fn trunc_div(a: int, b: int) -> int {
    let q = abs(a) / abs(b);
    if (a < 0) != (b < 0) {
        -q
    } else {
        q
    }
}

/// Remainder of a division rounded toward zero (it has the sign of `a`).
pub open spec fn trunc_rem(a: int, b: int) -> int {
    a - b * trunc_div(a, b)
}

/// Absolute value.
pub open spec fn abs(a: int) -> int {
    if a < 0 {
        -a
    } else {
        a
    }
}

/// Signed quotient and remainder of two values of a width, rounded toward zero, both
/// reduced modulo 2^32 (the quotient of the most negative value by -1 wraps to itself).
pub fn sdiv_values(lhs: u32, rhs: u32, width: u8) -> (r: (u32, u32))
    requires
        valid_width(width),
        signed_value(rhs, width) != 0,
    ensures
        r.0 == trunc_div(signed_value(lhs, width), signed_value(rhs, width)) % 0x1_0000_0000,
        r.1 == trunc_rem(signed_value(lhs, width), signed_value(rhs, width)) % 0x1_0000_0000,
{
    let a = sign_extend_to_i64(lhs, width);
    let b = sign_extend_to_i64(rhs, width);
    let ua: i64 = if a < 0 {
        -a
    } else {
        a
    };
    let ub: i64 = if b < 0 {
        -b
    } else {
        b
    };
    let q0 = ua / ub;
    let q: i64 = if (a < 0) != (b < 0) {
        -q0
    } else {
        q0
    };
    proof {
        assert(q0 <= ua) by (nonlinear_arith)
            requires
                ua >= 0,
                ub >= 1,
                q0 == ua / ub,
        ;
        assert(-0x8000_0000 <= q <= 0x8000_0000);
        assert(-0x4000_0000_0000_0000 <= b * q <= 0x4000_0000_0000_0000) by (nonlinear_arith)
            requires
                -0x8000_0000 <= b <= 0x8000_0000,
                -0x8000_0000 <= q <= 0x8000_0000,
        ;
    }
    let rem = a - b * q;
    (to_u32_wrapping(q), to_u32_wrapping(rem))
}

/// Every width mask is below 2^32 and the modulus is positive.
pub proof fn lemma_width_facts(width: u8)
    requires
        valid_width(width),
    ensures
        modulus(width) == (mask_of(width) as int) + 1,
        modulus(width) > 0,
        sign_of(width) * 2 == modulus(width),
{
}

} // verus!
