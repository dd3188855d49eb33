//! Fixed-point numbers with sixteen fractional bits, the decoding of IEEE-754
//! single-precision bit patterns into them, and integer helpers.

use vstd::arithmetic::div_mod::{
    lemma_fundamental_div_mod, lemma_fundamental_div_mod_converse, lemma_mul_mod_noop_left,
    lemma_mul_mod_noop_right, lemma_small_mod,
};
use vstd::arithmetic::power2::{
    lemma2_to64, lemma_pow2_pos, lemma_pow2_strictly_increases, lemma_pow2_unfold, pow2,
};
use vstd::bits::{lemma_u64_shl_is_mul, lemma_u64_shr_is_div};
use vstd::prelude::*;

verus! {

/// The fixed-point representation of 1.
pub const ONE: i64 = 65536;

/// Every coordinate `c` that is drawn satisfies `-COORD_LIMIT < c < COORD_LIMIT`.
pub const COORD_LIMIT: i64 = 0x8000_0000;

/// Whether `v` is a fixed-point coordinate that can be drawn.
pub open spec fn in_coord_range(v: int) -> bool {
    -COORD_LIMIT < v < COORD_LIMIT
}

/// Sign bit of a single-precision bit pattern.
pub open spec fn bits_negative(bits: u32) -> bool {
    bits >= 0x8000_0000u32
}

/// Biased exponent field of a single-precision bit pattern.
pub open spec fn bits_exponent(bits: u32) -> int {
    (bits as int / 0x80_0000) % 256
}

/// Fraction field of a single-precision bit pattern.
pub open spec fn bits_fraction(bits: u32) -> int {
    bits as int % 0x80_0000
}

/// The integer significand: the fraction, with the hidden bit for normal numbers.
pub open spec fn bits_significand(bits: u32) -> int {
    if bits_exponent(bits) == 0 {
        bits_fraction(bits)
    } else {
        bits_fraction(bits) + 0x80_0000
    }
}

/// The power of two that scales the significand: the encoded number has the
/// magnitude `bits_significand(bits) * 2^(bits_scale(bits) - 150)`.
pub open spec fn bits_scale(bits: u32) -> int {
    if bits_exponent(bits) == 0 {
        1
    } else {
        bits_exponent(bits)
    }
}

/// The pattern encodes a finite number of magnitude below 32768.
pub open spec fn bits_representable(bits: u32) -> bool {
    bits_exponent(bits) != 255 && bits_scale(bits) <= 141
}

/// The magnitude of the encoded number times 65536, rounded toward zero.
pub open spec fn bits_magnitude(bits: u32) -> int {
    let scale = bits_scale(bits);
    if scale >= 134 {
        bits_significand(bits) * pow2((scale - 134) as nat)
    } else {
        bits_significand(bits) / (pow2((134 - scale) as nat) as int)
    }
}

/// The fixed-point number nearest to the encoded number in the direction of zero.
pub open spec fn fixed_of_bits(bits: u32) -> int {
    if bits_negative(bits) {
        -bits_magnitude(bits)
    } else {
        bits_magnitude(bits)
    }
}

proof fn lemma_fields(bits: u32)
    ensures
        ((bits >> 23u32) & 0xffu32) as int == bits_exponent(bits),
        (bits & 0x7f_ffffu32) as int == bits_fraction(bits),
        0 <= bits_exponent(bits) < 256,
        0 <= bits_fraction(bits) < 0x80_0000,
{
    assert(((bits >> 23u32) & 0xffu32) == (bits / 0x80_0000u32) % 256u32) by (bit_vector);
    assert((bits & 0x7f_ffffu32) == bits % 0x80_0000u32) by (bit_vector);
}

/// Decodes a single-precision bit pattern into fixed point, rounding toward
/// zero. Patterns that encode an infinity, a NaN or a magnitude of 32768 or
/// more have no fixed-point value.
pub fn fixed_from_bits(bits: u32) -> (r: Option<i64>)
    ensures
        r.is_some() == bits_representable(bits),
        r matches Some(v) ==> v == fixed_of_bits(bits) && in_coord_range(v as int),
        r matches Some(v) ==> (bits_negative(bits) ==> v <= 0) && (!bits_negative(bits) ==> v >= 0),
{
    let exponent: u32 = (bits >> 23u32) & 0xffu32;
    let fraction: u32 = bits & 0x7f_ffffu32;
    proof {
        lemma_fields(bits);
    }
    if exponent == 255 {
        return None;
    }
    let scale: u32 = if exponent == 0 { 1 } else { exponent };
    if scale > 141 {
        return None;
    }
    let significand: u64 = if exponent == 0 { fraction as u64 } else { fraction as u64 + 0x80_0000u64 };
    let magnitude: u64 = if scale >= 134 {
        let shift: u64 = (scale - 134) as u64;
        proof {
            lemma2_to64();
            let p: int = pow2(shift as nat) as int;
            assert(significand * p < 0x8000_0000) by (nonlinear_arith)
                requires
                    0 <= significand < 0x100_0000,
                    0 <= p <= 0x80,
            ;
            lemma_u64_shl_is_mul(significand, shift);
        }
        significand << shift
    } else {
        let shift: u64 = (134 - scale) as u64;
        if shift >= 24 {
            proof {
                lemma2_to64();
                if shift > 24 {
                    lemma_pow2_strictly_increases(24, shift as nat);
                }
                let d: int = pow2(shift as nat) as int;
                lemma_fundamental_div_mod_converse(significand as int, d, 0, significand as int);
            }
            0
        } else {
            proof {
                lemma_u64_shr_is_div(significand, shift);
                lemma_pow2_pos(shift as nat);
                let d: int = pow2(shift as nat) as int;
                lemma_fundamental_div_mod(significand as int, d);
                assert(significand as int / d <= significand) by (nonlinear_arith)
                    requires
                        significand as int == d * (significand as int / d) + (significand as int % d),
                        0 <= significand as int % d,
                        d >= 1,
                        significand >= 0,
                ;
            }
            significand >> shift
        }
    };
    assert(magnitude == bits_magnitude(bits));
    assert(magnitude < 0x8000_0000);
    if bits >= 0x8000_0000u32 {
        Some(-(magnitude as i64))
    } else {
        Some(magnitude as i64)
    }
}

/// `r` is the integer part of the square root of `x`.
pub open spec fn is_floor_sqrt(x: int, r: int) -> bool {
    r >= 0 && r * r <= x < (r + 1) * (r + 1)
}

/// The integer part of the square root of `x` (0 for a negative `x`).
pub open spec fn floor_sqrt(x: int) -> int {
    if x < 0 {
        0
    } else {
        choose|r: int| is_floor_sqrt(x, r)
    }
}

/// Two integer square roots of the same number are equal.
pub proof fn lemma_floor_sqrt_unique(x: int, r: int, s: int)
    requires
        is_floor_sqrt(x, r),
        is_floor_sqrt(x, s),
    ensures
        r == s,
{
    if r < s {
        assert((r + 1) * (r + 1) <= s * s) by (nonlinear_arith)
            requires
                0 <= r,
                r + 1 <= s,
        ;
    } else if s < r {
        assert((s + 1) * (s + 1) <= r * r) by (nonlinear_arith)
            requires
                0 <= s,
                s + 1 <= r,
        ;
    }
}

/// The integer part of the square root.
pub fn integer_sqrt(x: u128) -> (r: u128)
    ensures
        is_floor_sqrt(x as int, r as int),
        r == floor_sqrt(x as int),
        r < 0x1_0000_0000_0000_0000,
{
    let mut lo: u128 = 0;
    let mut hi: u128 = 0x1_0000_0000_0000_0000;
    assert(hi * hi > x) by (nonlinear_arith)
        requires
            hi == 0x1_0000_0000_0000_0000u128,
            x <= 0xffff_ffff_ffff_ffff_ffff_ffff_ffff_ffffu128,
    ;
    assert(lo * lo <= x) by (nonlinear_arith)
        requires
            lo == 0,
            x >= 0,
    ;
    while hi - lo > 1
        invariant
            lo < hi <= 0x1_0000_0000_0000_0000,
            lo * lo <= x < hi * hi,
        decreases hi - lo,
    {
        let mid: u128 = lo + (hi - lo) / 2;
        assert(mid * mid <= 0xffff_ffff_ffff_ffff_ffff_ffff_ffff_ffff) by (nonlinear_arith)
            requires
                0 <= mid <= 0xffff_ffff_ffff_ffff,
        ;
        if mid * mid <= x {
            lo = mid;
        } else {
            hi = mid;
        }
    }
    proof {
        assert(is_floor_sqrt(x as int, lo as int));
        lemma_floor_sqrt_unique(x as int, lo as int, floor_sqrt(x as int));
    }
    lo
}

/// Quotient of `n` by a positive `d`, rounded toward negative infinity.
pub fn floor_div(n: i128, d: i128) -> (q: i128)
    requires
        d > 0,
        n > i128::MIN,
    ensures
        q == n as int / d as int,
{
    if n >= 0 {
        let q: u128 = (n as u128) / (d as u128);
        q as i128
    } else {
        let m: u128 = (-n) as u128;
        let dd: u128 = d as u128;
        let q: u128 = m / dd;
        let r: u128 = m % dd;
        proof {
            lemma_fundamental_div_mod(m as int, dd as int);
            assert(q * dd <= m) by (nonlinear_arith)
                requires
                    m == dd * q + r,
                    r >= 0,
            ;
            assert(q <= m) by (nonlinear_arith)
                requires
                    q * dd <= m,
                    dd >= 1,
                    q >= 0,
            ;
            if r == 0 {
                assert(n as int == d as int * (-(q as int)) + 0) by (nonlinear_arith)
                    requires
                        n as int == -(m as int),
                        m as int == dd as int * q as int + 0,
                        d as int == dd as int,
                ;
                lemma_fundamental_div_mod_converse(n as int, d as int, -(q as int), 0);
            } else {
                assert(n as int == d as int * (-(q as int) - 1) + (d as int - r as int))
                    by (nonlinear_arith)
                    requires
                        n as int == -(m as int),
                        m as int == dd as int * q as int + r as int,
                        d as int == dd as int,
                ;
                lemma_fundamental_div_mod_converse(
                    n as int,
                    d as int,
                    -(q as int) - 1,
                    d as int - r as int,
                );
            }
        }
        if r == 0 {
            -(q as i128)
        } else {
            -(q as i128) - 1
        }
    }
}

/// A product is bounded by the product of the bounds of its factors.
pub proof fn lemma_product_bound(a: int, b: int, la: int, lb: int)
    requires
        -la <= a <= la,
        -lb <= b <= lb,
    ensures
        -(la * lb) <= a * b <= la * lb,
{
    assert((la - a) * (lb - b) >= 0) by (nonlinear_arith)
        requires
            la - a >= 0,
            lb - b >= 0,
    ;
    assert((la + a) * (lb + b) >= 0) by (nonlinear_arith)
        requires
            la + a >= 0,
            lb + b >= 0,
    ;
    assert((la - a) * (lb + b) >= 0) by (nonlinear_arith)
        requires
            la - a >= 0,
            lb + b >= 0,
    ;
    assert((la + a) * (lb - b) >= 0) by (nonlinear_arith)
        requires
            la + a >= 0,
            lb - b >= 0,
    ;
    assert((la - a) * (lb - b) == la * lb - la * b - a * lb + a * b) by (nonlinear_arith);
    assert((la + a) * (lb + b) == la * lb + la * b + a * lb + a * b) by (nonlinear_arith);
    assert((la - a) * (lb + b) == la * lb + la * b - a * lb - a * b) by (nonlinear_arith);
    assert((la + a) * (lb - b) == la * lb - la * b + a * lb - a * b) by (nonlinear_arith);
}

/// What has a fixed-point value lies within the range of coordinates.
pub proof fn lemma_representable_in_range(bits: u32)
    requires
        bits_representable(bits),
    ensures
        in_coord_range(fixed_of_bits(bits)),
{
    lemma_fields(bits);
    lemma2_to64();
    let scale = bits_scale(bits);
    let sig = bits_significand(bits);
    if scale >= 134 {
        let p: int = pow2((scale - 134) as nat) as int;
        assert(0 <= sig * p < 0x8000_0000) by (nonlinear_arith)
            requires
                0 <= sig < 0x100_0000,
                0 <= p <= 0x80,
        ;
    } else {
        let d: int = pow2((134 - scale) as nat) as int;
        lemma_pow2_pos((134 - scale) as nat);
        lemma_fundamental_div_mod(sig, d);
        assert(0 <= sig / d <= sig) by (nonlinear_arith)
            requires
                sig == d * (sig / d) + sig % d,
                0 <= sig % d < d,
                d >= 1,
                sig >= 0,
        ;
    }
}

/// The pattern encodes a finite number: neither an infinity nor a NaN.
pub open spec fn bits_finite(bits: u32) -> bool {
    bits_exponent(bits) != 255
}

/// The magnitude of the encoded number times `2^fraction_bits`, rounded
/// toward zero. It has no bound: the largest finite number has the exponent 127.
pub open spec fn bits_scaled(bits: u32, fraction_bits: nat) -> int {
    let scale = bits_scale(bits);
    if scale + fraction_bits >= 150 {
        bits_significand(bits) * pow2((scale + fraction_bits - 150) as nat)
    } else {
        bits_significand(bits) / (pow2((150 - fraction_bits - scale) as nat) as int)
    }
}

/// The scaled magnitude is not negative.
pub proof fn lemma_bits_scaled_nonnegative(bits: u32, fraction_bits: nat)
    ensures
        bits_scaled(bits, fraction_bits) >= 0,
{
    lemma_fields(bits);
    let scale = bits_scale(bits);
    let sig = bits_significand(bits);
    if scale + fraction_bits >= 150 {
        let p: int = pow2((scale + fraction_bits - 150) as nat) as int;
        assert(sig * p >= 0) by (nonlinear_arith)
            requires
                sig >= 0,
                p >= 0,
        ;
    } else {
        let d: int = pow2((150 - fraction_bits - scale) as nat) as int;
        lemma_pow2_pos((150 - fraction_bits - scale) as nat);
        lemma_fundamental_div_mod(sig, d);
        assert(sig / d >= 0) by (nonlinear_arith)
            requires
                sig == d * (sig / d) + sig % d,
                0 <= sig % d < d,
                sig >= 0,
                d > 0,
        ;
    }
}

/// Whether the pattern encodes a finite number.
pub fn is_finite(bits: u32) -> (finite: bool)
    ensures
        finite == bits_finite(bits),
{
    proof {
        lemma_fields(bits);
    }
    (bits >> 23u32) & 0xffu32 != 255
}

/// Whether the sign bit of the pattern is set.
pub fn is_negative(bits: u32) -> (negative: bool)
    ensures
        negative == bits_negative(bits),
{
    bits >= 0x8000_0000u32
}

/// `x * 2^k` modulo `m`, by doubling `k` times.
pub fn mul_pow2_mod(x: u128, k: u32, m: u128) -> (r: u128)
    requires
        0 < m < 0x8000_0000_0000_0000_0000_0000_0000_0000,
        x < m,
    ensures
        r == (x * pow2(k as nat)) % (m as int),
        r < m,
{
    let mut r: u128 = x;
    let mut j: u32 = 0;
    proof {
        lemma2_to64();
        lemma_small_mod(x as nat, m as nat);
        assert(x * pow2(0) == x) by (nonlinear_arith)
            requires
                pow2(0) == 1,
        ;
    }
    while j < k
        invariant
            j <= k,
            0 < m < 0x8000_0000_0000_0000_0000_0000_0000_0000,
            r < m,
            r == (x * pow2(j as nat)) % (m as int),
        decreases k - j,
    {
        proof {
            let y: int = x * pow2(j as nat);
            lemma_pow2_unfold((j + 1) as nat);
            lemma_mul_mod_noop_right(2, y, m as int);
            assert(x * pow2((j + 1) as nat) == 2 * y) by (nonlinear_arith)
                requires
                    y == x * pow2(j as nat),
                    pow2((j + 1) as nat) == 2 * pow2(j as nat),
            ;
        }
        r = (2 * r) % m;
        j += 1;
    }
    r
}

/// The magnitude of a finite number times `2^fraction_bits` times `factor`,
/// modulo `m`: see [`bits_scaled`].
pub fn scaled_mod(bits: u32, fraction_bits: u32, factor: u64, m: u128) -> (r: u128)
    requires
        fraction_bits <= 100,
        0 < m < 0x8000_0000_0000_0000_0000_0000_0000_0000,
    ensures
        r == (bits_scaled(bits, fraction_bits as nat) * factor) % (m as int),
        r < m,
{
    let exponent: u32 = (bits >> 23u32) & 0xffu32;
    let fraction: u32 = bits & 0x7f_ffffu32;
    proof {
        lemma_fields(bits);
    }
    let scale: u32 = if exponent == 0 { 1 } else { exponent };
    let significand: u64 = if exponent == 0 { fraction as u64 } else { fraction as u64 + 0x80_0000u64 };
    proof {
        crate::fixed::lemma_product_bound(
            significand as int,
            factor as int,
            0x100_0000,
            0xffff_ffff_ffff_ffff,
        );
    }
    if scale + fraction_bits >= 150 {
        let k: u32 = scale + fraction_bits - 150;
        let start: u128 = ((significand as u128) * (factor as u128)) % m;
        let r: u128 = mul_pow2_mod(start, k, m);
        proof {
            let p: int = pow2(k as nat) as int;
            let sf: int = significand * factor;
            lemma_mul_mod_noop_left(sf, p, m as int);
            assert((significand * p) * factor == sf * p) by (nonlinear_arith)
                requires
                    sf == significand * factor,
            ;
        }
        r
    } else {
        let shift: u32 = 150 - fraction_bits - scale;
        let reduced: u64 = if shift >= 24 {
            proof {
                lemma2_to64();
                if shift > 24 {
                    lemma_pow2_strictly_increases(24, shift as nat);
                }
                let d: int = pow2(shift as nat) as int;
                lemma_fundamental_div_mod_converse(significand as int, d, 0, significand as int);
            }
            0
        } else {
            proof {
                lemma_u64_shr_is_div(significand, shift as u64);
                lemma_pow2_pos(shift as nat);
                let d: int = pow2(shift as nat) as int;
                lemma_fundamental_div_mod(significand as int, d);
                assert(significand as int / d <= significand) by (nonlinear_arith)
                    requires
                        significand as int == d * (significand as int / d) + (significand as int % d),
                        0 <= significand as int % d,
                        d >= 1,
                        significand >= 0,
                ;
            }
            significand >> (shift as u64)
        };
        proof {
            crate::fixed::lemma_product_bound(
                reduced as int,
                factor as int,
                0x100_0000,
                0xffff_ffff_ffff_ffff,
            );
        }
        ((reduced as u128) * (factor as u128)) % m
    }
}

} // verus!
