//! Arithmetic and ordering on IEEE 754 binary32 bit patterns.
//!
//! A coordinate component is carried as the `u32` bit pattern of a
//! single-precision number. Ordering, minimum, maximum and the square root
//! are implemented here over the bit patterns themselves and verified;
//! addition, subtraction and multiplication are performed by an outside
//! soft-float library behind trusted wrappers.

use vstd::prelude::*;
use vstd::arithmetic::power2::lemma_pow2_strictly_increases;
use vstd::arithmetic::power2::pow2;
use rustc_apfloat::Float;

verus! {

/// Bit patterns whose exponent field is all ones and whose significand is
/// non-zero encode a NaN.
pub open spec fn is_nan_bits(b: u32) -> bool {
    (b & 0x7FFF_FFFF) > 0x7F80_0000
}

/// Injective key under which the bit patterns of non-NaN numbers are ordered
/// exactly as the numbers they encode (with the negative zero placed just
/// below the positive one).
pub open spec fn total_key(b: u32) -> int {
    if b >= 0x8000_0000 {
        0xFFFF_FFFF - b
    } else {
        b + 0x8000_0000
    }
}

/// The minimum of two binary32 numbers, ignoring NaN: if one operand is NaN
/// the other is returned; otherwise the smaller value, with negative zero
/// taken below positive zero.
pub open spec fn min_bits(a: u32, b: u32) -> u32 {
    if is_nan_bits(a) {
        b
    } else if is_nan_bits(b) {
        a
    } else if total_key(a) <= total_key(b) {
        a
    } else {
        b
    }
}

/// The maximum of two binary32 numbers, ignoring NaN; see `min_bits`.
pub open spec fn max_bits(a: u32, b: u32) -> u32 {
    if is_nan_bits(a) {
        b
    } else if is_nan_bits(b) {
        a
    } else if total_key(a) >= total_key(b) {
        a
    } else {
        b
    }
}

fn exec_is_nan(b: u32) -> (r: bool)
    ensures
        r == is_nan_bits(b),
{
    (b & 0x7FFF_FFFF) > 0x7F80_0000
}

fn exec_key(b: u32) -> (r: u64)
    ensures
        r == total_key(b),
{
    if b >= 0x8000_0000 {
        0xFFFF_FFFFu64 - (b as u64)
    } else {
        (b as u64) + 0x8000_0000
    }
}

/// Minimum of two binary32 bit patterns.
pub fn min32(a: u32, b: u32) -> (r: u32)
    ensures
        r == min_bits(a, b),
{
    if exec_is_nan(a) {
        b
    } else if exec_is_nan(b) {
        a
    } else if exec_key(a) <= exec_key(b) {
        a
    } else {
        b
    }
}

/// Maximum of two binary32 bit patterns.
pub fn max32(a: u32, b: u32) -> (r: u32)
    ensures
        r == max_bits(a, b),
{
    if exec_is_nan(a) {
        b
    } else if exec_is_nan(b) {
        a
    } else if exec_key(a) >= exec_key(b) {
        a
    } else {
        b
    }
}

/// The key order is injective, so equal keys mean equal bit patterns.
proof fn lemma_key_injective(a: u32, b: u32)
    ensures
        total_key(a) == total_key(b) ==> a == b,
{
}

/// Taking the minimum with the same operand twice changes nothing after the
/// first time.
pub proof fn lemma_min_absorb(x: u32, p: u32)
    ensures
        min_bits(min_bits(x, p), p) == min_bits(x, p),
{
}

/// As `lemma_min_absorb`, for the maximum.
pub proof fn lemma_max_absorb(x: u32, p: u32)
    ensures
        max_bits(max_bits(x, p), p) == max_bits(x, p),
{
}

/// For non-NaN operands the minimum does not depend on the operand order.
pub proof fn lemma_min_comm(a: u32, b: u32)
    requires
        !is_nan_bits(a),
        !is_nan_bits(b),
    ensures
        min_bits(a, b) == min_bits(b, a),
{
    lemma_key_injective(a, b);
}

/// As `lemma_min_comm`, for the maximum.
pub proof fn lemma_max_comm(a: u32, b: u32)
    requires
        !is_nan_bits(a),
        !is_nan_bits(b),
    ensures
        max_bits(a, b) == max_bits(b, a),
{
    lemma_key_injective(a, b);
}

/// For non-NaN operands the minimum is associative.
pub proof fn lemma_min_assoc(a: u32, b: u32, c: u32)
    requires
        !is_nan_bits(a),
        !is_nan_bits(b),
        !is_nan_bits(c),
    ensures
        min_bits(a, min_bits(b, c)) == min_bits(min_bits(a, b), c),
{
}

/// As `lemma_min_assoc`, for the maximum.
pub proof fn lemma_max_assoc(a: u32, b: u32, c: u32)
    requires
        !is_nan_bits(a),
        !is_nan_bits(b),
        !is_nan_bits(c),
    ensures
        max_bits(a, max_bits(b, c)) == max_bits(max_bits(a, b), c),
{
}

/// Bit pattern of the IEEE 754 binary32 sum (round to nearest, ties to even)
/// of the numbers the two given bit patterns encode.
pub uninterp spec fn add_bits(a: u32, b: u32) -> u32;

/// Bit pattern of the IEEE 754 binary32 difference of the encoded numbers.
pub uninterp spec fn sub_bits(a: u32, b: u32) -> u32;

/// Bit pattern of the IEEE 754 binary32 product of the encoded numbers.
pub uninterp spec fn mul_bits(a: u32, b: u32) -> u32;

/// Relies on `rustc_apfloat::ieee::Single` addition (IEEE 754 binary32,
/// round to nearest, ties to even), a pure function of the operands' bits.
#[verifier::external_body]
pub(crate) fn add32(a: u32, b: u32) -> (r: u32)
    ensures
        r == add_bits(a, b),
{
    let x = rustc_apfloat::ieee::Single::from_bits(a as u128);
    let y = rustc_apfloat::ieee::Single::from_bits(b as u128);
    rustc_apfloat::Float::to_bits((x + y).value) as u32
}

/// Relies on `rustc_apfloat::ieee::Single` subtraction (IEEE 754 binary32,
/// round to nearest, ties to even), a pure function of the operands' bits.
#[verifier::external_body]
pub(crate) fn sub32(a: u32, b: u32) -> (r: u32)
    ensures
        r == sub_bits(a, b),
{
    let x = rustc_apfloat::ieee::Single::from_bits(a as u128);
    let y = rustc_apfloat::ieee::Single::from_bits(b as u128);
    rustc_apfloat::Float::to_bits((x - y).value) as u32
}

/// Relies on `rustc_apfloat::ieee::Single` multiplication (IEEE 754 binary32,
/// round to nearest, ties to even), a pure function of the operands' bits.
#[verifier::external_body]
pub(crate) fn mul32(a: u32, b: u32) -> (r: u32)
    ensures
        r == mul_bits(a, b),
{
    let x = rustc_apfloat::ieee::Single::from_bits(a as u128);
    let y = rustc_apfloat::ieee::Single::from_bits(b as u128);
    rustc_apfloat::Float::to_bits((x * y).value) as u32
}

/// Doubles `n` until it reaches the window `[2^46, 2^47)`, counting the
/// shifts taken on top of `t`.
pub open spec fn norm_shift(n: u64, t: int) -> (u64, int)
    decreases 0x8000_0000_0000 - n,
{
    if n == 0 || n >= 0x4000_0000_0000 {
        (n, t)
    } else {
        norm_shift((n * 2) as u64, t + 1)
    }
}

/// `q` is the integer square root of `n`.
pub open spec fn is_isqrt(n: int, q: int) -> bool {
    0 <= q && q * q <= n && (q + 1) * (q + 1) > n
}

/// The integer square root of a non-negative number.
pub closed spec fn isqrt_spec(n: int) -> int {
    choose|q: int| #[trigger] is_isqrt(n, q)
}

/// Every non-negative number has an integer square root.
proof fn lemma_isqrt_exists(n: int)
    requires
        n >= 0,
    ensures
        exists|q: int| #[trigger] is_isqrt(n, q),
    decreases n,
{
    if n == 0 {
        assert(is_isqrt(0, 0));
    } else {
        lemma_isqrt_exists(n - 1);
        let q = choose|q: int| #[trigger] is_isqrt(n - 1, q);
        if (q + 1) * (q + 1) <= n {
            assert((q + 2) * (q + 2) > n) by (nonlinear_arith)
                requires
                    (q + 1) * (q + 1) > n - 1,
                    q >= 0,
            ;
            assert(is_isqrt(n, q + 1));
        } else {
            assert(is_isqrt(n, q));
        }
    }
}

/// There is only one integer square root.
proof fn lemma_isqrt_unique(n: int, a: int, b: int)
    requires
        is_isqrt(n, a),
        is_isqrt(n, b),
    ensures
        a == b,
{
    assert(a == b) by (nonlinear_arith)
        requires
            0 <= a && a * a <= n && (a + 1) * (a + 1) > n,
            0 <= b && b * b <= n && (b + 1) * (b + 1) > n,
    ;
}

/// A witness for `is_isqrt` is the value of `isqrt_spec`.
proof fn lemma_isqrt_is(n: int, q: int)
    requires
        n >= 0,
        is_isqrt(n, q),
    ensures
        isqrt_spec(n) == q,
{
    lemma_isqrt_exists(n);
    let w = choose|w: int| #[trigger] is_isqrt(n, w);
    lemma_isqrt_unique(n, w, q);
}

/// `norm_shift` lands in `[2^46, 2^47)` and only multiplies by powers of two.
proof fn lemma_norm_shift(n: u64, t: int)
    requires
        1 <= n < 0x8000_0000_0000,
    ensures
        ({
            let (nf, tf) = norm_shift(n, t);
            &&& 0x4000_0000_0000 <= nf < 0x8000_0000_0000
            &&& t <= tf
            &&& nf == n * pow2((tf - t) as nat)
            &&& tf <= t + 46
        }),
    decreases 0x8000_0000_0000 - n,
{
    let (nf, tf) = norm_shift(n, t);
    vstd::arithmetic::power2::lemma2_to64();
    vstd::arithmetic::power2::lemma2_to64_rest();
    if n >= 0x4000_0000_0000 {
        assert(nf == n && tf == t);
        assert(n * pow2(0) == n) by (nonlinear_arith)
            requires
                pow2(0) == 1,
        ;
    } else {
        lemma_norm_shift((n * 2) as u64, t + 1);
        let d = (tf - (t + 1)) as nat;
        assert(nf == (2 * n) * pow2(d));
        assert(pow2(d + 1) == 2 * pow2(d)) by {
            vstd::arithmetic::power2::lemma_pow2_unfold(d + 1);
        }
        assert((2 * n) * pow2(d) == n * (2 * pow2(d))) by (nonlinear_arith);
        assert(nf == n * pow2((tf - t) as nat));
        assert(tf <= t + 46) by {
            if tf > t + 46 {
                let dd = (tf - t) as nat;
                assert(dd >= 47);
                if dd > 47 {
                    lemma_pow2_strictly_increases(47, dd);
                }
                assert(pow2(47) == 0x8000_0000_0000);
                assert(pow2(dd) >= 0x8000_0000_0000);
                assert(n * pow2(dd) >= 1 * pow2(dd)) by (nonlinear_arith)
                    requires
                        n >= 1,
                        pow2(dd) >= 0,
                ;
            }
        }
    }
}

/// Integer square root of a number below `2^48`.
fn isqrt48(n: u64) -> (q: u64)
    requires
        n < 0x1_0000_0000_0000,
    ensures
        is_isqrt(n as int, q as int),
        q < 0x100_0000,
{
    let mut q: u64 = 0;
    let mut bit: u64 = 0x80_0000;
    let ghost mut kb: nat = 23;
    proof {
        vstd::arithmetic::power2::lemma2_to64();
    }
    while bit > 0
        invariant
            n < 0x1_0000_0000_0000,
            bit <= 0x80_0000,
            q + 2 * bit <= 0x100_0000,
            q * q <= n,
            bit == 0 || (kb <= 23 && bit == pow2(kb)),
            bit > 0 ==> (q + 2 * bit) * (q + 2 * bit) > n,
            bit == 0 ==> (q + 1) * (q + 1) > n,
        decreases bit,
    {
        let c = q + bit;
        assert(c * c <= 0x1_0000_0000_0000) by (nonlinear_arith)
            requires
                c <= 0x100_0000,
        ;
        if c * c <= n {
            q = c;
        }
        proof {
            vstd::arithmetic::power2::lemma2_to64();
            if kb > 0 {
                vstd::arithmetic::power2::lemma_pow2_unfold(kb);
                assert(bit % 2 == 0);
            } else {
                assert(bit == 1);
            }
            kb = if kb > 0 {
                (kb - 1) as nat
            } else {
                0
            };
        }
        bit = bit / 2;
    }
    assert((q + 1) * (q + 1) > n);
    assert(q < 0x100_0000) by (nonlinear_arith)
        requires
            q * q <= n,
            n < 0x1_0000_0000_0000,
            q >= 0,
    ;
    q
}

/// Square root of a positive, finite, non-zero binary32 bit pattern:
/// the significand is scaled into `[2^46, 2^48)` at an even scale, its
/// integer square root is taken, and the 24-bit result is rounded to
/// nearest (a tie can never occur, since the square root of an integer is
/// an integer or irrational). The result is always a normal number.
pub open spec fn sqrt_pos_bits(b: u32) -> u32 {
    let efield = b >> 23;
    let m0: u64 = if efield == 0 {
        b as u64
    } else {
        ((b & 0x007F_FFFF) + 0x0080_0000) as u64
    };
    let e: int = if efield == 0 {
        1
    } else {
        efield as int
    };
    let (n1, t1) = norm_shift(m0, 0);
    let pair = if (e + t1) % 2 == 1 {
        ((n1 * 2) as u64, t1 + 1)
    } else {
        (n1, t1)
    };
    let n2 = pair.0;
    let t2 = pair.1;
    let q = isqrt_spec(n2 as int);
    let rem = n2 - q * q;
    let mant0: int = if rem > q {
        q + 1
    } else {
        q
    };
    let er0: int = (150 + e - t2) / 2;
    let mant: int = if mant0 == 0x100_0000 {
        0x80_0000
    } else {
        mant0
    };
    let er: int = if mant0 == 0x100_0000 {
        er0 + 1
    } else {
        er0
    };
    (er * 0x80_0000 + (mant - 0x80_0000)) as u32
}

/// Square root of any binary32 bit pattern: NaN inputs come back quieted,
/// zeroes and positive infinity come back unchanged, negative numbers give
/// the canonical quiet NaN, and positive finite numbers are rounded to
/// nearest, ties to even.
pub open spec fn sqrt_bits(b: u32) -> u32 {
    if is_nan_bits(b) {
        b | 0x0040_0000
    } else if b & 0x7FFF_FFFF == 0 {
        b
    } else if b >= 0x8000_0000 {
        0xFFC0_0000u32
    } else if b == 0x7F80_0000 {
        b
    } else {
        sqrt_pos_bits(b)
    }
}

/// Square root of a binary32 bit pattern; see `sqrt_bits`.
pub fn sqrt32(b: u32) -> (r: u32)
    ensures
        r == sqrt_bits(b),
{
    let mag = b & 0x7FFF_FFFF;
    if mag > 0x7F80_0000 {
        return b | 0x0040_0000;
    }
    if mag == 0 {
        return b;
    }
    if b >= 0x8000_0000 {
        return 0xFFC0_0000;
    }
    if mag == 0x7F80_0000 {
        assert(b == 0x7F80_0000) by (bit_vector)
            requires
                b & 0x7FFF_FFFF == 0x7F80_0000,
                b < 0x8000_0000,
        ;
        return b;
    }
    assert(b == mag && b != 0x7F80_0000) by (bit_vector)
        requires
            mag == b & 0x7FFF_FFFF,
            b < 0x8000_0000,
            mag != 0x7F80_0000,
        ;
    let efield = b >> 23;
    assert(b & 0x007F_FFFF <= 0x007F_FFFF) by (bit_vector);
    assert(b >> 23 <= 254) by (bit_vector)
        requires
            b < 0x7F80_0000,
    ;
    assert(b >> 23 == 0 ==> b & 0x007F_FFFF == b) by (bit_vector);
    let m0: u64 = if efield == 0 {
        b as u64
    } else {
        ((b & 0x007F_FFFF) + 0x0080_0000) as u64
    };
    let e: u32 = if efield == 0 {
        1
    } else {
        efield
    };
    assert(1 <= m0 && m0 < 0x100_0000 && 1 <= e && e <= 254);
    let mut n: u64 = m0;
    let mut t: u32 = 0;
    while n < 0x4000_0000_0000
        invariant
            1 <= n,
            n < 0x8000_0000_0000,
            t <= 47,
            norm_shift(n, t as int) == norm_shift(m0, 0),
        decreases 0x8000_0000_0000 - n,
    {
        proof {
            lemma_norm_shift(n, t as int);
            lemma_norm_shift(m0, 0);
        }
        n = n * 2;
        t = t + 1;
    }
    proof {
        lemma_norm_shift(m0, 0);
    }
    let ghost n1 = norm_shift(m0, 0).0;
    let ghost t1 = norm_shift(m0, 0).1;
    assert(n == n1 && t as int == t1);
    if (e + t) % 2 == 1 {
        n = n * 2;
        t = t + 1;
    }
    assert(n < 0x1_0000_0000_0000);
    let q = isqrt48(n);
    assert(q * q < 0x1_0000_0000_0000) by (nonlinear_arith)
        requires
            q < 0x100_0000,
    ;
    let rem = n - q * q;
    let mant0: u64 = if rem > q {
        q + 1
    } else {
        q
    };
    let er0: u32 = (150 + e - t) / 2;
    let mant: u64 = if mant0 == 0x100_0000 {
        0x80_0000
    } else {
        mant0
    };
    let er: u32 = if mant0 == 0x100_0000 {
        er0 + 1
    } else {
        er0
    };
    proof {
        lemma_isqrt_is(n as int, q as int);
        assert(q >= 0x80_0000) by (nonlinear_arith)
            requires
                (q + 1) * (q + 1) > n,
                n >= 0x4000_0000_0000,
                q >= 0,
        ;
    }
    er * 0x80_0000 + (mant as u32 - 0x80_0000)
}

} // verus!
