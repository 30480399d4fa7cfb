//! Numeric conversions. Floats are handled as IEEE-754 bit patterns: the truncating conversions
//! decode sign, exponent and fraction with integer arithmetic, so the float→int instructions need
//! no floating-point unit.
use vstd::prelude::*;
use vstd::arithmetic::power2::{pow2, lemma_pow2_pos, lemma2_to64, lemma2_to64_rest, lemma_pow2_adds, lemma_pow2_strictly_increases};
use vstd::bits::{lemma_u64_shl_is_mul, lemma_u64_shr_is_div, lemma_u64_pow2_no_overflow};
use crate::trap::Trap;
use crate::exec::int32::{signed32, bits32};
use crate::exec::int64::{signed64, bits64};

verus! {

/// `i32.wrap_i64`: the low 32 bits.
pub fn i32_wrap_i64(x: u64) -> (r: u32)
    ensures
        r == bits32(x as int),
{
    let r = x as u32;
    assert(r as int == (x as int) % 0x1_0000_0000) by (bit_vector) requires r == x as u32;
    r
}

/// `i64.extend_i32_s`: sign extension.
pub fn i64_extend_i32_s(x: u32) -> (r: u64)
    ensures
        signed64(r) == signed32(x),
{
    let r = (x as i32) as i64 as u64;
    assert(signed64(r) == signed32(x)) by (bit_vector) requires r == (x as i32) as i64 as u64;
    r
}

/// `i64.extend_i32_u`: zero extension.
pub fn i64_extend_i32_u(x: u32) -> (r: u64)
    ensures
        r == x,
{
    x as u64
}

// --- IEEE-754 bit-pattern model ---

/// The floor of the magnitude of a finite float given its biased exponent `e`, fraction `f`,
/// fraction width `p` and `bias + p`: the significand (with the hidden bit unless subnormal)
/// scaled by `2^(max(e,1) - (bias + p))`, rounded toward zero.
pub open spec fn trunc_magnitude(e: nat, f: nat, p: nat, bias_p: nat) -> nat {
    let m = if e == 0 { f } else { f + pow2(p) };
    let ee: nat = if e == 0 { 1 } else { e };
    if ee >= bias_p { m * pow2((ee - bias_p) as nat) } else { m / pow2((bias_p - ee) as nat) }
}

pub open spec fn f32_exponent(x: u32) -> nat {
    ((x / 0x80_0000) % 256) as nat
}

pub open spec fn f32_fraction(x: u32) -> nat {
    (x % 0x80_0000) as nat
}

pub open spec fn f32_is_nan(x: u32) -> bool {
    f32_exponent(x) == 255 && f32_fraction(x) != 0
}

pub open spec fn f32_is_infinite(x: u32) -> bool {
    f32_exponent(x) == 255 && f32_fraction(x) == 0
}

/// The value of a finite `f32` pattern truncated toward zero (`None` for an infinity).
pub open spec fn f32_trunc(x: u32) -> Option<int> {
    if f32_is_infinite(x) {
        None
    } else {
        let mag = trunc_magnitude(f32_exponent(x), f32_fraction(x), 23, 150);
        Some(if x >= 0x8000_0000 { -mag } else { mag as int })
    }
}

pub open spec fn f64_exponent(x: u64) -> nat {
    ((x / 0x10_0000_0000_0000) % 2048) as nat
}

pub open spec fn f64_fraction(x: u64) -> nat {
    (x % 0x10_0000_0000_0000) as nat
}

pub open spec fn f64_is_nan(x: u64) -> bool {
    f64_exponent(x) == 2047 && f64_fraction(x) != 0
}

pub open spec fn f64_is_infinite(x: u64) -> bool {
    f64_exponent(x) == 2047 && f64_fraction(x) == 0
}

/// The value of a finite `f64` pattern truncated toward zero (`None` for an infinity).
pub open spec fn f64_trunc(x: u64) -> Option<int> {
    if f64_is_infinite(x) {
        None
    } else {
        let mag = trunc_magnitude(f64_exponent(x), f64_fraction(x), 52, 1075);
        Some(if x >= 0x8000_0000_0000_0000 { -mag } else { mag as int })
    }
}

/// The truncated magnitude of a finite float when it is below 2^64 (`None` means at least 2^64).
fn magnitude_below_2_64(e: u64, f: u64, p: u64, bias_p: u64) -> (r: Option<u64>)
    requires
        p == 23 || p == 52,
        bias_p == p + 127 || bias_p == p + 1023,
        f < pow2(p as nat),
        e < 2048,
    ensures
        match r {
            Some(m) => m == trunc_magnitude(e as nat, f as nat, p as nat, bias_p as nat),
            None => trunc_magnitude(e as nat, f as nat, p as nat, bias_p as nat) >= 0x1_0000_0000_0000_0000,
        },
{
    proof {
        lemma2_to64();
        lemma2_to64_rest();
        lemma_u64_pow2_no_overflow(p as nat);
        lemma_pow2_pos(p as nat);
    }
    let hidden: u64 = 1u64 << p;
    proof { lemma_u64_shl_is_mul(1, p); }
    let m: u64 = if e == 0 { f } else { f + hidden };
    let ee: u64 = if e == 0 { 1 } else { e };
    let ghost pm = pow2(p as nat);
    let ghost pp1 = pow2((p + 1) as nat);
    proof {
        lemma_pow2_adds(p as nat, 1);
        assert(pp1 == pm * 2);
        assert(m < pp1);
    }
    if ee >= bias_p {
        let s = ee - bias_p;
        if s + p >= 64 {
            proof {
                // the hidden bit is set, so the magnitude is at least 2^(p+s) >= 2^64
                assert(e != 0);
                assert(m >= pm);
                lemma_pow2_pos(s as nat);
                if s + p > 64 {
                    lemma_pow2_strictly_increases(64, (s + p) as nat);
                }
                lemma_pow2_adds(p as nat, s as nat);
                assert(m * pow2(s as nat) >= pm * pow2(s as nat)) by (nonlinear_arith)
                    requires m >= pm, pow2(s as nat) > 0;
            }
            None
        } else {
            proof {
                lemma_pow2_adds((p + 1) as nat, s as nat);
                if p + 1 + s < 64 {
                    lemma_pow2_strictly_increases((p + 1 + s) as nat, 64);
                }
                lemma_pow2_pos(s as nat);
                assert(m * pow2(s as nat) < pp1 * pow2(s as nat)) by (nonlinear_arith)
                    requires m < pp1, pow2(s as nat) > 0;
                assert(pow2(64) == 0x1_0000_0000_0000_0000);
                assert(pp1 * pow2(s as nat) <= 0x1_0000_0000_0000_0000);
                lemma_u64_shl_is_mul(m, s);
            }
            Some(m << s)
        }
    } else {
        let d = bias_p - ee;
        if d > p {
            proof {
                assert(m < pow2(d as nat)) by {
                    if d > p + 1 { lemma_pow2_strictly_increases((p + 1) as nat, d as nat); }
                }
                lemma_pow2_pos(d as nat);
                assert(m as nat / pow2(d as nat) == 0) by (nonlinear_arith)
                    requires m < pow2(d as nat), m >= 0;
            }
            Some(0)
        } else {
            proof { lemma_u64_shr_is_div(m, d); }
            Some(m >> d)
        }
    }
}

/// Splits a finite-or-infinite `f32` pattern into its sign and truncated magnitude below 2^64.
fn f32_truncate(x: u32) -> (r: (bool, Option<u64>))
    requires
        !f32_is_nan(x),
    ensures
        r.0 == (x >= 0x8000_0000),
        match r.1 {
            Some(m) => f32_trunc(x) == Some(if r.0 { -(m as int) } else { m as int }),
            None => match f32_trunc(x) {
                None => true,
                Some(t) => t >= 0x1_0000_0000_0000_0000 || t <= -0x1_0000_0000_0000_0000,
            },
        },
{
    let e = (x / 0x80_0000) % 256;
    let f = x % 0x80_0000;
    let neg = x >= 0x8000_0000;
    if e == 255 {
        return (neg, None);
    }
    proof { lemma2_to64(); }
    let m = magnitude_below_2_64(e as u64, f as u64, 23, 150);
    (neg, m)
}

/// Splits a finite-or-infinite `f64` pattern into its sign and truncated magnitude below 2^64.
fn f64_truncate(x: u64) -> (r: (bool, Option<u64>))
    requires
        !f64_is_nan(x),
    ensures
        r.0 == (x >= 0x8000_0000_0000_0000),
        match r.1 {
            Some(m) => f64_trunc(x) == Some(if r.0 { -(m as int) } else { m as int }),
            None => match f64_trunc(x) {
                None => true,
                Some(t) => t >= 0x1_0000_0000_0000_0000 || t <= -0x1_0000_0000_0000_0000,
            },
        },
{
    let e = (x / 0x10_0000_0000_0000) % 2048;
    let f = x % 0x10_0000_0000_0000;
    let neg = x >= 0x8000_0000_0000_0000;
    if e == 2047 {
        return (neg, None);
    }
    proof { lemma2_to64_rest(); }
    let m = magnitude_below_2_64(e, f, 52, 1075);
    (neg, m)
}

/// Whether a truncated value lies in `[lo, hi)` (an infinity never does).
pub open spec fn in_range(t: Option<int>, lo: int, hi: int) -> bool {
    match t {
        Some(v) => lo <= v < hi,
        None => false,
    }
}

/// The outcome of a trapping float→int truncation: NaN is an invalid conversion, a value outside
/// the target range overflows, anything else converts to its truncated value.
pub open spec fn trapping_trunc(nan: bool, t: Option<int>, lo: int, hi: int) -> Result<int, Trap> {
    if nan {
        Err(Trap::BadConversionToInteger)
    } else if !in_range(t, lo, hi) {
        Err(Trap::IntegerOverflow)
    } else {
        Ok(t->0)
    }
}

/// The 32-bit pattern of a conversion outcome.
pub open spec fn result_bits32(r: Result<int, Trap>) -> Result<u32, Trap> {
    match r {
        Ok(v) => Ok(bits32(v)),
        Err(t) => Err(t),
    }
}

/// The 64-bit pattern of a conversion outcome.
pub open spec fn result_bits64(r: Result<int, Trap>) -> Result<u64, Trap> {
    match r {
        Ok(v) => Ok(bits64(v)),
        Err(t) => Err(t),
    }
}

/// The outcome of a saturating float→int truncation: NaN is 0, values clamp to `[lo, hi - 1]`,
/// infinities to the end of their sign.
pub open spec fn saturating_trunc(nan: bool, negative: bool, t: Option<int>, lo: int, hi: int) -> int {
    if nan {
        0
    } else {
        match t {
            None => if negative { lo } else { hi - 1 },
            Some(v) => if v < lo { lo } else if v >= hi { hi - 1 } else { v },
        }
    }
}

/// The 32-bit outcome of a trapping truncation from its sign and magnitude: in range when the
/// magnitude is at most `neg_max` (negative) or `pos_max` (non-negative).
fn checked32(neg: bool, mag: Option<u64>, neg_max: u64, pos_max: u64) -> (r: Result<u32, Trap>)
    requires
        neg_max <= 0x8000_0000,
        pos_max <= 0xffff_ffff,
    ensures
        match mag {
            None => r == Err::<u32, Trap>(Trap::IntegerOverflow),
            Some(m) => if (if neg { m <= neg_max } else { m <= pos_max }) {
                r == Ok::<u32, Trap>(bits32(if neg { -(m as int) } else { m as int }))
            } else {
                r == Err::<u32, Trap>(Trap::IntegerOverflow)
            },
        },
{
    match mag {
        None => Err(Trap::IntegerOverflow),
        Some(m) => {
            if neg {
                if m <= neg_max {
                    let v = (0u64.wrapping_sub(m)) as u32;
                    assert(v as int == bits32(-(m as int))) by (bit_vector)
                        requires m <= 0x8000_0000, v == (0u64.wrapping_sub(m)) as u32;
                    Ok(v)
                } else {
                    Err(Trap::IntegerOverflow)
                }
            } else if m <= pos_max {
                assert(bits32(m as int) == m);
                Ok(m as u32)
            } else {
                Err(Trap::IntegerOverflow)
            }
        },
    }
}

/// The 64-bit outcome of a trapping truncation from its sign and magnitude.
fn checked64(neg: bool, mag: Option<u64>, neg_max: u64, pos_max: u64) -> (r: Result<u64, Trap>)
    requires
        neg_max <= 0x8000_0000_0000_0000,
    ensures
        match mag {
            None => r == Err::<u64, Trap>(Trap::IntegerOverflow),
            Some(m) => if (if neg { m <= neg_max } else { m <= pos_max }) {
                r == Ok::<u64, Trap>(bits64(if neg { -(m as int) } else { m as int }))
            } else {
                r == Err::<u64, Trap>(Trap::IntegerOverflow)
            },
        },
{
    match mag {
        None => Err(Trap::IntegerOverflow),
        Some(m) => {
            if neg {
                if m <= neg_max {
                    let v = 0u64.wrapping_sub(m);
                    assert(v as int == bits64(-(m as int))) by (bit_vector)
                        requires m <= 0x8000_0000_0000_0000, v == 0u64.wrapping_sub(m);
                    Ok(v)
                } else {
                    Err(Trap::IntegerOverflow)
                }
            } else if m <= pos_max {
                assert(bits64(m as int) == m);
                Ok(m)
            } else {
                Err(Trap::IntegerOverflow)
            }
        },
    }
}

/// The 32-bit pattern of a saturating truncation from its sign and magnitude.
fn saturated32(neg: bool, mag: Option<u64>, neg_max: u64, pos_max: u64) -> (r: u32)
    requires
        neg_max <= 0x8000_0000,
        pos_max <= 0xffff_ffff,
    ensures
        r == bits32(match mag {
            None => if neg { -(neg_max as int) } else { pos_max as int },
            Some(m) => if neg {
                if m > neg_max { -(neg_max as int) } else { -(m as int) }
            } else {
                if m > pos_max { pos_max as int } else { m as int }
            },
        }),
{
    let m: u64 = match mag {
        None => if neg { neg_max } else { pos_max },
        Some(m) => if neg {
            if m > neg_max { neg_max } else { m }
        } else {
            if m > pos_max { pos_max } else { m }
        },
    };
    if neg {
        let v = (0u64.wrapping_sub(m)) as u32;
        assert(v as int == bits32(-(m as int))) by (bit_vector)
            requires m <= 0x8000_0000, v == (0u64.wrapping_sub(m)) as u32;
        v
    } else {
        assert(bits32(m as int) == m);
        m as u32
    }
}

/// The 64-bit pattern of a saturating truncation from its sign and magnitude.
fn saturated64(neg: bool, mag: Option<u64>, neg_max: u64, pos_max: u64) -> (r: u64)
    requires
        neg_max <= 0x8000_0000_0000_0000,
    ensures
        r == bits64(match mag {
            None => if neg { -(neg_max as int) } else { pos_max as int },
            Some(m) => if neg {
                if m > neg_max { -(neg_max as int) } else { -(m as int) }
            } else {
                if m > pos_max { pos_max as int } else { m as int }
            },
        }),
{
    let m: u64 = match mag {
        None => if neg { neg_max } else { pos_max },
        Some(m) => if neg {
            if m > neg_max { neg_max } else { m }
        } else {
            if m > pos_max { pos_max } else { m }
        },
    };
    if neg {
        let v = 0u64.wrapping_sub(m);
        assert(v as int == bits64(-(m as int))) by (bit_vector)
            requires m <= 0x8000_0000_0000_0000, v == 0u64.wrapping_sub(m);
        v
    } else {
        assert(bits64(m as int) == m);
        m
    }
}

/// Whether an `f32` pattern is a NaN, computed.
fn f32_nan(x: u32) -> (b: bool)
    ensures
        b == f32_is_nan(x),
{
    (x / 0x80_0000) % 256 == 255 && x % 0x80_0000 != 0
}

/// Whether an `f64` pattern is a NaN, computed.
fn f64_nan(x: u64) -> (b: bool)
    ensures
        b == f64_is_nan(x),
{
    (x / 0x10_0000_0000_0000) % 2048 == 2047 && x % 0x10_0000_0000_0000 != 0
}

/// `i32.trunc_f32_s`: trapping truncation of the `f32` with bits `x`.
pub fn i32_trunc_f32_s(x: u32) -> (r: Result<u32, Trap>)
    ensures
        r == result_bits32(trapping_trunc(f32_is_nan(x), f32_trunc(x), -0x8000_0000, 0x8000_0000)),
{
    if f32_nan(x) {
        return Err(Trap::BadConversionToInteger);
    }
    let (neg, mag) = f32_truncate(x);
    checked32(neg, mag, 0x8000_0000, 0x7fff_ffff)
}

/// `i32.trunc_sat_f32_s`: saturating truncation of the `f32` with bits `x` (NaN is 0).
pub fn i32_trunc_sat_f32_s(x: u32) -> (r: u32)
    ensures
        r == bits32(saturating_trunc(f32_is_nan(x), x >= 0x8000_0000, f32_trunc(x), -0x8000_0000, 0x8000_0000)),
{
    if f32_nan(x) {
        return 0;
    }
    let (neg, mag) = f32_truncate(x);
    saturated32(neg, mag, 0x8000_0000, 0x7fff_ffff)
}

/// `i32.trunc_f32_u`: trapping truncation of the `f32` with bits `x`.
pub fn i32_trunc_f32_u(x: u32) -> (r: Result<u32, Trap>)
    ensures
        r == result_bits32(trapping_trunc(f32_is_nan(x), f32_trunc(x), 0, 0x1_0000_0000)),
{
    if f32_nan(x) {
        return Err(Trap::BadConversionToInteger);
    }
    let (neg, mag) = f32_truncate(x);
    checked32(neg, mag, 0, 0xffff_ffff)
}

/// `i32.trunc_sat_f32_u`: saturating truncation of the `f32` with bits `x` (NaN is 0).
pub fn i32_trunc_sat_f32_u(x: u32) -> (r: u32)
    ensures
        r == bits32(saturating_trunc(f32_is_nan(x), x >= 0x8000_0000, f32_trunc(x), 0, 0x1_0000_0000)),
{
    if f32_nan(x) {
        return 0;
    }
    let (neg, mag) = f32_truncate(x);
    saturated32(neg, mag, 0, 0xffff_ffff)
}

/// `i32.trunc_f64_s`: trapping truncation of the `f64` with bits `x`.
pub fn i32_trunc_f64_s(x: u64) -> (r: Result<u32, Trap>)
    ensures
        r == result_bits32(trapping_trunc(f64_is_nan(x), f64_trunc(x), -0x8000_0000, 0x8000_0000)),
{
    if f64_nan(x) {
        return Err(Trap::BadConversionToInteger);
    }
    let (neg, mag) = f64_truncate(x);
    checked32(neg, mag, 0x8000_0000, 0x7fff_ffff)
}

/// `i32.trunc_sat_f64_s`: saturating truncation of the `f64` with bits `x` (NaN is 0).
pub fn i32_trunc_sat_f64_s(x: u64) -> (r: u32)
    ensures
        r == bits32(saturating_trunc(f64_is_nan(x), x >= 0x8000_0000_0000_0000, f64_trunc(x), -0x8000_0000, 0x8000_0000)),
{
    if f64_nan(x) {
        return 0;
    }
    let (neg, mag) = f64_truncate(x);
    saturated32(neg, mag, 0x8000_0000, 0x7fff_ffff)
}

/// `i32.trunc_f64_u`: trapping truncation of the `f64` with bits `x`.
pub fn i32_trunc_f64_u(x: u64) -> (r: Result<u32, Trap>)
    ensures
        r == result_bits32(trapping_trunc(f64_is_nan(x), f64_trunc(x), 0, 0x1_0000_0000)),
{
    if f64_nan(x) {
        return Err(Trap::BadConversionToInteger);
    }
    let (neg, mag) = f64_truncate(x);
    checked32(neg, mag, 0, 0xffff_ffff)
}

/// `i32.trunc_sat_f64_u`: saturating truncation of the `f64` with bits `x` (NaN is 0).
pub fn i32_trunc_sat_f64_u(x: u64) -> (r: u32)
    ensures
        r == bits32(saturating_trunc(f64_is_nan(x), x >= 0x8000_0000_0000_0000, f64_trunc(x), 0, 0x1_0000_0000)),
{
    if f64_nan(x) {
        return 0;
    }
    let (neg, mag) = f64_truncate(x);
    saturated32(neg, mag, 0, 0xffff_ffff)
}

/// `i64.trunc_f32_s`: trapping truncation of the `f32` with bits `x`.
pub fn i64_trunc_f32_s(x: u32) -> (r: Result<u64, Trap>)
    ensures
        r == result_bits64(trapping_trunc(f32_is_nan(x), f32_trunc(x), -0x8000_0000_0000_0000, 0x8000_0000_0000_0000)),
{
    if f32_nan(x) {
        return Err(Trap::BadConversionToInteger);
    }
    let (neg, mag) = f32_truncate(x);
    checked64(neg, mag, 0x8000_0000_0000_0000, 0x7fff_ffff_ffff_ffff)
}

/// `i64.trunc_sat_f32_s`: saturating truncation of the `f32` with bits `x` (NaN is 0).
pub fn i64_trunc_sat_f32_s(x: u32) -> (r: u64)
    ensures
        r == bits64(saturating_trunc(f32_is_nan(x), x >= 0x8000_0000, f32_trunc(x), -0x8000_0000_0000_0000, 0x8000_0000_0000_0000)),
{
    if f32_nan(x) {
        return 0;
    }
    let (neg, mag) = f32_truncate(x);
    saturated64(neg, mag, 0x8000_0000_0000_0000, 0x7fff_ffff_ffff_ffff)
}

/// `i64.trunc_f32_u`: trapping truncation of the `f32` with bits `x`.
pub fn i64_trunc_f32_u(x: u32) -> (r: Result<u64, Trap>)
    ensures
        r == result_bits64(trapping_trunc(f32_is_nan(x), f32_trunc(x), 0, 0x1_0000_0000_0000_0000)),
{
    if f32_nan(x) {
        return Err(Trap::BadConversionToInteger);
    }
    let (neg, mag) = f32_truncate(x);
    checked64(neg, mag, 0, 0xffff_ffff_ffff_ffff)
}

/// `i64.trunc_sat_f32_u`: saturating truncation of the `f32` with bits `x` (NaN is 0).
pub fn i64_trunc_sat_f32_u(x: u32) -> (r: u64)
    ensures
        r == bits64(saturating_trunc(f32_is_nan(x), x >= 0x8000_0000, f32_trunc(x), 0, 0x1_0000_0000_0000_0000)),
{
    if f32_nan(x) {
        return 0;
    }
    let (neg, mag) = f32_truncate(x);
    saturated64(neg, mag, 0, 0xffff_ffff_ffff_ffff)
}

/// `i64.trunc_f64_s`: trapping truncation of the `f64` with bits `x`.
pub fn i64_trunc_f64_s(x: u64) -> (r: Result<u64, Trap>)
    ensures
        r == result_bits64(trapping_trunc(f64_is_nan(x), f64_trunc(x), -0x8000_0000_0000_0000, 0x8000_0000_0000_0000)),
{
    if f64_nan(x) {
        return Err(Trap::BadConversionToInteger);
    }
    let (neg, mag) = f64_truncate(x);
    checked64(neg, mag, 0x8000_0000_0000_0000, 0x7fff_ffff_ffff_ffff)
}

/// `i64.trunc_sat_f64_s`: saturating truncation of the `f64` with bits `x` (NaN is 0).
pub fn i64_trunc_sat_f64_s(x: u64) -> (r: u64)
    ensures
        r == bits64(saturating_trunc(f64_is_nan(x), x >= 0x8000_0000_0000_0000, f64_trunc(x), -0x8000_0000_0000_0000, 0x8000_0000_0000_0000)),
{
    if f64_nan(x) {
        return 0;
    }
    let (neg, mag) = f64_truncate(x);
    saturated64(neg, mag, 0x8000_0000_0000_0000, 0x7fff_ffff_ffff_ffff)
}

/// `i64.trunc_f64_u`: trapping truncation of the `f64` with bits `x`.
pub fn i64_trunc_f64_u(x: u64) -> (r: Result<u64, Trap>)
    ensures
        r == result_bits64(trapping_trunc(f64_is_nan(x), f64_trunc(x), 0, 0x1_0000_0000_0000_0000)),
{
    if f64_nan(x) {
        return Err(Trap::BadConversionToInteger);
    }
    let (neg, mag) = f64_truncate(x);
    checked64(neg, mag, 0, 0xffff_ffff_ffff_ffff)
}

/// `i64.trunc_sat_f64_u`: saturating truncation of the `f64` with bits `x` (NaN is 0).
pub fn i64_trunc_sat_f64_u(x: u64) -> (r: u64)
    ensures
        r == bits64(saturating_trunc(f64_is_nan(x), x >= 0x8000_0000_0000_0000, f64_trunc(x), 0, 0x1_0000_0000_0000_0000)),
{
    if f64_nan(x) {
        return 0;
    }
    let (neg, mag) = f64_truncate(x);
    saturated64(neg, mag, 0, 0xffff_ffff_ffff_ffff)
}

} // verus!
