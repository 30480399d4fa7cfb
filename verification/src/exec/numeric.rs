//! Numeric instruction dispatch: the integer and bit-level instructions are computed here;
//! floating-point arithmetic, comparisons and conversions are handed to the embedder as a
//! [`FloatRequest`].
use vstd::prelude::*;
use vstd::arithmetic::power2::pow2;
use vstd::std_specs::bits::{u32_leading_zeros, u32_trailing_zeros, u64_leading_zeros, u64_trailing_zeros};
use crate::trap::Trap;
use crate::exec::cell::{Cell, RefTag, low32, low64, cell32, cell64};
use crate::exec::op::{Op, FloatRequest};
use crate::exec::simd::compute::simd_effect;
use crate::exec::stack::{Execution, Fault, replace_top, popped_at_most_three};
use crate::exec::int32::{lemma_tdiv_trem, lemma_tdiv_cases, lemma_signed32_bits32, signed32, bits32, tdiv, trem, popcount, i32_eqz, i32_add, i32_sub, i32_mul, i32_div_u, i32_rem_u, i32_div_s, i32_rem_s, i32_and, i32_or, i32_xor, shift32, i32_shl, i32_shr_u, i32_shr_s, i32_rotl, i32_rotr, i32_clz, i32_ctz, i32_popcnt, bool32, i32_eq, i32_ne, i32_lt_u, i32_gt_u, i32_le_u, i32_ge_u, i32_lt_s, i32_gt_s, i32_le_s, i32_ge_s, sext, i32_extend8_s, i32_extend16_s};
use crate::exec::int64::{signed64, bits64, i64_eqz, i64_add, i64_sub, i64_mul, i64_div_u, i64_rem_u, i64_div_s, i64_rem_s, i64_and, i64_or, i64_xor, shift64, i64_shr_u, i64_shr_s, i64_rotr, i64_clz, i64_ctz, i64_popcnt, i64_eq, i64_ne, i64_lt_u, i64_gt_u, i64_le_u, i64_ge_u, i64_lt_s, i64_gt_s, i64_le_s, i64_ge_s, i64_shl, i64_rotl, i64_extend8_s, i64_extend16_s, i64_extend32_s};
use crate::exec::convert::{i32_wrap_i64, i64_extend_i32_s, i64_extend_i32_u, f32_is_nan, f32_trunc, f64_is_nan, f64_trunc, trapping_trunc, result_bits32, result_bits64, saturating_trunc, i32_trunc_f32_s, i32_trunc_sat_f32_s, i32_trunc_f32_u, i32_trunc_sat_f32_u, i32_trunc_f64_s, i32_trunc_sat_f64_s, i32_trunc_f64_u, i32_trunc_sat_f64_u, i64_trunc_f32_s, i64_trunc_sat_f32_s, i64_trunc_f32_u, i64_trunc_sat_f32_u, i64_trunc_f64_s, i64_trunc_sat_f64_s, i64_trunc_f64_u, i64_trunc_sat_f64_u};

verus! {

/// What a numeric instruction does to the operand stack: pop `k` operands and push one result,
/// pop `k` operands and request a floating-point operation, or fail.
pub ghost enum NumEffect {
    Push(nat, Cell),
    Request(nat, FloatRequest),
    Fail(Fault),
}

/// How a numeric instruction finished: done, or waiting for a floating-point result.
#[derive(Copy, Clone, PartialEq, Eq, Structural, Debug)]
pub enum NumOutcome {
    Done,
    Float(FloatRequest),
}

pub proof fn lemma_bits32_signed32(r: u32)
    ensures
        bits32(signed32(r)) == r,
{
}

pub proof fn lemma_bits64_signed64(r: u64)
    ensures
        bits64(signed64(r)) == r,
{
}

/// `i32.div_s` and `i32.rem_s` on the same operands fit together: with a nonzero divisor and
/// no overflow, the dividend is the divisor times the quotient plus the remainder, the remainder
/// is smaller than the divisor in magnitude, and it is zero or has the dividend's sign.
pub proof fn lemma_i32_div_rem_s(a: u32, b: u32)
    requires
        b != 0,
        !(a == 0x8000_0000 && b == 0xffff_ffff),
    ensures
        ({
            let q = i32_binary(Op::I32DivS, a, b);
            let r = i32_binary(Op::I32RemS, a, b);
            &&& q is Ok && r is Ok
            &&& signed32(a) == signed32(b) * signed32(q->Ok_0) + signed32(r->Ok_0)
            &&& vstd::math::abs(signed32(r->Ok_0)) < vstd::math::abs(signed32(b))
            &&& signed32(r->Ok_0) == 0 || (signed32(r->Ok_0) < 0) == (signed32(a) < 0)
        }),
{
    let x = signed32(a);
    let d = signed32(b);
    lemma_tdiv_trem(x, d);
    let q = tdiv(x, d);
    if q == 0x8000_0000 {
        // only -2^31 / -1 reaches 2^31
        assert(vstd::math::abs(x) == 0x8000_0000);
        assert(x == -0x8000_0000);
        let ad = vstd::math::abs(d);
        assert(ad == 1) by {
            if ad >= 2 {
                lemma_tdiv_cases(x, d);
            }
        }
        assert(d == -1);
    }
    lemma_signed32_bits32(q);
    lemma_signed32_bits32(trem(x, d));
}

/// `i32.div_u` and `i32.rem_u` on the same operands fit together.
pub proof fn lemma_i32_div_rem_u(a: u32, b: u32)
    requires
        b != 0,
    ensures
        ({
            let q = i32_binary(Op::I32DivU, a, b);
            let r = i32_binary(Op::I32RemU, a, b);
            &&& q is Ok && r is Ok
            &&& a == b * q->Ok_0 + r->Ok_0
            &&& r->Ok_0 < b
        }),
{
    assert(a == b * (a / b) + a % b && a % b < b) by (nonlinear_arith) requires b > 0;
}

/// Flipping the sign bit turns two's-complement order into unsigned order.
proof fn lemma_sign_flip(a: u32)
    ensures
        (a ^ 0x8000_0000u32) as int == signed32(a) + 0x8000_0000,
{
    assert(a < 0x8000_0000 ==> a ^ 0x8000_0000u32 == a + 0x8000_0000) by (bit_vector);
    assert(a >= 0x8000_0000 ==> a ^ 0x8000_0000u32 == a - 0x8000_0000) by (bit_vector);
}

/// The `i32` comparisons on operands `x y` (pushed in that order): unsigned ones compare the bit
/// patterns, signed ones the patterns with the sign bit flipped; each pushes 1 or 0. `eqz` pushes
/// 1 exactly for zero.
#[verifier::spinoff_prover]
pub proof fn lemma_i32_compare(s: Seq<Cell>, x: Cell, y: Cell)
    ensures
        ({
            let st = s.push(x).push(y);
            let a = low32(x);
            let b = low32(y);
            let fa = a ^ 0x8000_0000u32;
            let fb = b ^ 0x8000_0000u32;
            let res = |op: Op, v: bool| numeric_effect(op, st) == NumEffect::Push(2, cell32(if v { 1u32 } else { 0u32 }));
            &&& res(Op::I32Eq, a == b)
            &&& res(Op::I32Ne, a != b)
            &&& res(Op::I32LtU, a < b)
            &&& res(Op::I32GtU, b < a)
            &&& res(Op::I32LeU, !(b < a))
            &&& res(Op::I32GeU, !(a < b))
            &&& res(Op::I32LtS, fa < fb)
            &&& res(Op::I32GtS, fb < fa)
            &&& res(Op::I32LeS, !(fb < fa))
            &&& res(Op::I32GeS, !(fa < fb))
            &&& numeric_effect(Op::I32Eqz, s.push(y)) == NumEffect::Push(1, cell32(if b == 0 { 1u32 } else { 0u32 }))
        }),
{
    let st = s.push(x).push(y);
    assert(st[st.len() - 2] == x && st[st.len() - 1] == y);
    let s1 = s.push(y);
    assert(s1[s1.len() - 1] == y);
    lemma_sign_flip(low32(x));
    lemma_sign_flip(low32(y));
}

/// `i32.add`, `i32.sub` and `i32.mul` on operands `x y` wrap modulo 2^32: the sum and product of
/// the patterns, and the difference that added back to `y` gives `x`.
#[verifier::spinoff_prover]
pub proof fn lemma_i32_wrapping(s: Seq<Cell>, x: Cell, y: Cell)
    ensures
        ({
            let st = s.push(x).push(y);
            let a = low32(x) as int;
            let b = low32(y) as int;
            &&& numeric_effect(Op::I32Add, st) == NumEffect::Push(2, cell32(((a + b) % 0x1_0000_0000) as u32))
            &&& numeric_effect(Op::I32Mul, st) == NumEffect::Push(2, cell32(((a * b) % 0x1_0000_0000) as u32))
            &&& numeric_effect(Op::I32Sub, st) matches NumEffect::Push(k, c) && k == 2
                && (low32(c) + b) % 0x1_0000_0000 == a && c == cell32(low32(c))
        }),
{
    let st = s.push(x).push(y);
    assert(st[st.len() - 2] == x && st[st.len() - 1] == y);
    let a = low32(x) as int;
    let b = low32(y) as int;
    let d = bits32(a - b);
    assert((d + b) % 0x1_0000_0000 == a) by (nonlinear_arith)
        requires d == (a - b) % 0x1_0000_0000, 0 <= a < 0x1_0000_0000, 0 <= b < 0x1_0000_0000;
    assert(low32(cell32(d)) == d);
}

/// Shifts and rotations of `i32` use the count modulo 32: a count `y` acts as `y mod 32`.
pub proof fn lemma_i32_shift_count(s: Seq<Cell>, x: Cell, y: Cell, y2: Cell, op: Op)
    requires
        op is I32Shl || op is I32ShrS || op is I32ShrU || op is I32Rotl || op is I32Rotr,
        low32(y2) == low32(y) % 32,
    ensures
        numeric_effect(op, s.push(x).push(y)) == numeric_effect(op, s.push(x).push(y2)),
{
    let st = s.push(x).push(y);
    let st2 = s.push(x).push(y2);
    assert(st[st.len() - 2] == x && st[st.len() - 1] == y);
    assert(st2[st2.len() - 2] == x && st2[st2.len() - 1] == y2);
    assert(shift32(low32(y)) == shift32(low32(y2)));
}

/// `i32.div_s` and `i32.rem_s` trap on a zero divisor; the one quotient that does not fit
/// (`-2^31 / -1`) traps, while the matching remainder is 0.
pub proof fn lemma_i32_div_edges(a: u32)
    ensures
        i32_binary(Op::I32DivS, a, 0) == Err::<u32, Trap>(Trap::IntegerDivisionByZero),
        i32_binary(Op::I32RemS, a, 0) == Err::<u32, Trap>(Trap::IntegerDivisionByZero),
        i32_binary(Op::I32DivU, a, 0) == Err::<u32, Trap>(Trap::IntegerDivisionByZero),
        i32_binary(Op::I32RemU, a, 0) == Err::<u32, Trap>(Trap::IntegerDivisionByZero),
        i32_binary(Op::I32DivS, 0x8000_0000, 0xffff_ffff) == Err::<u32, Trap>(Trap::IntegerOverflow),
        i32_binary(Op::I32RemS, 0x8000_0000, 0xffff_ffff) == Ok::<u32, Trap>(0),
{
    assert(vstd::math::abs(-0x8000_0000int) == 0x8000_0000 && vstd::math::abs(-1int) == 1);
    assert(0x8000_0000int / 1 == 0x8000_0000);
    assert(tdiv(-0x8000_0000, -1) == 0x8000_0000);
    assert(signed32(0x8000_0000) == -0x8000_0000 && signed32(0xffff_ffff) == -1);
    assert(trem(-0x8000_0000, -1) == 0);
}

proof fn lemma_sign_flip64(a: u64)
    ensures
        (a ^ 0x8000_0000_0000_0000u64) as int == signed64(a) + 0x8000_0000_0000_0000,
{
    assert(a < 0x8000_0000_0000_0000 ==> a ^ 0x8000_0000_0000_0000u64 == a + 0x8000_0000_0000_0000) by (bit_vector);
    assert(a >= 0x8000_0000_0000_0000 ==> a ^ 0x8000_0000_0000_0000u64 == a - 0x8000_0000_0000_0000) by (bit_vector);
}

/// The `i64` comparisons on operands `x y` (pushed in that order) push an `i32` 1 or 0: unsigned
/// ones compare the bit patterns, signed ones the patterns with the sign bit flipped; `eqz`
/// pushes 1 exactly for zero.
#[verifier::spinoff_prover]
pub proof fn lemma_i64_compare(s: Seq<Cell>, x: Cell, y: Cell)
    ensures
        ({
            let st = s.push(x).push(y);
            let a = low64(x);
            let b = low64(y);
            let fa = a ^ 0x8000_0000_0000_0000u64;
            let fb = b ^ 0x8000_0000_0000_0000u64;
            let res = |op: Op, v: bool| numeric_effect(op, st) == NumEffect::Push(2, cell32(if v { 1u32 } else { 0u32 }));
            &&& res(Op::I64Eq, a == b)
            &&& res(Op::I64Ne, a != b)
            &&& res(Op::I64LtU, a < b)
            &&& res(Op::I64GtU, b < a)
            &&& res(Op::I64LeU, !(b < a))
            &&& res(Op::I64GeU, !(a < b))
            &&& res(Op::I64LtS, fa < fb)
            &&& res(Op::I64GtS, fb < fa)
            &&& res(Op::I64LeS, !(fb < fa))
            &&& res(Op::I64GeS, !(fa < fb))
            &&& numeric_effect(Op::I64Eqz, s.push(y)) == NumEffect::Push(1, cell32(if b == 0 { 1u32 } else { 0u32 }))
        }),
{
    let st = s.push(x).push(y);
    assert(st[st.len() - 2] == x && st[st.len() - 1] == y);
    let s1 = s.push(y);
    assert(s1[s1.len() - 1] == y);
    lemma_sign_flip64(low64(x));
    lemma_sign_flip64(low64(y));
}

/// `i64.add`, `i64.sub` and `i64.mul` on operands `x y` wrap modulo 2^64: the sum and product of
/// the patterns, and the difference that added back to `y` gives `x`.
#[verifier::spinoff_prover]
pub proof fn lemma_i64_wrapping(s: Seq<Cell>, x: Cell, y: Cell)
    ensures
        ({
            let st = s.push(x).push(y);
            let a = low64(x) as int;
            let b = low64(y) as int;
            &&& numeric_effect(Op::I64Add, st) == NumEffect::Push(2, cell64(((a + b) % 0x1_0000_0000_0000_0000) as u64))
            &&& numeric_effect(Op::I64Mul, st) == NumEffect::Push(2, cell64(((a * b) % 0x1_0000_0000_0000_0000) as u64))
            &&& numeric_effect(Op::I64Sub, st) matches NumEffect::Push(k, c) && k == 2
                && (low64(c) + b) % 0x1_0000_0000_0000_0000 == a && c == cell64(low64(c))
        }),
{
    let st = s.push(x).push(y);
    assert(st[st.len() - 2] == x && st[st.len() - 1] == y);
    let a = low64(x) as int;
    let b = low64(y) as int;
    let d = bits64(a - b);
    assert((d + b) % 0x1_0000_0000_0000_0000 == a) by (nonlinear_arith)
        requires d == (a - b) % 0x1_0000_0000_0000_0000, 0 <= a < 0x1_0000_0000_0000_0000, 0 <= b < 0x1_0000_0000_0000_0000;
    assert(low64(cell64(d)) == d);
}

/// Shifts and rotations of `i64` use the count modulo 64.
pub proof fn lemma_i64_shift_count(s: Seq<Cell>, x: Cell, y: Cell, y2: Cell, op: Op)
    requires
        op is I64Shl || op is I64ShrS || op is I64ShrU || op is I64Rotl || op is I64Rotr,
        low64(y2) == low64(y) % 64,
    ensures
        numeric_effect(op, s.push(x).push(y)) == numeric_effect(op, s.push(x).push(y2)),
{
    let st = s.push(x).push(y);
    let st2 = s.push(x).push(y2);
    assert(st[st.len() - 2] == x && st[st.len() - 1] == y);
    assert(st2[st2.len() - 2] == x && st2[st2.len() - 1] == y2);
    assert(shift64(low64(y)) == shift64(low64(y2)));
}

/// `i32.wrap_i64` keeps the low 32 bits; `i64.extend_i32_u` gives the same value with zero high
/// bits and `i64.extend_i32_s` with high bits copying the sign bit; the reinterpretations keep
/// the bit pattern.
#[verifier::spinoff_prover]
pub proof fn lemma_int_conversions(s: Seq<Cell>, x: Cell)
    ensures
        ({
            let s1 = s.push(x);
            let a = low32(x);
            let w = low64(x);
            &&& numeric_effect(Op::I32WrapI64, s1) == NumEffect::Push(1, cell32((w % 0x1_0000_0000) as u32))
            &&& numeric_effect(Op::I64ExtendI32U, s1) == NumEffect::Push(1, cell64(a as u64))
            &&& numeric_effect(Op::I64ExtendI32S, s1) == NumEffect::Push(1, cell64(
                if a < 0x8000_0000 { a as u64 } else { (a + 0xffff_ffff_0000_0000) as u64 }))
            &&& numeric_effect(Op::I32ReinterpretF32, s1) == NumEffect::Push(1, cell32(a))
            &&& numeric_effect(Op::F64ReinterpretI64, s1) == NumEffect::Push(1, cell64(w))
        }),
{
    let s1 = s.push(x);
    assert(s1[s1.len() - 1] == x);
}

/// `neg` flips only the sign bit, `abs` clears it, and `copysign` takes every bit of its first
/// operand but the sign, which it takes from the second.
#[verifier::spinoff_prover]
pub proof fn lemma_sign_bit_ops(s: Seq<Cell>, x: Cell, y: Cell)
    ensures
        ({
            let s1 = s.push(x);
            let a = low32(x);
            let w = low64(x);
            &&& numeric_effect(Op::F32Neg, s1) matches NumEffect::Push(k, c) && k == 1 && low32(c) ^ a == 0x8000_0000u32
                && c == cell32(low32(c))
            &&& numeric_effect(Op::F32Abs, s1) matches NumEffect::Push(k, c) && k == 1 && low32(c) < 0x8000_0000
                && (low32(c) == a || low32(c) ^ a == 0x8000_0000u32)
            &&& numeric_effect(Op::F64Neg, s1) matches NumEffect::Push(k, c) && k == 1 && low64(c) ^ w == 0x8000_0000_0000_0000u64
            &&& numeric_effect(Op::F32Copysign, s.push(x).push(y)) matches NumEffect::Push(k, c) && k == 2
                && low32(c) % 0x8000_0000 == a % 0x8000_0000 && (low32(c) >= 0x8000_0000) == (low32(y) >= 0x8000_0000)
        }),
{
    let s1 = s.push(x);
    assert(s1[s1.len() - 1] == x);
    let s2 = s.push(x).push(y);
    assert(s2[s2.len() - 2] == x && s2[s2.len() - 1] == y);
    let a = low32(x);
    let w = low64(x);
    let b = low32(y);
    assert((a ^ 0x8000_0000u32) ^ a == 0x8000_0000u32) by (bit_vector);
    assert((w ^ 0x8000_0000_0000_0000u64) ^ w == 0x8000_0000_0000_0000u64) by (bit_vector);
    assert((a & 0x7fff_ffffu32) < 0x8000_0000 && ((a & 0x7fff_ffffu32) == a || (a & 0x7fff_ffffu32) ^ a == 0x8000_0000u32)) by (bit_vector);
    assert(((a & 0x7fff_ffffu32) | (b & 0x8000_0000u32)) % 0x8000_0000 == a % 0x8000_0000
        && ((((a & 0x7fff_ffffu32) | (b & 0x8000_0000u32)) >= 0x8000_0000) == (b >= 0x8000_0000))) by (bit_vector);
    assert(low32(cell32(a ^ 0x8000_0000u32)) == a ^ 0x8000_0000u32);
    assert(low32(cell32(a & 0x7fff_ffffu32)) == a & 0x7fff_ffffu32);
    assert(low64(cell64(w ^ 0x8000_0000_0000_0000u64)) == w ^ 0x8000_0000_0000_0000u64);
    assert(low32(cell32((a & 0x7fff_ffffu32) | (b & 0x8000_0000u32))) == (a & 0x7fff_ffffu32) | (b & 0x8000_0000u32));
}

pub open spec fn is_i32_binary(op: Op) -> bool {
    matches!(op, Op::I32Eq | Op::I32Ne | Op::I32LtS | Op::I32LtU | Op::I32GtS | Op::I32GtU | Op::I32LeS | Op::I32LeU | Op::I32GeS | Op::I32GeU | Op::I32Add | Op::I32Sub | Op::I32Mul | Op::I32DivS | Op::I32DivU | Op::I32RemS | Op::I32RemU | Op::I32And | Op::I32Or | Op::I32Xor | Op::I32Shl | Op::I32ShrS | Op::I32ShrU | Op::I32Rotl | Op::I32Rotr)
}

pub open spec fn is_i32_unary(op: Op) -> bool {
    matches!(op, Op::I32Eqz | Op::I32Clz | Op::I32Ctz | Op::I32Popcnt | Op::I32Extend8S | Op::I32Extend16S)
}

pub open spec fn is_i64_binary(op: Op) -> bool {
    matches!(op, Op::I64Add | Op::I64Sub | Op::I64Mul | Op::I64DivS | Op::I64DivU | Op::I64RemS | Op::I64RemU | Op::I64And | Op::I64Or | Op::I64Xor | Op::I64Shl | Op::I64ShrS | Op::I64ShrU | Op::I64Rotl | Op::I64Rotr)
}

pub open spec fn is_i64_compare(op: Op) -> bool {
    matches!(op, Op::I64Eq | Op::I64Ne | Op::I64LtS | Op::I64LtU | Op::I64GtS | Op::I64GtU | Op::I64LeS | Op::I64LeU | Op::I64GeS | Op::I64GeU)
}

pub open spec fn is_i64_unary(op: Op) -> bool {
    matches!(op, Op::I64Clz | Op::I64Ctz | Op::I64Popcnt | Op::I64Extend8S | Op::I64Extend16S | Op::I64Extend32S)
}

pub open spec fn is_conversion(op: Op) -> bool {
    matches!(op, Op::I32WrapI64 | Op::I64ExtendI32S | Op::I64ExtendI32U | Op::I32TruncF32S | Op::I32TruncF32U | Op::I32TruncF64S | Op::I32TruncF64U | Op::I64TruncF32S | Op::I64TruncF32U | Op::I64TruncF64S | Op::I64TruncF64U | Op::I32TruncSatF32S | Op::I32TruncSatF32U | Op::I32TruncSatF64S | Op::I32TruncSatF64U | Op::I64TruncSatF32S | Op::I64TruncSatF32U | Op::I64TruncSatF64S | Op::I64TruncSatF64U | Op::I32ReinterpretF32 | Op::F32ReinterpretI32 | Op::I64ReinterpretF64 | Op::F64ReinterpretI64 | Op::F32Abs | Op::F32Neg | Op::F64Abs | Op::F64Neg)
}

pub open spec fn is_copysign(op: Op) -> bool {
    matches!(op, Op::F32Copysign | Op::F64Copysign)
}

/// The floating-point instructions of one operand handed to the embedder.
pub open spec fn is_float_unary(op: Op) -> bool {
    matches!(op, Op::F32Ceil | Op::F32Floor | Op::F32Trunc | Op::F32Nearest | Op::F32Sqrt | Op::F64Ceil | Op::F64Floor | Op::F64Trunc | Op::F64Nearest | Op::F64Sqrt | Op::F32ConvertI32S | Op::F32ConvertI32U | Op::F32ConvertI64S | Op::F32ConvertI64U | Op::F32DemoteF64 | Op::F64ConvertI32S | Op::F64ConvertI32U | Op::F64ConvertI64S | Op::F64ConvertI64U | Op::F64PromoteF32)
}

/// The floating-point instructions of two operands handed to the embedder.
pub open spec fn is_float_binary(op: Op) -> bool {
    matches!(op, Op::F32Eq | Op::F32Ne | Op::F32Lt | Op::F32Gt | Op::F32Le | Op::F32Ge | Op::F32Add | Op::F32Sub | Op::F32Mul | Op::F32Div | Op::F32Min | Op::F32Max | Op::F64Eq | Op::F64Ne | Op::F64Lt | Op::F64Gt | Op::F64Le | Op::F64Ge | Op::F64Add | Op::F64Sub | Op::F64Mul | Op::F64Div | Op::F64Min | Op::F64Max)
}

/// The result of an `i32` instruction of two operands.
pub open spec fn i32_binary(op: Op, a: u32, b: u32) -> Result<u32, Trap> {
    match op {
        Op::I32Eq => Ok(bool32(a == b)),
        Op::I32Ne => Ok(bool32(a != b)),
        Op::I32LtS => Ok(bool32(signed32(a) < signed32(b))),
        Op::I32LtU => Ok(bool32(a < b)),
        Op::I32GtS => Ok(bool32(signed32(a) > signed32(b))),
        Op::I32GtU => Ok(bool32(a > b)),
        Op::I32LeS => Ok(bool32(signed32(a) <= signed32(b))),
        Op::I32LeU => Ok(bool32(a <= b)),
        Op::I32GeS => Ok(bool32(signed32(a) >= signed32(b))),
        Op::I32GeU => Ok(bool32(a >= b)),
        Op::I32Add => Ok(bits32(a + b)),
        Op::I32Sub => Ok(bits32(a - b)),
        Op::I32Mul => Ok(bits32(a * b)),
        Op::I32DivS => if b == 0 { Err(Trap::IntegerDivisionByZero) } else if a == 0x8000_0000 && b == 0xffff_ffff { Err(Trap::IntegerOverflow) } else { Ok(bits32(tdiv(signed32(a), signed32(b)))) },
        Op::I32DivU => if b == 0 { Err(Trap::IntegerDivisionByZero) } else { Ok((a / b) as u32) },
        Op::I32RemS => if b == 0 { Err(Trap::IntegerDivisionByZero) } else { Ok(bits32(trem(signed32(a), signed32(b)))) },
        Op::I32RemU => if b == 0 { Err(Trap::IntegerDivisionByZero) } else { Ok((a % b) as u32) },
        Op::I32And => Ok(a & b),
        Op::I32Or => Ok(a | b),
        Op::I32Xor => Ok(a ^ b),
        Op::I32Shl => Ok(bits32(a * pow2(shift32(b)))),
        Op::I32ShrS => Ok(bits32(signed32(a) / (pow2(shift32(b)) as int))),
        Op::I32ShrU => Ok((a as nat / pow2(shift32(b))) as u32),
        Op::I32Rotl => Ok((bits32(a * pow2(shift32(b))) + a as nat / pow2((32 - shift32(b)) as nat)) as u32),
        Op::I32Rotr => Ok((bits32(a * pow2(((32 - shift32(b)) % 32) as nat)) + a as nat / pow2((32 - (32 - shift32(b)) % 32) as nat)) as u32),
        _ => Err(Trap::UnreachableCodeReached),
    }
}

/// The result of an `i32` instruction of one operand.
pub open spec fn i32_unary(op: Op, a: u32) -> u32 {
    match op {
        Op::I32Eqz => if a == 0 { 1u32 } else { 0u32 },
        Op::I32Clz => u32_leading_zeros(a),
        Op::I32Ctz => u32_trailing_zeros(a),
        Op::I32Popcnt => popcount(a as nat) as u32,
        Op::I32Extend8S => bits32(sext(a as nat, 8)),
        Op::I32Extend16S => bits32(sext(a as nat, 16)),
        _ => 0,
    }
}

/// The result of an `i64` arithmetic or bitwise instruction.
pub open spec fn i64_binary(op: Op, a: u64, b: u64) -> Result<u64, Trap> {
    match op {
        Op::I64Add => Ok(bits64(a + b)),
        Op::I64Sub => Ok(bits64(a - b)),
        Op::I64Mul => Ok(bits64(a * b)),
        Op::I64DivS => if b == 0 { Err(Trap::IntegerDivisionByZero) } else if a == 0x8000_0000_0000_0000 && b == 0xffff_ffff_ffff_ffff { Err(Trap::IntegerOverflow) } else { Ok(bits64(tdiv(signed64(a), signed64(b)))) },
        Op::I64DivU => if b == 0 { Err(Trap::IntegerDivisionByZero) } else { Ok((a / b) as u64) },
        Op::I64RemS => if b == 0 { Err(Trap::IntegerDivisionByZero) } else { Ok(bits64(trem(signed64(a), signed64(b)))) },
        Op::I64RemU => if b == 0 { Err(Trap::IntegerDivisionByZero) } else { Ok((a % b) as u64) },
        Op::I64And => Ok(a & b),
        Op::I64Or => Ok(a | b),
        Op::I64Xor => Ok(a ^ b),
        Op::I64Shl => Ok(bits64(a * pow2(shift64(b)))),
        Op::I64ShrS => Ok(bits64(signed64(a) / (pow2(shift64(b)) as int))),
        Op::I64ShrU => Ok((a as nat / pow2(shift64(b))) as u64),
        Op::I64Rotl => Ok((bits64(a * pow2(shift64(b))) + a as nat / pow2((64 - shift64(b)) as nat)) as u64),
        Op::I64Rotr => Ok((bits64(a * pow2(((64 - shift64(b)) % 64) as nat)) + a as nat / pow2((64 - (64 - shift64(b)) % 64) as nat)) as u64),
        _ => Err(Trap::UnreachableCodeReached),
    }
}

/// The `i32` result of an `i64` comparison.
pub open spec fn i64_compare(op: Op, a: u64, b: u64) -> u32 {
    match op {
        Op::I64Eq => bool32(a == b),
        Op::I64Ne => bool32(a != b),
        Op::I64LtS => bool32(signed64(a) < signed64(b)),
        Op::I64LtU => bool32(a < b),
        Op::I64GtS => bool32(signed64(a) > signed64(b)),
        Op::I64GtU => bool32(a > b),
        Op::I64LeS => bool32(signed64(a) <= signed64(b)),
        Op::I64LeU => bool32(a <= b),
        Op::I64GeS => bool32(signed64(a) >= signed64(b)),
        Op::I64GeU => bool32(a >= b),
        _ => 0,
    }
}

/// The result of an `i64` instruction of one operand.
pub open spec fn i64_unary(op: Op, a: u64) -> u64 {
    match op {
        Op::I64Clz => u64_leading_zeros(a) as u64,
        Op::I64Ctz => u64_trailing_zeros(a) as u64,
        Op::I64Popcnt => popcount(a as nat) as u64,
        Op::I64Extend8S => bits64(sext(a as nat, 8)),
        Op::I64Extend16S => bits64(sext(a as nat, 16)),
        Op::I64Extend32S => bits64(sext(a as nat, 32)),
        _ => 0,
    }
}

/// The result of a conversion, reinterpretation or sign-bit instruction.
pub open spec fn conversion(op: Op, c: Cell) -> Result<Cell, Trap> {
    match op {
        Op::I32WrapI64 => Ok(cell32(bits32(low64(c) as int))),
        Op::I64ExtendI32S => Ok(cell64(bits64(signed32(low32(c))))),
        Op::I64ExtendI32U => Ok(cell64(low32(c) as u64)),
        Op::I32TruncF32S => match result_bits32(trapping_trunc(f32_is_nan(low32(c)), f32_trunc(low32(c)), -0x8000_0000, 0x8000_0000)) { Ok(x) => Ok(cell32(x)), Err(t) => Err(t) },
        Op::I32TruncF32U => match result_bits32(trapping_trunc(f32_is_nan(low32(c)), f32_trunc(low32(c)), 0, 0x1_0000_0000)) { Ok(x) => Ok(cell32(x)), Err(t) => Err(t) },
        Op::I32TruncF64S => match result_bits32(trapping_trunc(f64_is_nan(low64(c)), f64_trunc(low64(c)), -0x8000_0000, 0x8000_0000)) { Ok(x) => Ok(cell32(x)), Err(t) => Err(t) },
        Op::I32TruncF64U => match result_bits32(trapping_trunc(f64_is_nan(low64(c)), f64_trunc(low64(c)), 0, 0x1_0000_0000)) { Ok(x) => Ok(cell32(x)), Err(t) => Err(t) },
        Op::I64TruncF32S => match result_bits64(trapping_trunc(f32_is_nan(low32(c)), f32_trunc(low32(c)), -0x8000_0000_0000_0000, 0x8000_0000_0000_0000)) { Ok(x) => Ok(cell64(x)), Err(t) => Err(t) },
        Op::I64TruncF32U => match result_bits64(trapping_trunc(f32_is_nan(low32(c)), f32_trunc(low32(c)), 0, 0x1_0000_0000_0000_0000)) { Ok(x) => Ok(cell64(x)), Err(t) => Err(t) },
        Op::I64TruncF64S => match result_bits64(trapping_trunc(f64_is_nan(low64(c)), f64_trunc(low64(c)), -0x8000_0000_0000_0000, 0x8000_0000_0000_0000)) { Ok(x) => Ok(cell64(x)), Err(t) => Err(t) },
        Op::I64TruncF64U => match result_bits64(trapping_trunc(f64_is_nan(low64(c)), f64_trunc(low64(c)), 0, 0x1_0000_0000_0000_0000)) { Ok(x) => Ok(cell64(x)), Err(t) => Err(t) },
        Op::I32TruncSatF32S => Ok(cell32(bits32(saturating_trunc(f32_is_nan(low32(c)), low32(c) >= 0x8000_0000, f32_trunc(low32(c)), -0x8000_0000, 0x8000_0000)))),
        Op::I32TruncSatF32U => Ok(cell32(bits32(saturating_trunc(f32_is_nan(low32(c)), low32(c) >= 0x8000_0000, f32_trunc(low32(c)), 0, 0x1_0000_0000)))),
        Op::I32TruncSatF64S => Ok(cell32(bits32(saturating_trunc(f64_is_nan(low64(c)), low64(c) >= 0x8000_0000_0000_0000, f64_trunc(low64(c)), -0x8000_0000, 0x8000_0000)))),
        Op::I32TruncSatF64U => Ok(cell32(bits32(saturating_trunc(f64_is_nan(low64(c)), low64(c) >= 0x8000_0000_0000_0000, f64_trunc(low64(c)), 0, 0x1_0000_0000)))),
        Op::I64TruncSatF32S => Ok(cell64(bits64(saturating_trunc(f32_is_nan(low32(c)), low32(c) >= 0x8000_0000, f32_trunc(low32(c)), -0x8000_0000_0000_0000, 0x8000_0000_0000_0000)))),
        Op::I64TruncSatF32U => Ok(cell64(bits64(saturating_trunc(f32_is_nan(low32(c)), low32(c) >= 0x8000_0000, f32_trunc(low32(c)), 0, 0x1_0000_0000_0000_0000)))),
        Op::I64TruncSatF64S => Ok(cell64(bits64(saturating_trunc(f64_is_nan(low64(c)), low64(c) >= 0x8000_0000_0000_0000, f64_trunc(low64(c)), -0x8000_0000_0000_0000, 0x8000_0000_0000_0000)))),
        Op::I64TruncSatF64U => Ok(cell64(bits64(saturating_trunc(f64_is_nan(low64(c)), low64(c) >= 0x8000_0000_0000_0000, f64_trunc(low64(c)), 0, 0x1_0000_0000_0000_0000)))),
        Op::I32ReinterpretF32 => Ok(cell32(low32(c))),
        Op::F32ReinterpretI32 => Ok(cell32(low32(c))),
        Op::I64ReinterpretF64 => Ok(cell64(low64(c))),
        Op::F64ReinterpretI64 => Ok(cell64(low64(c))),
        Op::F32Abs => Ok(cell32(low32(c) & 0x7fff_ffff)),
        Op::F32Neg => Ok(cell32(low32(c) ^ 0x8000_0000)),
        Op::F64Abs => Ok(cell64(low64(c) & 0x7fff_ffff_ffff_ffff)),
        Op::F64Neg => Ok(cell64(low64(c) ^ 0x8000_0000_0000_0000)),
        _ => Err(Trap::UnreachableCodeReached),
    }
}

/// The result of `copysign` on the bit patterns of `a` and `b`.
pub open spec fn copysign(op: Op, a: Cell, b: Cell) -> Cell {
    match op {
        Op::F32Copysign => cell32((low32(a) & 0x7fff_ffff) | (low32(b) & 0x8000_0000)),
        Op::F64Copysign => cell64((low64(a) & 0x7fff_ffff_ffff_ffff) | (low64(b) & 0x8000_0000_0000_0000)),
        _ => Cell(0),
    }
}

/// The effect of a numeric instruction on operand stack `s`.
pub open spec fn numeric_effect(op: Op, s: Seq<Cell>) -> NumEffect {
    let n = s.len();
    if let Op::Simd(v) = op {
        simd_effect(v, s)
    } else if is_i32_binary(op) || is_i64_binary(op) || is_i64_compare(op) || is_copysign(op) || is_float_binary(op) {
        if n < 2 {
            NumEffect::Fail(Fault::Invalid)
        } else if is_i32_binary(op) {
            match i32_binary(op, low32(s[n - 2]), low32(s[n - 1])) {
                Ok(r) => NumEffect::Push(2, cell32(r)),
                Err(t) => NumEffect::Fail(Fault::Trap(t)),
            }
        } else if is_i64_binary(op) {
            match i64_binary(op, low64(s[n - 2]), low64(s[n - 1])) {
                Ok(r) => NumEffect::Push(2, cell64(r)),
                Err(t) => NumEffect::Fail(Fault::Trap(t)),
            }
        } else if is_i64_compare(op) {
            NumEffect::Push(2, cell32(i64_compare(op, low64(s[n - 2]), low64(s[n - 1]))))
        } else if is_copysign(op) {
            NumEffect::Push(2, copysign(op, s[n - 2], s[n - 1]))
        } else {
            NumEffect::Request(2, FloatRequest { op, a: low64(s[n - 2]), b: low64(s[n - 1]) })
        }
    } else if is_i32_unary(op) || is_i64_unary(op) || op == Op::I64Eqz || is_conversion(op) || is_float_unary(op) {
        if n < 1 {
            NumEffect::Fail(Fault::Invalid)
        } else if is_i32_unary(op) {
            NumEffect::Push(1, cell32(i32_unary(op, low32(s[n - 1]))))
        } else if is_i64_unary(op) {
            NumEffect::Push(1, cell64(i64_unary(op, low64(s[n - 1]))))
        } else if op == Op::I64Eqz {
            NumEffect::Push(1, cell32(if low64(s[n - 1]) == 0 { 1u32 } else { 0u32 }))
        } else if is_conversion(op) {
            match conversion(op, s[n - 1]) {
                Ok(c) => NumEffect::Push(1, c),
                Err(t) => NumEffect::Fail(Fault::Trap(t)),
            }
        } else {
            NumEffect::Request(1, FloatRequest { op, a: low64(s[n - 1]), b: 0 })
        }
    } else {
        NumEffect::Fail(Fault::Invalid)
    }
}

/// The stack after popping `k` operands.
pub open spec fn pop_k<T>(s: Seq<T>, k: nat) -> Seq<T> {
    s.subrange(0, s.len() - k)
}

impl Execution {
    fn bin32(&mut self) -> (r: Result<(u32, u32), Fault>)
        requires
            old(self).wf(),
        ensures
            final(self).wf(),
            final(self).frames@ == old(self).frames@,
            old(self).values@.len() < 2 ==> r == Err::<(u32, u32), Fault>(Fault::Invalid),
            old(self).values@.len() >= 2 ==> {
                let n = old(self).values@.len();
                &&& r == Ok::<(u32, u32), Fault>((low32(old(self).values@[n - 2]), low32(old(self).values@[n - 1])))
                &&& final(self).values@ == pop_k(old(self).values@, 2)
                &&& final(self).shadow@ == pop_k(old(self).shadow@, 2)
            },
    {
        let (a, b) = self.pop2_cells()?;
        Ok((a.low32(), b.low32()))
    }

    fn bin64(&mut self) -> (r: Result<(u64, u64), Fault>)
        requires
            old(self).wf(),
        ensures
            final(self).wf(),
            final(self).frames@ == old(self).frames@,
            old(self).values@.len() < 2 ==> r == Err::<(u64, u64), Fault>(Fault::Invalid),
            old(self).values@.len() >= 2 ==> {
                let n = old(self).values@.len();
                &&& r == Ok::<(u64, u64), Fault>((low64(old(self).values@[n - 2]), low64(old(self).values@[n - 1])))
                &&& final(self).values@ == pop_k(old(self).values@, 2)
                &&& final(self).shadow@ == pop_k(old(self).shadow@, 2)
            },
    {
        let (a, b) = self.pop2_cells()?;
        Ok((a.low64(), b.low64()))
    }

    fn un1(&mut self) -> (r: Result<Cell, Fault>)
        requires
            old(self).wf(),
        ensures
            final(self).wf(),
            final(self).frames@ == old(self).frames@,
            old(self).values@.len() < 1 ==> r == Err::<Cell, Fault>(Fault::Invalid),
            old(self).values@.len() >= 1 ==> {
                &&& r == Ok::<Cell, Fault>(old(self).values@.last())
                &&& final(self).values@ == pop_k(old(self).values@, 1)
                &&& final(self).shadow@ == pop_k(old(self).shadow@, 1)
            },
    {
        let c = self.pop_cell()?;
        proof {
            assert(self.values@ =~= pop_k(old(self).values@, 1));
            assert(self.shadow@ =~= pop_k(old(self).shadow@, 1));
        }
        Ok(c)
    }

    /// Pushes an instruction's result (one below the stack limit, since operands were popped).
    fn put(&mut self, c: Cell) -> (r: Result<NumOutcome, Fault>)
        requires
            old(self).wf(),
            old(self).values@.len() < u32::MAX,
        ensures
            final(self).wf(),
            r == Ok::<NumOutcome, Fault>(NumOutcome::Done),
            final(self).values@ == old(self).values@.push(c),
            final(self).shadow@ == old(self).shadow@.push(RefTag::NoRef),
            final(self).frames@ == old(self).frames@,
    {
        let _ = self.push_scalar(c);
        Ok(NumOutcome::Done)
    }

    fn trapped(&self, r: Result<u32, Trap>) -> (out: Result<Cell, Fault>)
        ensures
            out == match r { Ok(x) => Ok::<Cell, Fault>(cell32(x)), Err(t) => Err::<Cell, Fault>(Fault::Trap(t)) },
    {
        match r {
            Ok(x) => Ok(Cell::from_u32(x)),
            Err(t) => Err(Fault::Trap(t)),
        }
    }

    fn trapped64(&self, r: Result<u64, Trap>) -> (out: Result<Cell, Fault>)
        ensures
            out == match r { Ok(x) => Ok::<Cell, Fault>(cell64(x)), Err(t) => Err::<Cell, Fault>(Fault::Trap(t)) },
    {
        match r {
            Ok(x) => Ok(Cell::from_u64(x)),
            Err(t) => Err(Fault::Trap(t)),
        }
    }

    /// Executes a numeric instruction: pops its operands and pushes its result, or pops them and
    /// returns the floating-point operation the embedder has to compute. A trapping instruction
    /// leaves the operand stack as it found it.
    pub fn exec_numeric(&mut self, op: &Op) -> (r: Result<NumOutcome, Fault>)
        requires
            old(self).wf(),
        ensures
            final(self).wf(),
            final(self).frames@ == old(self).frames@,
            match numeric_effect(*op, old(self).values@) {
                NumEffect::Push(k, c) => r == Ok::<NumOutcome, Fault>(NumOutcome::Done)
                    && final(self).values@ == replace_top(old(self).values@, k, c)
                    && final(self).shadow@ == pop_k(old(self).shadow@, k).push(RefTag::NoRef),
                NumEffect::Request(k, q) => r == Ok::<NumOutcome, Fault>(NumOutcome::Float(q))
                    && final(self).values@ == pop_k(old(self).values@, k)
                    && final(self).shadow@ == pop_k(old(self).shadow@, k),
                NumEffect::Fail(f) => r == Err::<NumOutcome, Fault>(f)
                    && (f is Trap ==> final(self).values@ == old(self).values@ && final(self).shadow@ == old(self).shadow@),
            },
    {
        let n = self.values.len();
        let top = self.top_three();
        let ghost ov = self.values@;
        let ghost ot = self.shadow@;
        let r = self.numeric_popping(op);
        match r {
            Err(Fault::Trap(t)) => {
                self.restore_top(top, n, Ghost(ov), Ghost(ot));
                Err(Fault::Trap(t))
            },
            _ => r,
        }
    }

    /// [`Execution::exec_numeric`], except that a trapping instruction leaves its operands
    /// popped.
    #[verifier::rlimit(80)]
    #[verifier::spinoff_prover]
    fn numeric_popping(&mut self, op: &Op) -> (r: Result<NumOutcome, Fault>)
        requires
            old(self).wf(),
        ensures
            final(self).wf(),
            final(self).frames@ == old(self).frames@,
            match numeric_effect(*op, old(self).values@) {
                NumEffect::Push(k, c) => r == Ok::<NumOutcome, Fault>(NumOutcome::Done)
                    && final(self).values@ == replace_top(old(self).values@, k, c)
                    && final(self).shadow@ == pop_k(old(self).shadow@, k).push(RefTag::NoRef),
                NumEffect::Request(k, q) => r == Ok::<NumOutcome, Fault>(NumOutcome::Float(q))
                    && final(self).values@ == pop_k(old(self).values@, k)
                    && final(self).shadow@ == pop_k(old(self).shadow@, k),
                NumEffect::Fail(f) => r == Err::<NumOutcome, Fault>(f)
                    && (f is Trap ==> popped_at_most_three(final(self).values@, final(self).shadow@, old(self).values@, old(self).shadow@)),
            },
    {
        let ghost s = self.values@;
        let ghost n = s.len();
        match op {
            Op::I32Eq => {
                let (a, b) = self.bin32()?;
                self.put(Cell::from_u32(i32_eq(a, b)))
            },
            Op::I32Ne => {
                let (a, b) = self.bin32()?;
                self.put(Cell::from_u32(i32_ne(a, b)))
            },
            Op::I32LtS => {
                let (a, b) = self.bin32()?;
                self.put(Cell::from_u32(i32_lt_s(a, b)))
            },
            Op::I32LtU => {
                let (a, b) = self.bin32()?;
                self.put(Cell::from_u32(i32_lt_u(a, b)))
            },
            Op::I32GtS => {
                let (a, b) = self.bin32()?;
                self.put(Cell::from_u32(i32_gt_s(a, b)))
            },
            Op::I32GtU => {
                let (a, b) = self.bin32()?;
                self.put(Cell::from_u32(i32_gt_u(a, b)))
            },
            Op::I32LeS => {
                let (a, b) = self.bin32()?;
                self.put(Cell::from_u32(i32_le_s(a, b)))
            },
            Op::I32LeU => {
                let (a, b) = self.bin32()?;
                self.put(Cell::from_u32(i32_le_u(a, b)))
            },
            Op::I32GeS => {
                let (a, b) = self.bin32()?;
                self.put(Cell::from_u32(i32_ge_s(a, b)))
            },
            Op::I32GeU => {
                let (a, b) = self.bin32()?;
                self.put(Cell::from_u32(i32_ge_u(a, b)))
            },
            Op::I32Add => {
                let (a, b) = self.bin32()?;
                self.put(Cell::from_u32(i32_add(a, b)))
            },
            Op::I32Sub => {
                let (a, b) = self.bin32()?;
                self.put(Cell::from_u32(i32_sub(a, b)))
            },
            Op::I32Mul => {
                let (a, b) = self.bin32()?;
                self.put(Cell::from_u32(i32_mul(a, b)))
            },
            Op::I32DivS => {
                let (a, b) = self.bin32()?;
                let c = self.trapped(i32_div_s(a, b))?;
                self.put(c)
            },
            Op::I32DivU => {
                let (a, b) = self.bin32()?;
                let c = self.trapped(i32_div_u(a, b))?;
                self.put(c)
            },
            Op::I32RemS => {
                let (a, b) = self.bin32()?;
                let c = self.trapped(i32_rem_s(a, b))?;
                self.put(c)
            },
            Op::I32RemU => {
                let (a, b) = self.bin32()?;
                let c = self.trapped(i32_rem_u(a, b))?;
                self.put(c)
            },
            Op::I32And => {
                let (a, b) = self.bin32()?;
                self.put(Cell::from_u32(i32_and(a, b)))
            },
            Op::I32Or => {
                let (a, b) = self.bin32()?;
                self.put(Cell::from_u32(i32_or(a, b)))
            },
            Op::I32Xor => {
                let (a, b) = self.bin32()?;
                self.put(Cell::from_u32(i32_xor(a, b)))
            },
            Op::I32Shl => {
                let (a, b) = self.bin32()?;
                self.put(Cell::from_u32(i32_shl(a, b)))
            },
            Op::I32ShrS => {
                let (a, b) = self.bin32()?;
                let x = i32_shr_s(a, b);
                proof { lemma_bits32_signed32(x); }
                self.put(Cell::from_u32(x))
            },
            Op::I32ShrU => {
                let (a, b) = self.bin32()?;
                self.put(Cell::from_u32(i32_shr_u(a, b)))
            },
            Op::I32Rotl => {
                let (a, b) = self.bin32()?;
                self.put(Cell::from_u32(i32_rotl(a, b)))
            },
            Op::I32Rotr => {
                let (a, b) = self.bin32()?;
                self.put(Cell::from_u32(i32_rotr(a, b)))
            },
            Op::I32Eqz => {
                let c = self.un1()?;
                self.put(Cell::from_u32(i32_eqz(c.low32())))
            },
            Op::I32Clz => {
                let c = self.un1()?;
                self.put(Cell::from_u32(i32_clz(c.low32())))
            },
            Op::I32Ctz => {
                let c = self.un1()?;
                self.put(Cell::from_u32(i32_ctz(c.low32())))
            },
            Op::I32Popcnt => {
                let c = self.un1()?;
                self.put(Cell::from_u32(i32_popcnt(c.low32())))
            },
            Op::I32Extend8S => {
                let c = self.un1()?;
                let x = i32_extend8_s(c.low32());
                proof { lemma_bits32_signed32(x); }
                self.put(Cell::from_u32(x))
            },
            Op::I32Extend16S => {
                let c = self.un1()?;
                let x = i32_extend16_s(c.low32());
                proof { lemma_bits32_signed32(x); }
                self.put(Cell::from_u32(x))
            },
            Op::I64Add => {
                let (a, b) = self.bin64()?;
                self.put(Cell::from_u64(i64_add(a, b)))
            },
            Op::I64Sub => {
                let (a, b) = self.bin64()?;
                self.put(Cell::from_u64(i64_sub(a, b)))
            },
            Op::I64Mul => {
                let (a, b) = self.bin64()?;
                self.put(Cell::from_u64(i64_mul(a, b)))
            },
            Op::I64DivS => {
                let (a, b) = self.bin64()?;
                let c = self.trapped64(i64_div_s(a, b))?;
                self.put(c)
            },
            Op::I64DivU => {
                let (a, b) = self.bin64()?;
                let c = self.trapped64(i64_div_u(a, b))?;
                self.put(c)
            },
            Op::I64RemS => {
                let (a, b) = self.bin64()?;
                let c = self.trapped64(i64_rem_s(a, b))?;
                self.put(c)
            },
            Op::I64RemU => {
                let (a, b) = self.bin64()?;
                let c = self.trapped64(i64_rem_u(a, b))?;
                self.put(c)
            },
            Op::I64And => {
                let (a, b) = self.bin64()?;
                self.put(Cell::from_u64(i64_and(a, b)))
            },
            Op::I64Or => {
                let (a, b) = self.bin64()?;
                self.put(Cell::from_u64(i64_or(a, b)))
            },
            Op::I64Xor => {
                let (a, b) = self.bin64()?;
                self.put(Cell::from_u64(i64_xor(a, b)))
            },
            Op::I64Shl => {
                let (a, b) = self.bin64()?;
                self.put(Cell::from_u64(i64_shl(a, b)))
            },
            Op::I64ShrS => {
                let (a, b) = self.bin64()?;
                let x = i64_shr_s(a, b);
                proof { lemma_bits64_signed64(x); }
                self.put(Cell::from_u64(x))
            },
            Op::I64ShrU => {
                let (a, b) = self.bin64()?;
                self.put(Cell::from_u64(i64_shr_u(a, b)))
            },
            Op::I64Rotl => {
                let (a, b) = self.bin64()?;
                self.put(Cell::from_u64(i64_rotl(a, b)))
            },
            Op::I64Rotr => {
                let (a, b) = self.bin64()?;
                self.put(Cell::from_u64(i64_rotr(a, b)))
            },
            Op::I64Eq => {
                let (a, b) = self.bin64()?;
                self.put(Cell::from_u32(i64_eq(a, b)))
            },
            Op::I64Ne => {
                let (a, b) = self.bin64()?;
                self.put(Cell::from_u32(i64_ne(a, b)))
            },
            Op::I64LtS => {
                let (a, b) = self.bin64()?;
                self.put(Cell::from_u32(i64_lt_s(a, b)))
            },
            Op::I64LtU => {
                let (a, b) = self.bin64()?;
                self.put(Cell::from_u32(i64_lt_u(a, b)))
            },
            Op::I64GtS => {
                let (a, b) = self.bin64()?;
                self.put(Cell::from_u32(i64_gt_s(a, b)))
            },
            Op::I64GtU => {
                let (a, b) = self.bin64()?;
                self.put(Cell::from_u32(i64_gt_u(a, b)))
            },
            Op::I64LeS => {
                let (a, b) = self.bin64()?;
                self.put(Cell::from_u32(i64_le_s(a, b)))
            },
            Op::I64LeU => {
                let (a, b) = self.bin64()?;
                self.put(Cell::from_u32(i64_le_u(a, b)))
            },
            Op::I64GeS => {
                let (a, b) = self.bin64()?;
                self.put(Cell::from_u32(i64_ge_s(a, b)))
            },
            Op::I64GeU => {
                let (a, b) = self.bin64()?;
                self.put(Cell::from_u32(i64_ge_u(a, b)))
            },
            Op::I64Clz => {
                let c = self.un1()?;
                self.put(Cell::from_u64(i64_clz(c.low64())))
            },
            Op::I64Ctz => {
                let c = self.un1()?;
                self.put(Cell::from_u64(i64_ctz(c.low64())))
            },
            Op::I64Popcnt => {
                let c = self.un1()?;
                self.put(Cell::from_u64(i64_popcnt(c.low64())))
            },
            Op::I64Extend8S => {
                let c = self.un1()?;
                let x = i64_extend8_s(c.low64());
                proof { lemma_bits64_signed64(x); }
                self.put(Cell::from_u64(x))
            },
            Op::I64Extend16S => {
                let c = self.un1()?;
                let x = i64_extend16_s(c.low64());
                proof { lemma_bits64_signed64(x); }
                self.put(Cell::from_u64(x))
            },
            Op::I64Extend32S => {
                let c = self.un1()?;
                let x = i64_extend32_s(c.low64());
                proof { lemma_bits64_signed64(x); }
                self.put(Cell::from_u64(x))
            },
            Op::I64Eqz => {
                let c = self.un1()?;
                self.put(Cell::from_u32(i64_eqz(c.low64())))
            },
            Op::I32WrapI64 => {
                let c = self.un1()?;
                self.put(Cell::from_u32(i32_wrap_i64(c.low64())))
            },
            Op::I64ExtendI32S => {
                let c = self.un1()?;
                let x = i64_extend_i32_s(c.low32());
                proof { lemma_bits64_signed64(x); }
                self.put(Cell::from_u64(x))
            },
            Op::I64ExtendI32U => {
                let c = self.un1()?;
                self.put(Cell::from_u64(i64_extend_i32_u(c.low32())))
            },
            Op::I32TruncF32S => {
                let c = self.un1()?;
                let r: Result<Cell, Trap> = match i32_trunc_f32_s(c.low32()) { Ok(x) => Ok(Cell::from_u32(x)), Err(t) => Err(t) };
                match r {
                    Ok(v) => self.put(v),
                    Err(t) => Err(Fault::Trap(t)),
                }
            },
            Op::I32TruncF32U => {
                let c = self.un1()?;
                let r: Result<Cell, Trap> = match i32_trunc_f32_u(c.low32()) { Ok(x) => Ok(Cell::from_u32(x)), Err(t) => Err(t) };
                match r {
                    Ok(v) => self.put(v),
                    Err(t) => Err(Fault::Trap(t)),
                }
            },
            Op::I32TruncF64S => {
                let c = self.un1()?;
                let r: Result<Cell, Trap> = match i32_trunc_f64_s(c.low64()) { Ok(x) => Ok(Cell::from_u32(x)), Err(t) => Err(t) };
                match r {
                    Ok(v) => self.put(v),
                    Err(t) => Err(Fault::Trap(t)),
                }
            },
            Op::I32TruncF64U => {
                let c = self.un1()?;
                let r: Result<Cell, Trap> = match i32_trunc_f64_u(c.low64()) { Ok(x) => Ok(Cell::from_u32(x)), Err(t) => Err(t) };
                match r {
                    Ok(v) => self.put(v),
                    Err(t) => Err(Fault::Trap(t)),
                }
            },
            Op::I64TruncF32S => {
                let c = self.un1()?;
                let r: Result<Cell, Trap> = match i64_trunc_f32_s(c.low32()) { Ok(x) => Ok(Cell::from_u64(x)), Err(t) => Err(t) };
                match r {
                    Ok(v) => self.put(v),
                    Err(t) => Err(Fault::Trap(t)),
                }
            },
            Op::I64TruncF32U => {
                let c = self.un1()?;
                let r: Result<Cell, Trap> = match i64_trunc_f32_u(c.low32()) { Ok(x) => Ok(Cell::from_u64(x)), Err(t) => Err(t) };
                match r {
                    Ok(v) => self.put(v),
                    Err(t) => Err(Fault::Trap(t)),
                }
            },
            Op::I64TruncF64S => {
                let c = self.un1()?;
                let r: Result<Cell, Trap> = match i64_trunc_f64_s(c.low64()) { Ok(x) => Ok(Cell::from_u64(x)), Err(t) => Err(t) };
                match r {
                    Ok(v) => self.put(v),
                    Err(t) => Err(Fault::Trap(t)),
                }
            },
            Op::I64TruncF64U => {
                let c = self.un1()?;
                let r: Result<Cell, Trap> = match i64_trunc_f64_u(c.low64()) { Ok(x) => Ok(Cell::from_u64(x)), Err(t) => Err(t) };
                match r {
                    Ok(v) => self.put(v),
                    Err(t) => Err(Fault::Trap(t)),
                }
            },
            Op::I32TruncSatF32S => {
                let c = self.un1()?;
                self.put(Cell::from_u32(i32_trunc_sat_f32_s(c.low32())))
            },
            Op::I32TruncSatF32U => {
                let c = self.un1()?;
                self.put(Cell::from_u32(i32_trunc_sat_f32_u(c.low32())))
            },
            Op::I32TruncSatF64S => {
                let c = self.un1()?;
                self.put(Cell::from_u32(i32_trunc_sat_f64_s(c.low64())))
            },
            Op::I32TruncSatF64U => {
                let c = self.un1()?;
                self.put(Cell::from_u32(i32_trunc_sat_f64_u(c.low64())))
            },
            Op::I64TruncSatF32S => {
                let c = self.un1()?;
                self.put(Cell::from_u64(i64_trunc_sat_f32_s(c.low32())))
            },
            Op::I64TruncSatF32U => {
                let c = self.un1()?;
                self.put(Cell::from_u64(i64_trunc_sat_f32_u(c.low32())))
            },
            Op::I64TruncSatF64S => {
                let c = self.un1()?;
                self.put(Cell::from_u64(i64_trunc_sat_f64_s(c.low64())))
            },
            Op::I64TruncSatF64U => {
                let c = self.un1()?;
                self.put(Cell::from_u64(i64_trunc_sat_f64_u(c.low64())))
            },
            Op::I32ReinterpretF32 => {
                let c = self.un1()?;
                self.put(Cell::from_u32(c.low32()))
            },
            Op::F32ReinterpretI32 => {
                let c = self.un1()?;
                self.put(Cell::from_u32(c.low32()))
            },
            Op::I64ReinterpretF64 => {
                let c = self.un1()?;
                self.put(Cell::from_u64(c.low64()))
            },
            Op::F64ReinterpretI64 => {
                let c = self.un1()?;
                self.put(Cell::from_u64(c.low64()))
            },
            Op::F32Abs => {
                let c = self.un1()?;
                self.put(Cell::from_u32(c.low32() & 0x7fff_ffff))
            },
            Op::F32Neg => {
                let c = self.un1()?;
                self.put(Cell::from_u32(c.low32() ^ 0x8000_0000))
            },
            Op::F64Abs => {
                let c = self.un1()?;
                self.put(Cell::from_u64(c.low64() & 0x7fff_ffff_ffff_ffff))
            },
            Op::F64Neg => {
                let c = self.un1()?;
                self.put(Cell::from_u64(c.low64() ^ 0x8000_0000_0000_0000))
            },
            Op::F32Copysign => {
                let (a, b) = self.pop2_cells()?;
                proof { assert(self.values@ =~= pop_k(s, 2)); assert(self.shadow@ =~= pop_k(old(self).shadow@, 2)); }
                self.put(Cell::from_u32((a.low32() & 0x7fff_ffff) | (b.low32() & 0x8000_0000)))
            },
            Op::F64Copysign => {
                let (a, b) = self.pop2_cells()?;
                proof { assert(self.values@ =~= pop_k(s, 2)); assert(self.shadow@ =~= pop_k(old(self).shadow@, 2)); }
                self.put(Cell::from_u64((a.low64() & 0x7fff_ffff_ffff_ffff) | (b.low64() & 0x8000_0000_0000_0000)))
            },
            Op::F32Ceil | Op::F32Floor | Op::F32Trunc | Op::F32Nearest | Op::F32Sqrt | Op::F64Ceil | Op::F64Floor | Op::F64Trunc | Op::F64Nearest | Op::F64Sqrt | Op::F32ConvertI32S | Op::F32ConvertI32U | Op::F32ConvertI64S | Op::F32ConvertI64U | Op::F32DemoteF64 | Op::F64ConvertI32S | Op::F64ConvertI32U | Op::F64ConvertI64S | Op::F64ConvertI64U | Op::F64PromoteF32 => {
                let c = self.un1()?;
                Ok(NumOutcome::Float(FloatRequest { op: *op, a: c.low64(), b: 0 }))
            },
            Op::F32Eq | Op::F32Ne | Op::F32Lt | Op::F32Gt | Op::F32Le | Op::F32Ge | Op::F32Add | Op::F32Sub | Op::F32Mul | Op::F32Div | Op::F32Min | Op::F32Max | Op::F64Eq | Op::F64Ne | Op::F64Lt | Op::F64Gt | Op::F64Le | Op::F64Ge | Op::F64Add | Op::F64Sub | Op::F64Mul | Op::F64Div | Op::F64Min | Op::F64Max => {
                let (a, b) = self.bin64()?;
                Ok(NumOutcome::Float(FloatRequest { op: *op, a, b }))
            },
            Op::Simd(v) => {
                self.exec_simd(v)?;
                Ok(NumOutcome::Done)
            },
            _ => Err(Fault::Invalid),
        }
    }
}

} // verus!
