//! The SIMD instructions that only compute: their operand counts, results, and their effect on
//! the operand stack.
use vstd::prelude::*;
use crate::exec::cell::{Cell, RefTag, low32, low64, cell32, cell64};
use crate::exec::int32::bits32;
use crate::exec::numeric::{NumEffect, pop_k};
use crate::exec::stack::{Execution, Fault, replace_top};
use crate::exec::simd::lanes::{Shape, lane_count, lane, count};
use crate::exec::simd::lane_ops::{signed_lane, to_signed};
use crate::exec::simd::vector::{SimdOp, is_simd_memory, narrower, wider, map2, map1, shift_lanes, splat, replace_lane, all_true,
    bitmask_upto, shuffle_ok, shuffle, swizzle, narrow, extend, ext_add_pairwise, ext_mul, dot, dot_add, q15mulr, lanes_of,
    map2_exec, map1_exec, shift_exec, splat_exec, replace_lane_exec, all_true_exec, bitmask_exec, shuffle_exec, swizzle_exec,
    narrow_exec, extend_exec, ext_add_pairwise_exec, ext_mul_exec, dot_exec, dot_add_exec, q15mulr_exec};

verus! {

/// How many operands a computing SIMD instruction pops.
pub open spec fn simd_arity(op: SimdOp) -> nat {
    match op {
        SimdOp::Const(_) => 0,
        SimdOp::Not | SimdOp::AnyTrue | SimdOp::Un(_, _) | SimdOp::AllTrue(_) | SimdOp::Bitmask(_) | SimdOp::Splat(_)
        | SimdOp::ExtractLane(_, _, _) | SimdOp::Extend(_, _, _) | SimdOp::ExtAddPairwise(_, _) => 1,
        SimdOp::Bitselect | SimdOp::DotAdd => 3,
        _ => 2,
    }
}

/// Lane `l` of `v` as a scalar: `i64` for 64-bit lanes, else `i32`, sign- or zero-extended.
pub open spec fn extract_lane(v: u128, s: Shape, signed: bool, l: int) -> Cell {
    let x = lane(v, s, l);
    match s {
        Shape::I64x2 => cell64(x as u64),
        Shape::I32x4 => cell32(x as u32),
        _ => cell32(if signed { bits32(signed_lane(x, s)) } else { x as u32 }),
    }
}

/// The result of a computing SIMD instruction from its operands `args` (deepest first), or
/// `None` for an immediate out of range or a shape the instruction has no form for.
pub open spec fn simd_value(op: SimdOp, args: Seq<Cell>) -> Option<Cell> {
    let a = args[0].0;
    let b = args[1].0;
    let c = args[2].0;
    match op {
        SimdOp::Const(x) => Some(Cell(x)),
        SimdOp::Not => Some(Cell(!a)),
        SimdOp::And => Some(Cell(a & b)),
        SimdOp::Or => Some(Cell(a | b)),
        SimdOp::Xor => Some(Cell(a ^ b)),
        SimdOp::AndNot => Some(Cell(a & !b)),
        SimdOp::Bitselect => Some(Cell((a & c) | (b & !c))),
        SimdOp::AnyTrue => Some(cell32(if a != 0 { 1 } else { 0 })),
        SimdOp::Bin(s, k) => Some(Cell(map2(a, b, s, k))),
        SimdOp::Un(s, k) => Some(Cell(map1(a, s, k))),
        SimdOp::Shift(s, k) => Some(Cell(shift_lanes(a, s, k, low32(args[1])))),
        SimdOp::AllTrue(s) => Some(cell32(if all_true(a, s) { 1 } else { 0 })),
        SimdOp::Bitmask(s) => Some(cell32(bitmask_upto(a, s, lane_count(s)) as u32)),
        SimdOp::Splat(s) => Some(Cell(splat(low64(args[0]) as nat, s))),
        SimdOp::ExtractLane(s, signed, l) => if l < lane_count(s) { Some(extract_lane(a, s, signed, l as int)) } else { None },
        SimdOp::ReplaceLane(s, l) => if l < lane_count(s) { Some(Cell(replace_lane(a, s, l as int, low64(args[1]) as nat))) } else { None },
        SimdOp::Shuffle(idx) => if shuffle_ok(idx) { Some(Cell(shuffle(a, b, idx))) } else { None },
        SimdOp::Swizzle => Some(Cell(swizzle(a, b))),
        SimdOp::Narrow(s, signed) => match wider(s) {
            Some(wi) => Some(Cell(narrow(a, b, s, wi, signed))),
            None => None,
        },
        SimdOp::Extend(s, high, signed) => match narrower(s) {
            Some(na) => Some(Cell(extend(a, s, na, high, signed))),
            None => None,
        },
        SimdOp::ExtAddPairwise(s, signed) => match narrower(s) {
            Some(na) => Some(Cell(ext_add_pairwise(a, s, na, signed))),
            None => None,
        },
        SimdOp::ExtMul(s, high, signed) => match narrower(s) {
            Some(na) => Some(Cell(ext_mul(a, b, s, na, high, signed))),
            None => None,
        },
        SimdOp::Q15MulrSat => Some(Cell(q15mulr(a, b))),
        SimdOp::Dot(s) => match narrower(s) {
            Some(na) => Some(Cell(dot(a, b, s, na))),
            None => None,
        },
        SimdOp::DotAdd => Some(Cell(dot_add(a, b, c))),
        _ => None,
    }
}

/// The effect of a computing SIMD instruction on operand stack `st`: its operands replaced by
/// its result.
pub open spec fn simd_effect(op: SimdOp, st: Seq<Cell>) -> NumEffect {
    let k = simd_arity(op);
    let n = st.len();
    if is_simd_memory(op) || n < k || n - k >= u32::MAX {
        NumEffect::Fail(Fault::Invalid)
    } else {
        match simd_value(op, st.subrange(n - k, n as int)) {
            Some(c) => NumEffect::Push(k, c),
            None => NumEffect::Fail(Fault::Invalid),
        }
    }
}

/// The operands a SIMD instruction pops and the results it pushes.
pub open spec fn simd_stack_effect(op: SimdOp) -> (u32, u32) {
    match op {
        SimdOp::Store(_) | SimdOp::StoreLane(_, _, _) => (2, 0),
        SimdOp::LoadLane(_, _, _) => (2, 1),
        SimdOp::Load(_) | SimdOp::LoadExtend(_, _, _) | SimdOp::LoadSplat(_, _) | SimdOp::LoadZero(_, _) => (1, 1),
        _ => (simd_arity(op) as u32, 1),
    }
}

pub fn simd_stack_effect_exec(op: &SimdOp) -> (r: (u32, u32))
    ensures
        r == simd_stack_effect(*op),
{
    match op {
        SimdOp::Store(_) | SimdOp::StoreLane(_, _, _) => (2, 0),
        SimdOp::LoadLane(_, _, _) => (2, 1),
        SimdOp::Load(_) | SimdOp::LoadExtend(_, _, _) | SimdOp::LoadSplat(_, _) | SimdOp::LoadZero(_, _) => (1, 1),
        _ => (simd_arity_exec(op) as u32, 1),
    }
}

fn simd_arity_exec(op: &SimdOp) -> (k: usize)
    ensures
        k == simd_arity(*op),
{
    match op {
        SimdOp::Const(_) => 0,
        SimdOp::Not | SimdOp::AnyTrue | SimdOp::Un(_, _) | SimdOp::AllTrue(_) | SimdOp::Bitmask(_) | SimdOp::Splat(_)
        | SimdOp::ExtractLane(_, _, _) | SimdOp::Extend(_, _, _) | SimdOp::ExtAddPairwise(_, _) => 1,
        SimdOp::Bitselect | SimdOp::DotAdd => 3,
        _ => 2,
    }
}

/// Whether a SIMD instruction accesses memory.
pub fn simd_memory(op: &SimdOp) -> (b: bool)
    ensures
        b == is_simd_memory(*op),
{
    match op {
        SimdOp::Load(_) | SimdOp::Store(_) | SimdOp::LoadExtend(_, _, _) | SimdOp::LoadSplat(_, _) | SimdOp::LoadZero(_, _)
        | SimdOp::LoadLane(_, _, _) | SimdOp::StoreLane(_, _, _) => true,
        _ => false,
    }
}

fn narrower_exec(s: Shape) -> (r: Option<Shape>)
    ensures
        r == narrower(s),
{
    match s {
        Shape::I8x16 => None,
        Shape::I16x8 => Some(Shape::I8x16),
        Shape::I32x4 => Some(Shape::I16x8),
        Shape::I64x2 => Some(Shape::I32x4),
    }
}

fn wider_exec(s: Shape) -> (r: Option<Shape>)
    ensures
        r == wider(s),
{
    match s {
        Shape::I8x16 => Some(Shape::I16x8),
        Shape::I16x8 => Some(Shape::I32x4),
        Shape::I32x4 => Some(Shape::I64x2),
        Shape::I64x2 => None,
    }
}

/// Lane `l` of `v` as a scalar cell.
pub fn extract_lane_exec(v: u128, s: Shape, signed: bool, l: usize) -> (c: Cell)
    requires
        l < lane_count(s),
    ensures
        c == extract_lane(v, s, signed, l as int),
{
    let ls = lanes_of(v, s);
    let x = ls[l];
    match s {
        Shape::I64x2 => Cell::from_u64(x),
        Shape::I32x4 => Cell::from_u32(x as u32),
        _ => if signed {
            let i = to_signed(x, s);
            let (q, r): (i128, i128) = if i < 0 { (-1, i + 0x1_0000_0000) } else { (0, i) };
            proof { vstd::arithmetic::div_mod::lemma_fundamental_div_mod_converse(i as int, 0x1_0000_0000, q as int, r as int); }
            Cell::from_u32(r as u32)
        } else {
            Cell::from_u32(x as u32)
        },
    }
}

/// The result of a computing SIMD instruction from its operands (deepest first).
pub fn simd_value_exec(op: &SimdOp, args: &Vec<Cell>) -> (r: Option<Cell>)
    requires
        args@.len() == simd_arity(*op),
        !is_simd_memory(*op),
    ensures
        r == simd_value(*op, args@),
{
    let ghost g = args@;
    match op {
        SimdOp::Const(x) => Some(Cell(*x)),
        SimdOp::Not => Some(Cell(!args[0].0)),
        SimdOp::And => Some(Cell(args[0].0 & args[1].0)),
        SimdOp::Or => Some(Cell(args[0].0 | args[1].0)),
        SimdOp::Xor => Some(Cell(args[0].0 ^ args[1].0)),
        SimdOp::AndNot => Some(Cell(args[0].0 & !args[1].0)),
        SimdOp::Bitselect => Some(Cell((args[0].0 & args[2].0) | (args[1].0 & !args[2].0))),
        SimdOp::AnyTrue => Some(Cell::from_u32(if args[0].0 != 0 { 1 } else { 0 })),
        SimdOp::Bin(s, k) => Some(Cell(map2_exec(args[0].0, args[1].0, *s, *k))),
        SimdOp::Un(s, k) => Some(Cell(map1_exec(args[0].0, *s, *k))),
        SimdOp::Shift(s, k) => Some(Cell(shift_exec(args[0].0, *s, *k, args[1].low32()))),
        SimdOp::AllTrue(s) => Some(Cell::from_u32(if all_true_exec(args[0].0, *s) { 1 } else { 0 })),
        SimdOp::Bitmask(s) => Some(Cell::from_u32(bitmask_exec(args[0].0, *s))),
        SimdOp::Splat(s) => Some(Cell(splat_exec(args[0].low64(), *s))),
        SimdOp::ExtractLane(s, signed, l) => if (*l as usize) < count(*s) {
            Some(extract_lane_exec(args[0].0, *s, *signed, *l as usize))
        } else {
            None
        },
        SimdOp::ReplaceLane(s, l) => if (*l as usize) < count(*s) {
            Some(Cell(replace_lane_exec(args[0].0, *s, *l as usize, args[1].low64())))
        } else {
            None
        },
        SimdOp::Shuffle(idx) => match shuffle_exec(args[0].0, args[1].0, *idx) {
            Some(v) => Some(Cell(v)),
            None => None,
        },
        SimdOp::Swizzle => Some(Cell(swizzle_exec(args[0].0, args[1].0))),
        SimdOp::Narrow(s, signed) => match wider_exec(*s) {
            Some(wi) => Some(Cell(narrow_exec(args[0].0, args[1].0, *s, wi, *signed))),
            None => None,
        },
        SimdOp::Extend(s, high, signed) => match narrower_exec(*s) {
            Some(na) => Some(Cell(extend_exec(args[0].0, *s, na, *high, *signed))),
            None => None,
        },
        SimdOp::ExtAddPairwise(s, signed) => match narrower_exec(*s) {
            Some(na) => Some(Cell(ext_add_pairwise_exec(args[0].0, *s, na, *signed))),
            None => None,
        },
        SimdOp::ExtMul(s, high, signed) => match narrower_exec(*s) {
            Some(na) => Some(Cell(ext_mul_exec(args[0].0, args[1].0, *s, na, *high, *signed))),
            None => None,
        },
        SimdOp::Q15MulrSat => Some(Cell(q15mulr_exec(args[0].0, args[1].0))),
        SimdOp::Dot(s) => match narrower_exec(*s) {
            Some(na) => Some(Cell(dot_exec(args[0].0, args[1].0, *s, na))),
            None => None,
        },
        SimdOp::DotAdd => Some(Cell(dot_add_exec(args[0].0, args[1].0, args[2].0))),
        _ => None,
    }
}

impl Execution {
    /// Pops the top `k` cells, returning them deepest first.
    fn pop_cells(&mut self, k: usize) -> (r: Vec<Cell>)
        requires
            old(self).wf(),
            k <= old(self).values@.len(),
        ensures
            final(self).wf(),
            final(self).frames@ == old(self).frames@,
            r@ == old(self).values@.subrange(old(self).values@.len() - k, old(self).values@.len() as int),
            final(self).values@ == pop_k(old(self).values@, k as nat),
            final(self).shadow@ == pop_k(old(self).shadow@, k as nat),
    {
        let n = self.values.len();
        let mut r: Vec<Cell> = Vec::new();
        let mut i: usize = n - k;
        while i < n
            invariant
                k <= n,
                n - k <= i <= n,
                n == self.values@.len(),
                self.values@ == old(self).values@,
                r@ == old(self).values@.subrange(n - k, i as int),
            decreases n - i,
        {
            r.push(self.values[i]);
            i = i + 1;
            proof { assert(r@ =~= old(self).values@.subrange(n - k, i as int)); }
        }
        let mut j: usize = 0;
        while j < k
            invariant
                j <= k <= n,
                n == old(self).values@.len(),
                n == old(self).shadow@.len(),
                self.wf(),
                self.frames@ == old(self).frames@,
                self.values@ == pop_k(old(self).values@, j as nat),
                self.shadow@ == pop_k(old(self).shadow@, j as nat),
            decreases k - j,
        {
            let _ = self.pop_tagged();
            proof {
                assert(pop_k(old(self).values@, j as nat).drop_last() =~= pop_k(old(self).values@, (j + 1) as nat));
                assert(pop_k(old(self).shadow@, j as nat).drop_last() =~= pop_k(old(self).shadow@, (j + 1) as nat));
            }
            j = j + 1;
        }
        r
    }

    /// Executes a computing SIMD instruction: pops its operands and pushes its result.
    pub fn exec_simd(&mut self, op: &SimdOp) -> (r: Result<(), Fault>)
        requires
            old(self).wf(),
        ensures
            final(self).wf(),
            final(self).frames@ == old(self).frames@,
            match simd_effect(*op, old(self).values@) {
                NumEffect::Push(k, c) => r is Ok
                    && final(self).values@ == replace_top(old(self).values@, k, c)
                    && final(self).shadow@ == pop_k(old(self).shadow@, k).push(RefTag::NoRef),
                NumEffect::Fail(f) => r == Err::<(), Fault>(f),
                NumEffect::Request(_, _) => false,
            },
    {
        let k = simd_arity_exec(op);
        let n = self.values.len();
        if simd_memory(op) || n < k || n - k >= 0xffff_ffff {
            return Err(Fault::Invalid);
        }
        let args = self.pop_cells(k);
        match simd_value_exec(op, &args) {
            Some(c) => {
                let _ = self.push_scalar(c);
                Ok(())
            },
            None => Err(Fault::Invalid),
        }
    }
}

} // verus!
