//! The compiler from structured control flow to the flat instruction set: every branch is
//! resolved to a [`BranchTarget`] (target instruction, operands kept, operands dropped) by
//! tracking the operand-stack height of each block.
use vstd::prelude::*;
use crate::value::ValType;
use crate::exec::op::{BranchTarget, CastTarget, CompiledFunc, Op, TableRange};
use crate::exec::simd::compute::{simd_stack_effect, simd_stack_effect_exec};

verus! {

/// A block's signature arity: operands it takes and results it leaves.
#[derive(Copy, Clone, PartialEq, Eq, Structural, Debug)]
pub struct BlockArity {
    pub params: u32,
    pub results: u32,
}

/// A structured instruction, as a function body lists it.
#[derive(Clone, Debug)]
pub enum Instr {
    Block(BlockArity),
    Loop(BlockArity),
    If(BlockArity),
    Else,
    End,
    /// A branch to the label `depth` blocks out.
    Br(u32),
    BrIf(u32),
    /// `br_on_null` / `br_on_non_null` to the label `depth` blocks out.
    BrOnNull(u32),
    BrOnNonNull(u32),
    /// `br_on_cast` / `br_on_cast_fail` to the label `depth` blocks out.
    BrOnCast(u32, CastTarget),
    BrOnCastFail(u32, CastTarget),
    /// `br_table` with its label depths and default depth.
    BrTable(Vec<u32>, u32),
    Return,
    /// A tail call of function `f`.
    ReturnCall(u32),
    /// A tail call of the embedder's function `h`.
    ReturnCallHost(u32),
    /// `throw` of the instance's tag `t`.
    Throw(u32),
    ThrowRef,
    /// `return_call_indirect` of type `ty` through table `t`: `(ty, t)`.
    ReturnCallIndirect(u32, u32),
    /// `return_call_ref` of type `ty`.
    ReturnCallRef(u32),
    /// Any straight-line instruction.
    Plain(Op),
}

/// Why a body could not be compiled.
#[derive(Copy, Clone, PartialEq, Eq, Structural, Debug)]
pub enum CompileError {
    /// An `end` with no open block, or instructions after the body's final `end`.
    UnbalancedEnd,
    ElseWithoutIf,
    /// A branch to a label that is not open.
    DepthOutOfRange,
    /// The body ends with blocks still open.
    MissingEnd,
    /// A control instruction given as a straight-line one, or a call of an unknown function.
    BadInstruction,
    CodeTooLarge,
}

/// The operands an instruction pops and the results it pushes (`sigs` gives each function's
/// parameter and result counts, `host` each embedder function's); `None` for the control
/// instructions and unknown callees.
#[verifier::opaque]
pub open spec fn spec_stack_effect(op: Op, sigs: Seq<(u32, u32)>, host: Seq<(u32, u32)>, types: Seq<(u32, u32)>) -> Option<(u32, u32)> {
    match op {
        Op::Nop | Op::Unreachable => Some((0, 0)),
        Op::I32Const(_) | Op::I64Const(_) | Op::F32Const(_) | Op::F64Const(_) | Op::LocalGet(_) | Op::GlobalGet(_)
        | Op::MemorySize => Some((0, 1)),
        Op::Drop | Op::LocalSet(_) | Op::GlobalSet(_) => Some((1, 0)),
        Op::LocalTee(_) | Op::MemoryGrow => Some((1, 1)),
        Op::Select => Some((3, 1)),
        Op::MemoryFill | Op::MemoryCopy | Op::MemoryInit(_) => Some((3, 0)),
        Op::DataDrop(_) => Some((0, 0)),
        Op::Call(f) => if f < sigs.len() { Some(sigs[f as int]) } else { None },
        Op::CallHost(h) => if h < host.len() { Some(host[h as int]) } else { None },
        Op::CallIndirect(ty, _) => if ty < types.len() && types[ty as int].0 < u32::MAX { Some(((types[ty as int].0 + 1) as u32, types[ty as int].1)) } else { None },
        Op::CallRef(ty) => if ty < types.len() && types[ty as int].0 < u32::MAX { Some(((types[ty as int].0 + 1) as u32, types[ty as int].1)) } else { None },
        Op::RefNull(_) | Op::RefFunc(_) | Op::TableSize(_) => Some((0, 1)),
        Op::RefIsNull | Op::RefAsNonNull | Op::TableGet(_) | Op::RefTest(_) | Op::RefCast(_) | Op::AnyConvertExtern
        | Op::ExternConvertAny => Some((1, 1)),
        Op::TableSet(_) => Some((2, 0)),
        Op::TableGrow(_) => Some((2, 1)),
        Op::TableFill(_) | Op::TableCopy(_, _) | Op::TableInit(_, _) => Some((3, 0)),
        Op::ElemDrop(_) => Some((0, 0)),
        Op::ReturnCallIndirect(_, _) | Op::ReturnCallRef(_) => None,
        Op::Br(_) | Op::BrIf(_) | Op::BrIfNot(_) | Op::BrTable(_) | Op::BrOnNull(_) | Op::BrOnNonNull(_) | Op::Return
        | Op::ReturnCall(_) | Op::ReturnCallHost(_) | Op::Throw(_) | Op::ThrowRef | Op::BrOnCast(_, _) | Op::BrOnCastFail(_, _) => None,
        Op::I32Load(_) | Op::I64Load(_) | Op::F32Load(_) | Op::F64Load(_) | Op::I32Load8S(_) | Op::I32Load8U(_)
        | Op::I32Load16S(_) | Op::I32Load16U(_) | Op::I64Load8S(_) | Op::I64Load8U(_) | Op::I64Load16S(_)
        | Op::I64Load16U(_) | Op::I64Load32S(_) | Op::I64Load32U(_) => Some((1, 1)),
        Op::I32Store(_) | Op::I64Store(_) | Op::F32Store(_) | Op::F64Store(_) | Op::I32Store8(_) | Op::I32Store16(_)
        | Op::I64Store8(_) | Op::I64Store16(_) | Op::I64Store32(_) => Some((2, 0)),
        Op::I32Eq | Op::I32Ne | Op::I32LtS | Op::I32LtU | Op::I32GtS | Op::I32GtU | Op::I32LeS | Op::I32LeU | Op::I32GeS | Op::I32GeU | Op::I32Add | Op::I32Sub | Op::I32Mul | Op::I32DivS | Op::I32DivU | Op::I32RemS | Op::I32RemU | Op::I32And | Op::I32Or | Op::I32Xor | Op::I32Shl | Op::I32ShrS | Op::I32ShrU | Op::I32Rotl | Op::I32Rotr | Op::I64Add | Op::I64Sub | Op::I64Mul | Op::I64DivS | Op::I64DivU | Op::I64RemS | Op::I64RemU | Op::I64And | Op::I64Or | Op::I64Xor | Op::I64Shl | Op::I64ShrS | Op::I64ShrU | Op::I64Rotl | Op::I64Rotr | Op::I64Eq | Op::I64Ne | Op::I64LtS | Op::I64LtU | Op::I64GtS | Op::I64GtU | Op::I64LeS | Op::I64LeU | Op::I64GeS | Op::I64GeU | Op::F32Copysign | Op::F64Copysign | Op::F32Eq | Op::F32Ne | Op::F32Lt | Op::F32Gt | Op::F32Le | Op::F32Ge | Op::F32Add | Op::F32Sub | Op::F32Mul | Op::F32Div | Op::F32Min | Op::F32Max | Op::F64Eq | Op::F64Ne | Op::F64Lt | Op::F64Gt | Op::F64Le | Op::F64Ge | Op::F64Add | Op::F64Sub | Op::F64Mul | Op::F64Div | Op::F64Min | Op::F64Max => Some((2, 1)),
        Op::I32Eqz | Op::I32Clz | Op::I32Ctz | Op::I32Popcnt | Op::I32Extend8S | Op::I32Extend16S | Op::I64Clz | Op::I64Ctz | Op::I64Popcnt | Op::I64Extend8S | Op::I64Extend16S | Op::I64Extend32S | Op::I64Eqz | Op::I32WrapI64 | Op::I64ExtendI32S | Op::I64ExtendI32U | Op::I32TruncF32S | Op::I32TruncF32U | Op::I32TruncF64S | Op::I32TruncF64U | Op::I64TruncF32S | Op::I64TruncF32U | Op::I64TruncF64S | Op::I64TruncF64U | Op::I32TruncSatF32S | Op::I32TruncSatF32U | Op::I32TruncSatF64S | Op::I32TruncSatF64U | Op::I64TruncSatF32S | Op::I64TruncSatF32U | Op::I64TruncSatF64S | Op::I64TruncSatF64U | Op::I32ReinterpretF32 | Op::F32ReinterpretI32 | Op::I64ReinterpretF64 | Op::F64ReinterpretI64 | Op::F32Abs | Op::F32Neg | Op::F64Abs | Op::F64Neg | Op::F32Ceil | Op::F32Floor | Op::F32Trunc | Op::F32Nearest | Op::F32Sqrt | Op::F64Ceil | Op::F64Floor | Op::F64Trunc | Op::F64Nearest | Op::F64Sqrt | Op::F32ConvertI32S | Op::F32ConvertI32U | Op::F32ConvertI64S | Op::F32ConvertI64U | Op::F32DemoteF64 | Op::F64ConvertI32S | Op::F64ConvertI32U | Op::F64ConvertI64S | Op::F64ConvertI64U | Op::F64PromoteF32 => Some((1, 1)),
        Op::Simd(v) => Some(simd_stack_effect(v)),
    }
}

pub fn stack_effect(op: &Op, sigs: &[(u32, u32)], host: &[(u32, u32)], types: &[(u32, u32)]) -> (r: Option<(u32, u32)>)
    ensures
        r == spec_stack_effect(*op, sigs@, host@, types@),
{
    proof { reveal(spec_stack_effect); }
    match op {
        Op::Nop | Op::Unreachable => Some((0, 0)),
        Op::I32Const(_) | Op::I64Const(_) | Op::F32Const(_) | Op::F64Const(_) | Op::LocalGet(_) | Op::GlobalGet(_)
        | Op::MemorySize => Some((0, 1)),
        Op::Drop | Op::LocalSet(_) | Op::GlobalSet(_) => Some((1, 0)),
        Op::LocalTee(_) | Op::MemoryGrow => Some((1, 1)),
        Op::Select => Some((3, 1)),
        Op::MemoryFill | Op::MemoryCopy | Op::MemoryInit(_) => Some((3, 0)),
        Op::DataDrop(_) => Some((0, 0)),
        Op::Call(f) => if (*f as usize) < sigs.len() { Some(sigs[*f as usize]) } else { None },
        Op::CallHost(h) => if (*h as usize) < host.len() { Some(host[*h as usize]) } else { None },
        Op::CallIndirect(ty, _) | Op::CallRef(ty) => if (*ty as usize) < types.len() && types[*ty as usize].0 < 0xffff_ffff {
            Some((types[*ty as usize].0 + 1, types[*ty as usize].1))
        } else {
            None
        },
        Op::RefNull(_) | Op::RefFunc(_) | Op::TableSize(_) => Some((0, 1)),
        Op::RefIsNull | Op::RefAsNonNull | Op::TableGet(_) | Op::RefTest(_) | Op::RefCast(_) | Op::AnyConvertExtern
        | Op::ExternConvertAny => Some((1, 1)),
        Op::TableSet(_) => Some((2, 0)),
        Op::TableGrow(_) => Some((2, 1)),
        Op::TableFill(_) | Op::TableCopy(_, _) | Op::TableInit(_, _) => Some((3, 0)),
        Op::ElemDrop(_) => Some((0, 0)),
        Op::ReturnCallIndirect(_, _) | Op::ReturnCallRef(_) => None,
        Op::Br(_) | Op::BrIf(_) | Op::BrIfNot(_) | Op::BrTable(_) | Op::BrOnNull(_) | Op::BrOnNonNull(_) | Op::Return
        | Op::ReturnCall(_) | Op::ReturnCallHost(_) | Op::Throw(_) | Op::ThrowRef | Op::BrOnCast(_, _) | Op::BrOnCastFail(_, _) => None,
        Op::I32Load(_) | Op::I64Load(_) | Op::F32Load(_) | Op::F64Load(_) | Op::I32Load8S(_) | Op::I32Load8U(_)
        | Op::I32Load16S(_) | Op::I32Load16U(_) | Op::I64Load8S(_) | Op::I64Load8U(_) | Op::I64Load16S(_)
        | Op::I64Load16U(_) | Op::I64Load32S(_) | Op::I64Load32U(_) => Some((1, 1)),
        Op::I32Store(_) | Op::I64Store(_) | Op::F32Store(_) | Op::F64Store(_) | Op::I32Store8(_) | Op::I32Store16(_)
        | Op::I64Store8(_) | Op::I64Store16(_) | Op::I64Store32(_) => Some((2, 0)),
        Op::I32Eq | Op::I32Ne | Op::I32LtS | Op::I32LtU | Op::I32GtS | Op::I32GtU | Op::I32LeS | Op::I32LeU | Op::I32GeS | Op::I32GeU | Op::I32Add | Op::I32Sub | Op::I32Mul | Op::I32DivS | Op::I32DivU | Op::I32RemS | Op::I32RemU | Op::I32And | Op::I32Or | Op::I32Xor | Op::I32Shl | Op::I32ShrS | Op::I32ShrU | Op::I32Rotl | Op::I32Rotr | Op::I64Add | Op::I64Sub | Op::I64Mul | Op::I64DivS | Op::I64DivU | Op::I64RemS | Op::I64RemU | Op::I64And | Op::I64Or | Op::I64Xor | Op::I64Shl | Op::I64ShrS | Op::I64ShrU | Op::I64Rotl | Op::I64Rotr | Op::I64Eq | Op::I64Ne | Op::I64LtS | Op::I64LtU | Op::I64GtS | Op::I64GtU | Op::I64LeS | Op::I64LeU | Op::I64GeS | Op::I64GeU | Op::F32Copysign | Op::F64Copysign | Op::F32Eq | Op::F32Ne | Op::F32Lt | Op::F32Gt | Op::F32Le | Op::F32Ge | Op::F32Add | Op::F32Sub | Op::F32Mul | Op::F32Div | Op::F32Min | Op::F32Max | Op::F64Eq | Op::F64Ne | Op::F64Lt | Op::F64Gt | Op::F64Le | Op::F64Ge | Op::F64Add | Op::F64Sub | Op::F64Mul | Op::F64Div | Op::F64Min | Op::F64Max => Some((2, 1)),
        Op::I32Eqz | Op::I32Clz | Op::I32Ctz | Op::I32Popcnt | Op::I32Extend8S | Op::I32Extend16S | Op::I64Clz | Op::I64Ctz | Op::I64Popcnt | Op::I64Extend8S | Op::I64Extend16S | Op::I64Extend32S | Op::I64Eqz | Op::I32WrapI64 | Op::I64ExtendI32S | Op::I64ExtendI32U | Op::I32TruncF32S | Op::I32TruncF32U | Op::I32TruncF64S | Op::I32TruncF64U | Op::I64TruncF32S | Op::I64TruncF32U | Op::I64TruncF64S | Op::I64TruncF64U | Op::I32TruncSatF32S | Op::I32TruncSatF32U | Op::I32TruncSatF64S | Op::I32TruncSatF64U | Op::I64TruncSatF32S | Op::I64TruncSatF32U | Op::I64TruncSatF64S | Op::I64TruncSatF64U | Op::I32ReinterpretF32 | Op::F32ReinterpretI32 | Op::I64ReinterpretF64 | Op::F64ReinterpretI64 | Op::F32Abs | Op::F32Neg | Op::F64Abs | Op::F64Neg | Op::F32Ceil | Op::F32Floor | Op::F32Trunc | Op::F32Nearest | Op::F32Sqrt | Op::F64Ceil | Op::F64Floor | Op::F64Trunc | Op::F64Nearest | Op::F64Sqrt | Op::F32ConvertI32S | Op::F32ConvertI32U | Op::F32ConvertI64S | Op::F32ConvertI64U | Op::F32DemoteF64 | Op::F64ConvertI32S | Op::F64ConvertI32U | Op::F64ConvertI64S | Op::F64ConvertI64U | Op::F64PromoteF32 => Some((1, 1)),
        Op::Simd(v) => Some(simd_stack_effect_exec(v)),
    }
}

/// The jump target of a branch instruction.
pub open spec fn branch_of(op: Op) -> Option<BranchTarget> {
    match op {
        Op::Br(t) | Op::BrIf(t) | Op::BrIfNot(t) | Op::BrOnNull(t) | Op::BrOnNonNull(t) | Op::BrOnCast(t, _)
        | Op::BrOnCastFail(t, _) => Some(t),
        _ => None,
    }
}

/// Branch instruction `op` jumping by `t` instead.
pub open spec fn with_branch_target(op: Op, t: BranchTarget) -> Op {
    match op {
        Op::Br(_) => Op::Br(t),
        Op::BrIf(_) => Op::BrIf(t),
        Op::BrIfNot(_) => Op::BrIfNot(t),
        Op::BrOnNull(_) => Op::BrOnNull(t),
        Op::BrOnNonNull(_) => Op::BrOnNonNull(t),
        Op::BrOnCast(_, c) => Op::BrOnCast(t, c),
        Op::BrOnCastFail(_, c) => Op::BrOnCastFail(t, c),
        other => other,
    }
}

fn set_branch_target(op: Op, t: BranchTarget) -> (r: Op)
    ensures
        r == with_branch_target(op, t),
{
    match op {
        Op::Br(_) => Op::Br(t),
        Op::BrIf(_) => Op::BrIf(t),
        Op::BrIfNot(_) => Op::BrIfNot(t),
        Op::BrOnNull(_) => Op::BrOnNull(t),
        Op::BrOnNonNull(_) => Op::BrOnNonNull(t),
        Op::BrOnCast(_, c) => Op::BrOnCast(t, c),
        Op::BrOnCastFail(_, c) => Op::BrOnCastFail(t, c),
        other => other,
    }
}

/// An open block while compiling.
#[derive(Clone, Debug)]
pub struct Ctl {
    pub is_loop: bool,
    pub is_if: bool,
    /// Operand height at entry, below the block's parameters.
    pub height: u64,
    pub params: u32,
    pub results: u32,
    /// The loop's first instruction (its branch target).
    pub start: u32,
    /// The `if`'s jump to its `else` arm, until the `else` is seen.
    pub else_jump: Option<usize>,
    /// The instruction just past the block's `end` (the target of a branch out of a block
    /// that is not a loop).
    pub end: u32,
}

/// Where the compiler is: the code so far, the table, open blocks and the operand height.
pub struct Compiler {
    pub ops: Vec<Op>,
    pub tables: Vec<BranchTarget>,
    pub ctls: Vec<Ctl>,
    pub height: u64,
}

/// The branch target to the label `depth` blocks out of the open blocks `ctls`, from operand
/// height `height`: a loop's start or another block's end, the operands the label keeps (a
/// loop's parameters, another block's results) and those above them down to the label's entry
/// height to drop (saturated at `u32::MAX`). `None` for a label not open.
pub open spec fn spec_target(ctls: Seq<Ctl>, height: u64, depth: u32) -> Option<BranchTarget> {
    if depth >= ctls.len() {
        None
    } else {
        let ctl = ctls[ctls.len() - 1 - depth];
        let keep = if ctl.is_loop { ctl.params } else { ctl.results };
        let above: int = if height > ctl.height { height - ctl.height } else { 0 };
        let drop: int = if above > keep { above - keep } else { 0 };
        let pop: u32 = if drop > 0xffff_ffff { 0xffff_ffffu32 } else { drop as u32 };
        Some(BranchTarget { ip: if ctl.is_loop { ctl.start } else { ctl.end }, keep, pop })
    }
}

/// The `k`-th entry's label depth of a `br_table` with `depths` and `default`.
pub open spec fn table_depth(depths: Seq<u32>, default: u32, k: int) -> u32 {
    if k < depths.len() { depths[k] } else { default }
}

/// The targets of the first `n` entries of a `br_table`.
pub open spec fn table_targets(ctls: Seq<Ctl>, height: u64, depths: Seq<u32>, default: u32, n: int) -> Seq<BranchTarget> {
    Seq::new(n as nat, |k: int| spec_target(ctls, height, table_depth(depths, default, k))->Some_0)
}

/// Every entry of a `br_table` names an open label.
pub open spec fn table_in_range(depths: Seq<u32>, default: u32, open: nat) -> bool {
    forall|k: int| 0 <= k <= depths.len() ==> #[trigger] table_depth(depths, default, k) < open
}

/// `a + b`, saturated at `u64::MAX`.
pub open spec fn sat_add64(a: u64, b: u64) -> u64 {
    if a + b > u64::MAX { u64::MAX } else { (a + b) as u64 }
}

/// `a - b`, or zero when `b` is at least `a`.
pub open spec fn sat_sub64(a: u64, b: u64) -> u64 {
    if a > b { (a - b) as u64 } else { 0 }
}

/// Instruction count at which no more instructions are emitted.
pub const CODE_LIMIT: usize = 0xffff_fffc;

impl Compiler {
    pub open spec fn inv(&self) -> bool {
        &&& self.ops@.len() < u32::MAX - 2
        &&& self.tables@.len() < u32::MAX - 2
        &&& forall|i: int| 0 <= i < self.ops@.len() ==> match #[trigger] self.ops@[i] { Op::BrTable(r) => r.base + r.len < self.tables@.len(), _ => true }
        &&& forall|c: int| 0 <= c < self.ctls@.len() ==> (#[trigger] self.ctls@[c]).start <= self.ops@.len()
    }

    /// The label `depth` blocks out: whether it is a loop, its start and end, kept operand
    /// count, entry height.
    fn label(&self, depth: u32) -> (r: Option<(bool, u32, u32, u32, u64)>)
        ensures
            depth < self.ctls@.len() ==> ({
                let ctl = self.ctls@[self.ctls@.len() - 1 - depth];
                r == Some((ctl.is_loop, ctl.start, ctl.end, if ctl.is_loop { ctl.params } else { ctl.results }, ctl.height))
            }),
            depth >= self.ctls@.len() ==> r is None,
    {
        if depth as usize >= self.ctls.len() {
            return None;
        }
        let c = self.ctls.len() - 1 - depth as usize;
        let ctl = &self.ctls[c];
        let keep = if ctl.is_loop { ctl.params } else { ctl.results };
        Some((ctl.is_loop, ctl.start, ctl.end, keep, ctl.height))
    }

    /// The branch target to label `depth` from the current height.
    fn target(&self, depth: u32) -> (r: Result<BranchTarget, CompileError>)
        ensures
            r == match spec_target(self.ctls@, self.height, depth) {
                Some(t) => Ok::<BranchTarget, CompileError>(t),
                None => Err(CompileError::DepthOutOfRange),
            },
    {
        match self.label(depth) {
            None => Err(CompileError::DepthOutOfRange),
            Some((is_loop, start, end, keep, h)) => {
                let above = if self.height > h { self.height - h } else { 0 };
                let pop64 = if above > keep as u64 { above - keep as u64 } else { 0 };
                let pop = if pop64 > 0xffff_ffff { 0xffff_ffffu32 } else { pop64 as u32 };
                Ok(BranchTarget { ip: if is_loop { start } else { end }, keep, pop })
            },
        }
    }

    /// Appends an instruction.
    fn emit(&mut self, op: Op) -> (r: Result<usize, CompileError>)
        requires
            old(self).inv(),
            match op { Op::BrTable(r) => r.base + r.len < old(self).tables@.len(), _ => true },
        ensures
            final(self).inv(),
            final(self).ctls@ == old(self).ctls@,
            final(self).tables@ == old(self).tables@,
            final(self).height == old(self).height,
            r is Ok ==> r->Ok_0 == old(self).ops@.len() && final(self).ops@ == old(self).ops@.push(op),
            r is Err ==> r == Err::<usize, CompileError>(CompileError::CodeTooLarge),
            r is Err <==> old(self).ops@.len() >= CODE_LIMIT,
            r is Err ==> final(self).ops@ == old(self).ops@,
    {
        if self.ops.len() >= CODE_LIMIT {
            return Err(CompileError::CodeTooLarge);
        }
        let i = self.ops.len();
        let ghost before = self.ops@;
        self.ops.push(op);
        proof {
            assert forall|j: int| 0 <= j < self.ops@.len() implies match #[trigger] self.ops@[j] { Op::BrTable(r) => r.base + r.len < self.tables@.len(), _ => true } by {
                if j < before.len() { assert(self.ops@[j] == before[j]); }
            }
        }
        Ok(i)
    }

    /// Closes the top block.
    fn close_top(&mut self) -> (ctl: Ctl)
        requires
            old(self).inv(),
            old(self).ctls@.len() > 0,
        ensures
            final(self).inv(),
            final(self).ops@ == old(self).ops@,
            final(self).tables@ == old(self).tables@,
            final(self).height == old(self).height,
            final(self).ctls@ == old(self).ctls@.drop_last(),
            ctl == old(self).ctls@.last(),
    {
        match self.ctls.pop() {
            Some(c) => c,
            None => Ctl { is_loop: false, is_if: false, height: 0, params: 0, results: 0, start: 0, else_jump: None, end: 0 },
        }
    }

    /// Opens a block at the current position, ending at instruction `end`.
    fn open(&mut self, is_loop: bool, is_if: bool, a: BlockArity, else_jump: Option<usize>, end: u32)
        requires
            old(self).inv(),
        ensures
            final(self).inv(),
            final(self).ops@ == old(self).ops@,
            final(self).tables@ == old(self).tables@,
            final(self).ctls@.len() == old(self).ctls@.len() + 1,
            final(self).ctls@ == old(self).ctls@.push(Ctl {
                is_loop, is_if,
                height: sat_sub64(old(self).height, a.params as u64),
                params: a.params, results: a.results, start: old(self).ops@.len() as u32, else_jump, end }),
            final(self).height == old(self).height,
    {
        let h = if self.height > a.params as u64 { self.height - a.params as u64 } else { 0 };
        let start = self.ops.len() as u32;
        self.ctls.push(Ctl { is_loop, is_if, height: h, params: a.params, results: a.results, start, else_jump, end });
    }

    /// After an unconditional jump: the rest of the block is unreachable.
    fn unreachable_rest(&mut self)
        requires
            old(self).inv(),
        ensures
            final(self).inv(),
            final(self).ops@ == old(self).ops@,
            final(self).tables@ == old(self).tables@,
            final(self).ctls@ == old(self).ctls@,
            final(self).height == if old(self).ctls@.len() > 0 { old(self).ctls@.last().height } else { old(self).height },
    {
        if self.ctls.len() > 0 {
            self.height = self.ctls[self.ctls.len() - 1].height;
        }
    }

    fn pop_height(&mut self, n: u32)
        ensures
            final(self).ops@ == old(self).ops@,
            final(self).tables@ == old(self).tables@,
            final(self).ctls@ == old(self).ctls@,
            final(self).height == sat_sub64(old(self).height, n as u64),
    {
        self.height = if self.height > n as u64 { self.height - n as u64 } else { 0 };
    }

    /// The branch instruction `proto` (whose own target is ignored) to label `depth`.
    fn branch(&mut self, depth: u32, proto: Op) -> (r: Result<(), CompileError>)
        requires
            old(self).inv(),
            branch_of(proto) is Some,
        ensures
            final(self).inv(),
            final(self).ctls@ == old(self).ctls@,
            final(self).tables@ == old(self).tables@,
            final(self).height == old(self).height,
            depth >= old(self).ctls@.len() ==> r == Err::<(), CompileError>(CompileError::DepthOutOfRange),
            depth < old(self).ctls@.len() && old(self).ops@.len() >= CODE_LIMIT ==> r == Err::<(), CompileError>(CompileError::CodeTooLarge),
            depth < old(self).ctls@.len() && old(self).ops@.len() < CODE_LIMIT ==> r is Ok
                && final(self).ops@ == old(self).ops@.push(with_branch_target(proto, spec_target(old(self).ctls@, old(self).height, depth)->Some_0)),
    {
        let t = self.target(depth)?;
        let op = set_branch_target(proto, t);
        let _ = self.emit(op)?;
        Ok(())
    }

    /// A `br_table`: one table entry per case, then the default.
    fn branch_table(&mut self, depths: &Vec<u32>, default: u32) -> (r: Result<(), CompileError>)
        requires
            old(self).inv(),
        ensures
            final(self).inv(),
            final(self).ctls@ == old(self).ctls@,
            final(self).height == old(self).height,
            !(depths@.len() < 0xffff_fff0 && old(self).tables@.len() + depths@.len() < 0xffff_fff0)
                ==> r == Err::<(), CompileError>(CompileError::CodeTooLarge),
            depths@.len() < 0xffff_fff0 && old(self).tables@.len() + depths@.len() < 0xffff_fff0
                && !table_in_range(depths@, default, old(self).ctls@.len()) ==> r == Err::<(), CompileError>(CompileError::DepthOutOfRange),
            depths@.len() < 0xffff_fff0 && old(self).tables@.len() + depths@.len() < 0xffff_fff0
                && table_in_range(depths@, default, old(self).ctls@.len()) && old(self).ops@.len() >= CODE_LIMIT
                ==> r == Err::<(), CompileError>(CompileError::CodeTooLarge),
            depths@.len() < 0xffff_fff0 && old(self).tables@.len() + depths@.len() < 0xffff_fff0
                && table_in_range(depths@, default, old(self).ctls@.len()) && old(self).ops@.len() < CODE_LIMIT ==> {
                &&& r is Ok
                &&& final(self).tables@ == old(self).tables@ + table_targets(old(self).ctls@, old(self).height, depths@, default, depths@.len() + 1int)
                &&& final(self).ops@ == old(self).ops@.push(Op::BrTable(TableRange { base: old(self).tables@.len() as u32, len: depths@.len() as u32 }))
            },
    {
        if depths.len() as u64 >= 0xffff_fff0 || self.tables.len() as u64 >= 0xffff_fff0 - depths.len() as u64 {
            return Err(CompileError::CodeTooLarge);
        }
        let base = self.tables.len();
        let ghost ctls0 = self.ctls@;
        let ghost h0 = self.height;
        for k in 0..depths.len() + 1
            invariant
                self.inv(),
                self.tables@.len() == base + k,
                base + depths@.len() + 1 < u32::MAX - 2,
                base == old(self).tables@.len(),
                depths@.len() < 0xffff_fff0 && base + depths@.len() < 0xffff_fff0,
                ctls0 == old(self).ctls@,
                h0 == old(self).height,
                self.ctls@ == ctls0,
                self.height == h0,
                self.ops@ == old(self).ops@,
                self.tables@ == old(self).tables@ + table_targets(ctls0, h0, depths@, default, k as int),
                forall|j: int| 0 <= j < k ==> #[trigger] table_depth(depths@, default, j) < ctls0.len(),
        {
            let d = if k < depths.len() { depths[k] } else { default };
            proof { assert(d == table_depth(depths@, default, k as int)); }
            let t = match self.target(d) {
                Ok(x) => x,
                Err(e) => {
                    proof {
                        assert(!table_in_range(depths@, default, old(self).ctls@.len())) by {
                            assert(table_depth(depths@, default, k as int) >= ctls0.len());
                        }
                    }
                    return Err(e);
                },
            };
            let ghost before = *self;
            self.tables.push(t);
            proof {
                assert forall|j: int| 0 <= j < self.ops@.len() implies match #[trigger] self.ops@[j] { Op::BrTable(r) => r.base + r.len < self.tables@.len(), _ => true } by {
                    assert(self.ops@[j] == before.ops@[j]);
                }
                assert(self.tables@ =~= old(self).tables@ + table_targets(ctls0, h0, depths@, default, k + 1));
            }
        }
        proof {
            assert(table_in_range(depths@, default, old(self).ctls@.len())) by {
                assert forall|j: int| 0 <= j <= depths@.len() implies #[trigger] table_depth(depths@, default, j) < ctls0.len() by {}
            }
        }
        let _ = self.emit(Op::BrTable(TableRange { base: base as u32, len: depths.len() as u32 }))?;
        Ok(())
    }

    /// An instruction after which the rest of the block is unreachable.
    fn emit_then_stop(&mut self, op: Op) -> (r: Result<(), CompileError>)
        requires
            old(self).inv(),
            !(op is BrTable),
        ensures
            final(self).inv(),
            final(self).ctls@ == old(self).ctls@,
            final(self).tables@ == old(self).tables@,
            r is Err <==> old(self).ops@.len() >= CODE_LIMIT,
            r is Err ==> r == Err::<(), CompileError>(CompileError::CodeTooLarge),
            r is Ok ==> final(self).ops@ == old(self).ops@.push(op),
            r is Ok ==> final(self).height == if old(self).ctls@.len() > 0 { old(self).ctls@.last().height } else { old(self).height },
    {
        let _ = self.emit(op)?;
        self.unreachable_rest();
        Ok(())
    }

    /// `else`: the `then` arm jumps to the end of the `if`, and the `else` arm starts here.
    fn else_arm(&mut self) -> (r: Result<(), CompileError>)
        requires
            old(self).inv(),
        ensures
            final(self).inv(),
            final(self).ctls@.len() == old(self).ctls@.len(),
            ({
                let top = old(self).ctls@.last();
                let in_then = old(self).ctls@.len() > 0 && top.else_jump is Some && top.is_if;
                &&& !in_then ==> r == Err::<(), CompileError>(CompileError::ElseWithoutIf)
                &&& in_then && old(self).ops@.len() >= CODE_LIMIT ==> r == Err::<(), CompileError>(CompileError::CodeTooLarge)
                &&& in_then && old(self).ops@.len() < CODE_LIMIT ==> {
                    &&& r is Ok
                    &&& final(self).ops@ == old(self).ops@.push(Op::Br(spec_target(old(self).ctls@, old(self).height, 0)->Some_0))
                    &&& final(self).tables@ == old(self).tables@
                    &&& final(self).ctls@ == old(self).ctls@.drop_last().push(Ctl { is_loop: false, is_if: true, height: top.height,
                        params: top.params, results: top.results, start: top.start, else_jump: None, end: top.end })
                    &&& final(self).height == sat_add64(top.height, top.params as u64)
                }
            }),
    {
        if self.ctls.len() == 0 {
            return Err(CompileError::ElseWithoutIf);
        }
        let top = &self.ctls[self.ctls.len() - 1];
        match top.else_jump {
            Some(_) => {},
            None => return Err(CompileError::ElseWithoutIf),
        }
        if !top.is_if {
            return Err(CompileError::ElseWithoutIf);
        }
        let t = self.target(0)?;
        let _ = self.emit(Op::Br(t))?;
        let ctl = match self.ctls.pop() {
            Some(c) => c,
            None => return Err(CompileError::ElseWithoutIf),
        };
        self.height = ctl.height.saturating_add(ctl.params as u64);
        self.ctls.push(Ctl { is_loop: false, is_if: true, height: ctl.height, params: ctl.params, results: ctl.results, start: ctl.start,
            else_jump: None, end: ctl.end });
        Ok(())
    }
}

/// The control shape of a body prefix: one flag per open block (innermost last), set for an
/// `if` still waiting for its `else`; the instructions and `br_table` entries emitted so far.
pub type Shape = (Seq<bool>, nat, nat);

/// One more instruction of a body on shape `s`, or why it cannot be compiled: after the
/// function's own `end` nothing may follow; an `else` needs an `if` waiting for it; a branch
/// needs an open label; a straight-line instruction needs a known stack effect; and code
/// stops growing at [`CODE_LIMIT`] instructions (a `br_table` also bounds its entries).
pub open spec fn check_instr(s: Shape, i: Instr, sigs: Seq<(u32, u32)>, host: Seq<(u32, u32)>, types: Seq<(u32, u32)>) -> Result<Shape, CompileError> {
    let (open, ops, tables) = s;
    let too_large = ops >= CODE_LIMIT;
    if open.len() == 0 {
        Err(CompileError::UnbalancedEnd)
    } else {
        match i {
            Instr::Block(_) | Instr::Loop(_) => Ok((open.push(false), ops, tables)),
            Instr::If(_) => if too_large { Err(CompileError::CodeTooLarge) } else { Ok((open.push(true), ops + 1, tables)) },
            Instr::Else => if !open.last() { Err(CompileError::ElseWithoutIf) }
                else if too_large { Err(CompileError::CodeTooLarge) }
                else { Ok((open.drop_last().push(false), ops + 1, tables)) },
            Instr::End => Ok((open.drop_last(), ops, tables)),
            Instr::Br(d) | Instr::BrIf(d) | Instr::BrOnNull(d) | Instr::BrOnNonNull(d) | Instr::BrOnCast(d, _)
            | Instr::BrOnCastFail(d, _) => if d >= open.len() { Err(CompileError::DepthOutOfRange) }
                else if too_large { Err(CompileError::CodeTooLarge) }
                else { Ok((open, ops + 1, tables)) },
            Instr::BrTable(ds, def) => if !(ds@.len() < 0xffff_fff0 && tables + ds@.len() < 0xffff_fff0) { Err(CompileError::CodeTooLarge) }
                else if !table_in_range(ds@, def, open.len()) { Err(CompileError::DepthOutOfRange) }
                else if too_large { Err(CompileError::CodeTooLarge) }
                else { Ok((open, ops + 1, tables + ds@.len() + 1)) },
            Instr::Plain(op) => if spec_stack_effect(op, sigs, host, types) is None { Err(CompileError::BadInstruction) }
                else if too_large { Err(CompileError::CodeTooLarge) }
                else { Ok((open, ops + 1, tables)) },
            _ => if too_large { Err(CompileError::CodeTooLarge) } else { Ok((open, ops + 1, tables)) },
        }
    }
}

/// The shape after the first `k` instructions of `body`, starting inside the function's own
/// block, or the error of the first instruction that cannot be compiled.
pub open spec fn check_prefix(body: Seq<Instr>, k: int, sigs: Seq<(u32, u32)>, host: Seq<(u32, u32)>, types: Seq<(u32, u32)>) -> Result<Shape, CompileError>
    decreases k,
{
    if k <= 0 {
        Ok((seq![false], 0, 0))
    } else {
        match check_prefix(body, k - 1, sigs, host, types) {
            Ok(s) => check_instr(s, body[k - 1], sigs, host, types),
            Err(e) => Err(e),
        }
    }
}

/// Whether `body` compiles, or the first reason it does not: its instructions in turn, then
/// the function's own block must have ended.
pub open spec fn check_body(body: Seq<Instr>, sigs: Seq<(u32, u32)>, host: Seq<(u32, u32)>, types: Seq<(u32, u32)>) -> Result<(), CompileError> {
    match check_prefix(body, body.len() as int, sigs, host, types) {
        Ok((open, _, _)) => if open.len() > 0 { Err(CompileError::MissingEnd) } else { Ok(()) },
        Err(e) => Err(e),
    }
}

/// Whether instruction `i` of a body becomes a flat instruction (blocks, loops and `end`s do not).
pub open spec fn emits(i: Instr) -> bool {
    !(i is Block || i is Loop || i is End)
}

/// The instruction and table counts only grow along a body.
proof fn lemma_prefix_mono(body: Seq<Instr>, j: int, k: int, sigs: Seq<(u32, u32)>, host: Seq<(u32, u32)>, types: Seq<(u32, u32)>)
    requires
        0 <= j <= k,
        check_prefix(body, k, sigs, host, types) is Ok,
    ensures
        check_prefix(body, j, sigs, host, types) is Ok,
        check_prefix(body, j, sigs, host, types)->Ok_0.1 <= check_prefix(body, k, sigs, host, types)->Ok_0.1,
        check_prefix(body, j, sigs, host, types)->Ok_0.2 <= check_prefix(body, k, sigs, host, types)->Ok_0.2,
        j < k && emits(body[j]) ==> check_prefix(body, j, sigs, host, types)->Ok_0.1 < check_prefix(body, k, sigs, host, types)->Ok_0.1,
    decreases k - j,
{
    if j < k {
        if check_prefix(body, k - 1, sigs, host, types) is Err {
            lemma_check_prefix_err(body, k - 1, k, sigs, host, types);
        }
        lemma_prefix_mono(body, j, k - 1, sigs, host, types);
    }
}

/// Once a prefix fails, every longer prefix fails the same way.
proof fn lemma_check_prefix_err(body: Seq<Instr>, k: int, m: int, sigs: Seq<(u32, u32)>, host: Seq<(u32, u32)>, types: Seq<(u32, u32)>)
    requires
        0 <= k <= m,
        check_prefix(body, k, sigs, host, types) is Err,
    ensures
        check_prefix(body, m, sigs, host, types) == check_prefix(body, k, sigs, host, types),
    decreases m - k,
{
    if m > k {
        lemma_check_prefix_err(body, k, m - 1, sigs, host, types);
    }
}

/// How the compiler's open blocks match a shape: same count, the flag set exactly for an
/// `if` still waiting for its `else`.
pub open spec fn shape_of(c: &Compiler, s: Shape) -> bool {
    &&& s.0.len() == c.ctls@.len()
    &&& forall|j: int| 0 <= j < s.0.len() ==> #[trigger] s.0[j] == (c.ctls@[j].else_jump is Some)
    &&& forall|j: int| 0 <= j < c.ctls@.len() ==> (#[trigger] c.ctls@[j]).else_jump is Some ==> c.ctls@[j].is_if
    &&& s.1 == c.ops@.len()
    &&& s.2 == c.tables@.len()
}

/// Whether instruction `i` opens a block.
pub open spec fn opens(i: Instr) -> bool {
    i is Block || i is Loop || i is If
}

/// The number of blocks open after the first `j` instructions of `body` (the function's own
/// block counts, and is open at the start).
pub open spec fn open_count(body: Seq<Instr>, j: int) -> int
    decreases j,
{
    if j <= 0 {
        1
    } else {
        open_count(body, j - 1) + if opens(body[j - 1]) { 1int } else if body[j - 1] is End { -1int } else { 0int }
    }
}

/// The number of flat instructions the first `j` instructions of `body` become.
pub open spec fn ops_at(body: Seq<Instr>, j: int) -> int
    decreases j,
{
    if j <= 0 { 0 } else { ops_at(body, j - 1) + if emits(body[j - 1]) { 1int } else { 0int } }
}

/// From instruction `j` on, the first position at which at most `c` blocks are open: just past
/// the `end` of block `c` (the body's length when it never ends).
pub open spec fn close_after(body: Seq<Instr>, j: int, c: int) -> int
    decreases body.len() - j,
{
    if j >= body.len() || open_count(body, j) <= c { j } else { close_after(body, j + 1, c) }
}

/// From instruction `j` on, where the `then` arm of the `if` that opened block `c` ends: just
/// past its `else`, or just past its `end` when it has none.
pub open spec fn else_after(body: Seq<Instr>, j: int, c: int) -> int
    decreases body.len() - j,
{
    if j >= body.len() || open_count(body, j) <= c {
        j
    } else if body[j] is Else && open_count(body, j) == c + 1 {
        j + 1
    } else {
        else_after(body, j + 1, c)
    }
}

/// The flat instruction just past the `end` of the block the instruction `k` opens.
pub open spec fn block_end(body: Seq<Instr>, k: int) -> u32 {
    ops_at(body, close_after(body, k + 1, open_count(body, k))) as u32
}

/// The height after an unconditional jump: the entry height of the innermost open block.
pub open spec fn jump_height(ctls: Seq<Ctl>, h: u64) -> u64 {
    if ctls.len() > 0 { ctls.last().height } else { h }
}

/// The function's own block, ending just past the body's final `end`.
pub open spec fn func_ctl(body: Seq<Instr>, n_results: u32) -> Ctl {
    Ctl { is_loop: false, is_if: false, height: 0, params: 0, results: n_results, start: 0, else_jump: None,
        end: ops_at(body, close_after(body, 0, 0)) as u32 }
}

/// The open blocks and operand height after instruction `k` of `body`, from `ctls` and `h`
/// before it: a block, loop or `if` opens (an `if` after popping its condition, its `then` arm
/// starting after its jump), an `else` starts the `else` arm at the `if`'s entry height plus
/// its parameters, an `end` closes the block leaving its results, a branch pops what it tests,
/// an unconditional jump leaves the block's entry height, and a straight-line instruction pops
/// its operands and pushes its results (all saturating).
#[verifier::opaque]
pub open spec fn cstep(body: Seq<Instr>, k: int, ctls: Seq<Ctl>, h: u64, sigs: Seq<(u32, u32)>, host: Seq<(u32, u32)>,
    types: Seq<(u32, u32)>) -> (Seq<Ctl>, u64) {
    let n = ops_at(body, k);
    match body[k] {
        Instr::Block(a) => (ctls.push(Ctl { is_loop: false, is_if: false, height: sat_sub64(h, a.params as u64), params: a.params,
            results: a.results, start: n as u32, else_jump: None, end: block_end(body, k) }), h),
        Instr::Loop(a) => (ctls.push(Ctl { is_loop: true, is_if: false, height: sat_sub64(h, a.params as u64), params: a.params,
            results: a.results, start: n as u32, else_jump: None, end: block_end(body, k) }), h),
        Instr::If(a) => (ctls.push(Ctl { is_loop: false, is_if: true, height: sat_sub64(sat_sub64(h, 1), a.params as u64),
            params: a.params, results: a.results, start: (n + 1) as u32, else_jump: Some(n as usize), end: block_end(body, k) }),
            sat_sub64(h, 1)),
        Instr::Else => {
            let t = ctls.last();
            (ctls.drop_last().push(Ctl { is_loop: false, is_if: true, height: t.height, params: t.params, results: t.results,
                start: t.start, else_jump: None, end: t.end }), sat_add64(t.height, t.params as u64))
        },
        Instr::End => (ctls.drop_last(), sat_add64(ctls.last().height, ctls.last().results as u64)),
        Instr::Br(_) => (ctls, jump_height(ctls, h)),
        Instr::BrIf(_) | Instr::BrOnNonNull(_) => (ctls, sat_sub64(h, 1)),
        Instr::BrOnNull(_) => (ctls, sat_add64(sat_sub64(h, 1), 1)),
        Instr::BrOnCast(_, _) | Instr::BrOnCastFail(_, _) => (ctls, h),
        Instr::BrTable(_, _) => (ctls, jump_height(ctls, sat_sub64(h, 1))),
        Instr::Plain(op) => match spec_stack_effect(op, sigs, host, types) {
            Some((p, q)) => {
                let h2 = sat_add64(sat_sub64(h, p as u64), q as u64);
                (ctls, if op is Unreachable { jump_height(ctls, h2) } else { h2 })
            },
            None => (ctls, h),
        },
        _ => (ctls, jump_height(ctls, h)),
    }
}

/// The open blocks and operand height after the first `k` instructions of `body`.
pub open spec fn cstate(body: Seq<Instr>, k: int, n_results: u32, sigs: Seq<(u32, u32)>, host: Seq<(u32, u32)>,
    types: Seq<(u32, u32)>) -> (Seq<Ctl>, u64)
    decreases k,
{
    if k <= 0 {
        (seq![func_ctl(body, n_results)], 0u64)
    } else {
        let prev = cstate(body, k - 1, n_results, sigs, host, types);
        cstep(body, k - 1, prev.0, prev.1, sigs, host, types)
    }
}

/// The flat instruction that instruction `k` of `body` compiles to (with `tables` table entries
/// before it), from the open blocks and height before it: an `if` jumps, with nothing kept or
/// dropped, past its `then` arm when its condition is zero; an `else` jumps to the end of the
/// `if`; each branch jumps to its label's target (after popping what it tests); a `br_table` is
/// the range of its entries in the table; every other instruction is itself.
#[verifier::opaque]
pub open spec fn compiled_op(body: Seq<Instr>, k: int, n_results: u32, tables: nat, sigs: Seq<(u32, u32)>, host: Seq<(u32, u32)>,
    types: Seq<(u32, u32)>) -> Op {
    let st = cstate(body, k, n_results, sigs, host, types);
    let ctls = st.0;
    let h = st.1;
    match body[k] {
        Instr::If(_) => Op::BrIfNot(BranchTarget {
            ip: ops_at(body, else_after(body, k + 1, open_count(body, k))) as u32, keep: 0, pop: 0 }),
        Instr::Else => Op::Br(spec_target(ctls, h, 0)->Some_0),
        Instr::Br(d) => Op::Br(spec_target(ctls, h, d)->Some_0),
        Instr::BrIf(d) => Op::BrIf(spec_target(ctls, sat_sub64(h, 1), d)->Some_0),
        Instr::BrOnNull(d) => Op::BrOnNull(spec_target(ctls, sat_sub64(h, 1), d)->Some_0),
        Instr::BrOnNonNull(d) => Op::BrOnNonNull(spec_target(ctls, h, d)->Some_0),
        Instr::BrOnCast(d, ct) => Op::BrOnCast(spec_target(ctls, h, d)->Some_0, ct),
        Instr::BrOnCastFail(d, ct) => Op::BrOnCastFail(spec_target(ctls, h, d)->Some_0, ct),
        Instr::BrTable(ds, _) => Op::BrTable(TableRange { base: tables as u32, len: ds@.len() as u32 }),
        Instr::Return => Op::Return,
        Instr::ReturnCall(f) => Op::ReturnCall(f),
        Instr::ReturnCallHost(x) => Op::ReturnCallHost(x),
        Instr::Throw(t) => Op::Throw(t),
        Instr::ThrowRef => Op::ThrowRef,
        Instr::ReturnCallIndirect(ty, t) => Op::ReturnCallIndirect(ty, t),
        Instr::ReturnCallRef(ty) => Op::ReturnCallRef(ty),
        Instr::Plain(o) => o,
        _ => Op::Nop,
    }
}

/// The table entries a `br_table` at instruction `k` of `body` compiles to: each case's and then
/// the default's label target, after popping the index.
#[verifier::opaque]
pub open spec fn compiled_entries(body: Seq<Instr>, k: int, n_results: u32, sigs: Seq<(u32, u32)>, host: Seq<(u32, u32)>,
    types: Seq<(u32, u32)>) -> Seq<BranchTarget> {
    let st = cstate(body, k, n_results, sigs, host, types);
    match body[k] {
        Instr::BrTable(ds, def) => table_targets(st.0, sat_sub64(st.1, 1), ds@, def, ds@.len() + 1int),
        _ => Seq::empty(),
    }
}

/// Counts stay within the body's length.
proof fn lemma_counts_bound(body: Seq<Instr>, j: int)
    requires
        0 <= j,
    ensures
        0 <= ops_at(body, j) <= j,
        open_count(body, j) <= j + 1,
    decreases j,
{
    if j > 0 {
        lemma_counts_bound(body, j - 1);
    }
}

/// Instruction counts only grow.
proof fn lemma_ops_mono(body: Seq<Instr>, j: int, k: int)
    requires
        0 <= j <= k,
    ensures
        ops_at(body, j) <= ops_at(body, k),
        j < k && emits(body[j]) ==> ops_at(body, j) < ops_at(body, k),
    decreases k - j,
{
    if j < k {
        lemma_ops_mono(body, j, k - 1);
    }
}

/// Where a block ends lies within the body.
proof fn lemma_close_bound(body: Seq<Instr>, j: int, c: int)
    requires
        0 <= j <= body.len(),
    ensures
        j <= close_after(body, j, c) <= body.len(),
        j <= else_after(body, j, c) <= body.len(),
    decreases body.len() - j,
{
    if j < body.len() {
        lemma_close_bound(body, j + 1, c);
    }
}

/// The shape of a compiling prefix counts its open blocks and its flat instructions.
proof fn lemma_shape_counts(body: Seq<Instr>, k: int, sigs: Seq<(u32, u32)>, host: Seq<(u32, u32)>, types: Seq<(u32, u32)>)
    requires
        0 <= k <= body.len(),
        check_prefix(body, k, sigs, host, types) is Ok,
    ensures
        check_prefix(body, k, sigs, host, types)->Ok_0.0.len() == open_count(body, k),
        check_prefix(body, k, sigs, host, types)->Ok_0.1 == ops_at(body, k),
    decreases k,
{
    if k > 0 {
        if check_prefix(body, k - 1, sigs, host, types) is Err {
            lemma_check_prefix_err(body, k - 1, k, sigs, host, types);
        }
        lemma_shape_counts(body, k - 1, sigs, host, types);
    }
}

/// Finds where the block `c` open at instruction `from` ends.
fn scan_close(body: &[Instr], from: usize, cnt0: u128, ops0: usize, c: usize) -> (r: usize)
    requires
        from <= body@.len(),
        cnt0 == open_count(body@, from as int),
        ops0 == ops_at(body@, from as int),
    ensures
        r == ops_at(body@, close_after(body@, from as int, c as int)),
{
    let mut j = from;
    let mut cnt = cnt0;
    let mut ops = ops0;
    while j < body.len() && cnt > c as u128
        invariant
            from <= j <= body@.len(),
            cnt == open_count(body@, j as int),
            ops == ops_at(body@, j as int),
            close_after(body@, from as int, c as int) == close_after(body@, j as int, c as int),
        decreases body@.len() - j,
    {
        proof { lemma_counts_bound(body@, j as int); }
        let i = &body[j];
        proof { assert(*i == body@[j as int]); }
        match i {
            Instr::Block(_) | Instr::Loop(_) | Instr::If(_) => cnt = cnt + 1,
            Instr::End => cnt = cnt - 1,
            _ => {},
        }
        match i {
            Instr::Block(_) | Instr::Loop(_) | Instr::End => {},
            _ => ops = ops + 1,
        }
        j = j + 1;
    }
    ops
}

/// Finds where the `then` arm of the `if` that opened block `c` ends.
fn scan_else(body: &[Instr], from: usize, cnt0: u128, ops0: usize, c: usize) -> (r: usize)
    requires
        from <= body@.len(),
        cnt0 == open_count(body@, from as int),
        ops0 == ops_at(body@, from as int),
    ensures
        r == ops_at(body@, else_after(body@, from as int, c as int)),
{
    let mut j = from;
    let mut cnt = cnt0;
    let mut ops = ops0;
    while j < body.len() && cnt > c as u128
        invariant
            from <= j <= body@.len(),
            cnt == open_count(body@, j as int),
            ops == ops_at(body@, j as int),
            else_after(body@, from as int, c as int) == else_after(body@, j as int, c as int),
        decreases body@.len() - j,
    {
        proof { lemma_counts_bound(body@, j as int); }
        let i = &body[j];
        proof { assert(*i == body@[j as int]); }
        if cnt == c as u128 + 1 && matches!(i, Instr::Else) {
            return ops + 1;
        }
        match i {
            Instr::Block(_) | Instr::Loop(_) | Instr::If(_) => cnt = cnt + 1,
            Instr::End => cnt = cnt - 1,
            _ => {},
        }
        match i {
            Instr::Block(_) | Instr::Loop(_) | Instr::End => {},
            _ => ops = ops + 1,
        }
        j = j + 1;
    }
    ops
}

/// The compiler `c` stands just before instruction `k` of `body`: the prefix compiles, its
/// shape matches, the open blocks and height are those the prefix leads to, and the function's
/// own block is still open.
pub open spec fn ready(c: &Compiler, b: Seq<Instr>, k: int, n_results: u32, sigs: Seq<(u32, u32)>, host: Seq<(u32, u32)>,
    types: Seq<(u32, u32)>) -> bool {
    &&& c.inv()
    &&& 0 <= k < b.len()
    &&& check_prefix(b, k, sigs, host, types) is Ok
    &&& shape_of(c, check_prefix(b, k, sigs, host, types)->Ok_0)
    &&& c.ctls@ == cstate(b, k, n_results, sigs, host, types).0
    &&& c.height == cstate(b, k, n_results, sigs, host, types).1
    &&& c.ctls@.len() > 0
}

/// Compiling instruction `k` of `b` took the compiler from `before` to `after`: the blocks and
/// height step as [`cstep`] says, the code grows by [`compiled_op`] when the instruction
/// emits, and the table by [`compiled_entries`].
pub open spec fn stepped(before: &Compiler, after: &Compiler, b: Seq<Instr>, k: int, n_results: u32, sigs: Seq<(u32, u32)>,
    host: Seq<(u32, u32)>, types: Seq<(u32, u32)>) -> bool {
    let s0 = check_prefix(b, k, sigs, host, types)->Ok_0;
    let st = cstep(b, k, before.ctls@, before.height, sigs, host, types);
    &&& after.inv()
    &&& shape_of(after, check_instr(s0, b[k], sigs, host, types)->Ok_0)
    &&& after.ctls@ == st.0
    &&& after.height == st.1
    &&& after.ops@ == if emits(b[k]) { before.ops@.push(compiled_op(b, k, n_results, s0.2, sigs, host, types)) } else { before.ops@ }
    &&& after.tables@ =~= before.tables@ + compiled_entries(b, k, n_results, sigs, host, types)
}

/// The outcome of compiling instruction `k`: it fails exactly as [`check_instr`] says, and
/// otherwise steps as [`stepped`] says.
pub open spec fn step_result(before: &Compiler, after: &Compiler, r: Result<(), CompileError>, b: Seq<Instr>, k: int, n_results: u32,
    sigs: Seq<(u32, u32)>, host: Seq<(u32, u32)>, types: Seq<(u32, u32)>) -> bool {
    let next = check_instr(check_prefix(b, k, sigs, host, types)->Ok_0, b[k], sigs, host, types);
    &&& (r is Ok <==> next is Ok)
    &&& (r matches Err(e) ==> next == Err::<Shape, CompileError>(e))
    &&& (r is Ok ==> stepped(before, after, b, k, n_results, sigs, host, types))
}

impl Compiler {
    /// Compiles a block, loop, `if`, `else` or `end`.
    fn step_structure(&mut self, body: &[Instr], k: usize, n_results: u32, sigs: &[(u32, u32)], host: &[(u32, u32)],
        types: &[(u32, u32)]) -> (r: Result<(), CompileError>)
        requires
            ready(old(self), body@, k as int, n_results, sigs@, host@, types@),
            body@[k as int] is Block || body@[k as int] is Loop || body@[k as int] is If || body@[k as int] is Else
                || body@[k as int] is End,
        ensures
            step_result(old(self), final(self), r, body@, k as int, n_results, sigs@, host@, types@),
    {
        proof {
            reveal(cstep);
            reveal(compiled_op);
            reveal(compiled_entries);
        }
        let ghost b = body@;
        proof {
            lemma_shape_counts(b, k as int, sigs@, host@, types@);
            lemma_counts_bound(b, k as int);
        }
        let n = self.ctls.len();
        match &body[k] {
            Instr::Block(a) => {
                let end = scan_close(body, k + 1, n as u128 + 1, self.ops.len(), n);
                self.open(false, false, *a, None, end as u32);
                Ok(())
            },
            Instr::Loop(a) => {
                let end = scan_close(body, k + 1, n as u128 + 1, self.ops.len(), n);
                self.open(true, false, *a, None, end as u32);
                Ok(())
            },
            Instr::If(a) => {
                let else_ip = scan_else(body, k + 1, n as u128 + 1, self.ops.len() + 1, n);
                let end = scan_close(body, k + 1, n as u128 + 1, self.ops.len() + 1, n);
                self.pop_height(1);
                let i = self.emit(Op::BrIfNot(BranchTarget { ip: else_ip as u32, keep: 0, pop: 0 }))?;
                self.open(false, true, *a, Some(i), end as u32);
                Ok(())
            },
            Instr::Else => self.else_arm(),
            _ => {
                let ctl = self.close_top();
                self.height = ctl.height.saturating_add(ctl.results as u64);
                Ok(())
            },
        }
    }

    /// Compiles a branch or a `br_table`.
    fn step_branch(&mut self, body: &[Instr], k: usize, n_results: u32, sigs: &[(u32, u32)], host: &[(u32, u32)],
        types: &[(u32, u32)]) -> (r: Result<(), CompileError>)
        requires
            ready(old(self), body@, k as int, n_results, sigs@, host@, types@),
            body@[k as int] is Br || body@[k as int] is BrIf || body@[k as int] is BrOnNull || body@[k as int] is BrOnNonNull
                || body@[k as int] is BrOnCast || body@[k as int] is BrOnCastFail || body@[k as int] is BrTable,
        ensures
            step_result(old(self), final(self), r, body@, k as int, n_results, sigs@, host@, types@),
    {
        proof {
            reveal(cstep);
            reveal(compiled_op);
            reveal(compiled_entries);
        }
        proof { lemma_shape_counts(body@, k as int, sigs@, host@, types@); }
        match &body[k] {
            Instr::Br(d) => {
                let r = self.branch(*d, Op::Br(BranchTarget { ip: 0, keep: 0, pop: 0 }));
                self.unreachable_rest();
                r
            },
            Instr::BrIf(d) => {
                self.pop_height(1);
                self.branch(*d, Op::BrIf(BranchTarget { ip: 0, keep: 0, pop: 0 }))
            },
            Instr::BrOnNull(d) => {
                self.pop_height(1);
                let r = self.branch(*d, Op::BrOnNull(BranchTarget { ip: 0, keep: 0, pop: 0 }));
                self.height = self.height.saturating_add(1);
                r
            },
            Instr::BrOnNonNull(d) => {
                let r = self.branch(*d, Op::BrOnNonNull(BranchTarget { ip: 0, keep: 0, pop: 0 }));
                self.pop_height(1);
                r
            },
            Instr::BrOnCast(d, ct) => self.branch(*d, Op::BrOnCast(BranchTarget { ip: 0, keep: 0, pop: 0 }, *ct)),
            Instr::BrOnCastFail(d, ct) => self.branch(*d, Op::BrOnCastFail(BranchTarget { ip: 0, keep: 0, pop: 0 }, *ct)),
            Instr::BrTable(ds, def) => {
                self.pop_height(1);
                let r = self.branch_table(ds, *def);
                self.unreachable_rest();
                r
            },
            _ => Err(CompileError::BadInstruction),
        }
    }

    /// Compiles a return, tail call, throw or straight-line instruction.
    fn step_flat(&mut self, body: &[Instr], k: usize, n_results: u32, sigs: &[(u32, u32)], host: &[(u32, u32)],
        types: &[(u32, u32)]) -> (r: Result<(), CompileError>)
        requires
            ready(old(self), body@, k as int, n_results, sigs@, host@, types@),
            body@[k as int] is Return || body@[k as int] is ReturnCall || body@[k as int] is ReturnCallHost
                || body@[k as int] is Throw || body@[k as int] is ThrowRef || body@[k as int] is ReturnCallIndirect
                || body@[k as int] is ReturnCallRef || body@[k as int] is Plain,
        ensures
            step_result(old(self), final(self), r, body@, k as int, n_results, sigs@, host@, types@),
    {
        proof {
            reveal(cstep);
            reveal(compiled_op);
            reveal(compiled_entries);
        }
        proof { lemma_shape_counts(body@, k as int, sigs@, host@, types@); }
        match &body[k] {
            Instr::Return => self.emit_then_stop(Op::Return),
            Instr::ReturnCall(f) => self.emit_then_stop(Op::ReturnCall(*f)),
            Instr::ReturnCallHost(h) => self.emit_then_stop(Op::ReturnCallHost(*h)),
            Instr::Throw(t) => self.emit_then_stop(Op::Throw(*t)),
            Instr::ThrowRef => self.emit_then_stop(Op::ThrowRef),
            Instr::ReturnCallIndirect(ty, t) => self.emit_then_stop(Op::ReturnCallIndirect(*ty, *t)),
            Instr::ReturnCallRef(ty) => self.emit_then_stop(Op::ReturnCallRef(*ty)),
            Instr::Plain(op) => {
                match stack_effect(op, sigs, host, types) {
                    None => Err(CompileError::BadInstruction),
                    Some((p, q)) => {
                        assert(!(*op is BrTable)) by { reveal(spec_stack_effect); }
                        let _ = self.emit(*op)?;
                        self.pop_height(p);
                        self.height = self.height.saturating_add(q as u64);
                        if let Op::Unreachable = op {
                            self.unreachable_rest();
                        }
                        Ok(())
                    },
                }
            },
            _ => Err(CompileError::BadInstruction),
        }
    }
}

/// The code `ops` and table `tables` hold, for each of the first `k` instructions of `b`, what
/// it compiles to.
#[verifier::opaque]
pub open spec fn compiled_upto(ops: Seq<Op>, tables: Seq<BranchTarget>, b: Seq<Instr>, k: int, n_results: u32, sigs: Seq<(u32, u32)>,
    host: Seq<(u32, u32)>, types: Seq<(u32, u32)>) -> bool {
    &&& forall|j: int| 0 <= j < k && emits(b[j]) ==>
        #[trigger] ops[ops_at(b, j)] == compiled_op(b, j, n_results, check_prefix(b, j, sigs, host, types)->Ok_0.2, sigs, host, types)
    &&& forall|j: int| 0 <= j < k && (#[trigger] b[j]) is BrTable ==> {
        let t = check_prefix(b, j, sigs, host, types)->Ok_0.2;
        tables.subrange(t as int, t as int + b[j]->BrTable_0@.len() + 1) == compiled_entries(b, j, n_results, sigs, host, types)
    }
}

/// A `br_table` before instruction `k` has all its entries before the table count there.
proof fn lemma_table_span(b: Seq<Instr>, j: int, k: int, sigs: Seq<(u32, u32)>, host: Seq<(u32, u32)>, types: Seq<(u32, u32)>)
    requires
        0 <= j < k,
        b[j] is BrTable,
        check_prefix(b, k, sigs, host, types) is Ok,
    ensures
        check_prefix(b, j, sigs, host, types)->Ok_0.2 + b[j]->BrTable_0@.len() + 1 <= check_prefix(b, k, sigs, host, types)->Ok_0.2,
{
    lemma_prefix_mono(b, j + 1, k, sigs, host, types);
    lemma_prefix_mono(b, j, k, sigs, host, types);
    assert(check_prefix(b, j + 1, sigs, host, types) == check_instr(check_prefix(b, j, sigs, host, types)->Ok_0, b[j], sigs, host, types));
}

/// Appending what instruction `k` compiles to keeps the code of the earlier instructions and
/// adds its own.
#[verifier::spinoff_prover]
proof fn lemma_ops_step(ops0: Seq<Op>, ops: Seq<Op>, b: Seq<Instr>, k: int, n_results: u32, sigs: Seq<(u32, u32)>,
    host: Seq<(u32, u32)>, types: Seq<(u32, u32)>)
    requires
        0 <= k < b.len(),
        forall|j: int| 0 <= j < k && emits(b[j]) ==>
            #[trigger] ops0[ops_at(b, j)] == compiled_op(b, j, n_results, check_prefix(b, j, sigs, host, types)->Ok_0.2, sigs, host, types),
        ops0.len() == ops_at(b, k),
        ops0.len() <= ops.len(),
        forall|i: int| 0 <= i < ops0.len() ==> #[trigger] ops[i] == ops0[i],
        emits(b[k]) ==> ops[ops0.len() as int] == compiled_op(b, k, n_results, check_prefix(b, k, sigs, host, types)->Ok_0.2, sigs, host, types),
    ensures
        forall|j: int| 0 <= j < k + 1 && emits(b[j]) ==>
            #[trigger] ops[ops_at(b, j)] == compiled_op(b, j, n_results, check_prefix(b, j, sigs, host, types)->Ok_0.2, sigs, host, types),
{
    assert forall|j: int| 0 <= j < k + 1 && emits(b[j]) implies
        #[trigger] ops[ops_at(b, j)] == compiled_op(b, j, n_results, check_prefix(b, j, sigs, host, types)->Ok_0.2, sigs, host, types) by {
        if j < k {
            lemma_ops_mono(b, j, k);
            lemma_counts_bound(b, j);
            assert(ops[ops_at(b, j)] == ops0[ops_at(b, j)]);
        } else {
            assert(ops_at(b, j) == ops0.len());
        }
    }
}

/// Appending the entries of instruction `k` keeps those of the earlier `br_table`s and adds its own.
#[verifier::spinoff_prover]
proof fn lemma_tables_step(tables0: Seq<BranchTarget>, tables: Seq<BranchTarget>, b: Seq<Instr>, k: int, n_results: u32,
    sigs: Seq<(u32, u32)>, host: Seq<(u32, u32)>, types: Seq<(u32, u32)>)
    requires
        0 <= k < b.len(),
        forall|j: int| 0 <= j < k && (#[trigger] b[j]) is BrTable ==> {
            let t = check_prefix(b, j, sigs, host, types)->Ok_0.2;
            tables0.subrange(t as int, t as int + b[j]->BrTable_0@.len() + 1) == compiled_entries(b, j, n_results, sigs, host, types)
        },
        check_prefix(b, k + 1, sigs, host, types) is Ok,
        tables0.len() == check_prefix(b, k, sigs, host, types)->Ok_0.2,
        tables =~= tables0 + compiled_entries(b, k, n_results, sigs, host, types),
    ensures
        forall|j: int| 0 <= j < k + 1 && (#[trigger] b[j]) is BrTable ==> {
            let t = check_prefix(b, j, sigs, host, types)->Ok_0.2;
            tables.subrange(t as int, t as int + b[j]->BrTable_0@.len() + 1) == compiled_entries(b, j, n_results, sigs, host, types)
        },
{
    assert forall|j: int| 0 <= j < k + 1 && (#[trigger] b[j]) is BrTable implies {
        let t = check_prefix(b, j, sigs, host, types)->Ok_0.2;
        tables.subrange(t as int, t as int + b[j]->BrTable_0@.len() + 1) == compiled_entries(b, j, n_results, sigs, host, types)
    } by {
        let t = check_prefix(b, j, sigs, host, types)->Ok_0.2;
        if j < k {
            lemma_table_span(b, j, k, sigs, host, types);
            assert(tables.subrange(t as int, t as int + b[j]->BrTable_0@.len() + 1)
                =~= tables0.subrange(t as int, t as int + b[j]->BrTable_0@.len() + 1));
        } else {
            reveal(compiled_entries);
            assert(tables.subrange(t as int, t as int + b[j]->BrTable_0@.len() + 1)
                =~= compiled_entries(b, j, n_results, sigs, host, types));
        }
    }
}

/// Appending what instruction `k` compiles to extends [`compiled_upto`] by one instruction.
proof fn lemma_compiled_step(ops0: Seq<Op>, tables0: Seq<BranchTarget>, ops: Seq<Op>, tables: Seq<BranchTarget>, b: Seq<Instr>, k: int,
    n_results: u32, sigs: Seq<(u32, u32)>, host: Seq<(u32, u32)>, types: Seq<(u32, u32)>)
    requires
        0 <= k < b.len(),
        compiled_upto(ops0, tables0, b, k, n_results, sigs, host, types),
        check_prefix(b, k + 1, sigs, host, types) is Ok,
        ops0.len() == ops_at(b, k),
        tables0.len() == check_prefix(b, k, sigs, host, types)->Ok_0.2,
        ops == if emits(b[k]) {
            ops0.push(compiled_op(b, k, n_results, check_prefix(b, k, sigs, host, types)->Ok_0.2, sigs, host, types))
        } else {
            ops0
        },
        tables =~= tables0 + compiled_entries(b, k, n_results, sigs, host, types),
    ensures
        compiled_upto(ops, tables, b, k + 1, n_results, sigs, host, types),
{
    reveal(compiled_upto);
    assert forall|i: int| 0 <= i < ops0.len() implies #[trigger] ops[i] == ops0[i] by {}
    lemma_ops_step(ops0, ops, b, k, n_results, sigs, host, types);
    lemma_tables_step(tables0, tables, b, k, n_results, sigs, host, types);
}

/// A compiling prefix emits at most [`CODE_LIMIT`] instructions.
proof fn lemma_prefix_code_bound(b: Seq<Instr>, k: int, sigs: Seq<(u32, u32)>, host: Seq<(u32, u32)>, types: Seq<(u32, u32)>)
    requires
        0 <= k,
        check_prefix(b, k, sigs, host, types) is Ok,
    ensures
        check_prefix(b, k, sigs, host, types)->Ok_0.1 <= CODE_LIMIT,
    decreases k,
{
    if k > 0 {
        if check_prefix(b, k - 1, sigs, host, types) is Err {
            lemma_check_prefix_err(b, k - 1, k, sigs, host, types);
        }
        lemma_prefix_code_bound(b, k - 1, sigs, host, types);
    }
}

/// Along a compiling body, the open blocks [`cstate`] tracks are those the shape counts, each
/// starting at or before the current instruction and ending at or before the end of the code.
proof fn lemma_cstate_in_code(b: Seq<Instr>, k: int, n_results: u32, sigs: Seq<(u32, u32)>, host: Seq<(u32, u32)>,
    types: Seq<(u32, u32)>)
    requires
        0 <= k <= b.len(),
        check_prefix(b, k, sigs, host, types) is Ok,
        ops_at(b, b.len() as int) < u32::MAX,
    ensures
        cstate(b, k, n_results, sigs, host, types).0.len() == open_count(b, k),
        forall|i: int| 0 <= i < cstate(b, k, n_results, sigs, host, types).0.len() ==> {
            &&& (#[trigger] cstate(b, k, n_results, sigs, host, types).0[i]).start <= ops_at(b, k)
            &&& cstate(b, k, n_results, sigs, host, types).0[i].end <= ops_at(b, b.len() as int)
        },
    decreases k,
{
    let top = ops_at(b, b.len() as int);
    if k == 0 {
        lemma_close_bound(b, 0, 0);
        lemma_ops_mono(b, close_after(b, 0, 0), b.len() as int);
        lemma_counts_bound(b, close_after(b, 0, 0));
    } else {
        lemma_prefix_mono(b, k - 1, k, sigs, host, types);
        lemma_cstate_in_code(b, k - 1, n_results, sigs, host, types);
        lemma_shape_counts(b, k - 1, sigs, host, types);
        lemma_ops_mono(b, k - 1, k);
        lemma_ops_mono(b, k, b.len() as int);
        lemma_counts_bound(b, k - 1);
        lemma_close_bound(b, k, open_count(b, k - 1));
        lemma_ops_mono(b, close_after(b, k, open_count(b, k - 1)), b.len() as int);
        lemma_counts_bound(b, close_after(b, k, open_count(b, k - 1)));
        let s = check_prefix(b, k - 1, sigs, host, types)->Ok_0;
        assert(check_prefix(b, k, sigs, host, types) == check_instr(s, b[k - 1], sigs, host, types));
        let prev = cstate(b, k - 1, n_results, sigs, host, types);
        let cur = cstate(b, k, n_results, sigs, host, types);
        assert(cur == cstep(b, k - 1, prev.0, prev.1, sigs, host, types));
        reveal(cstep);
        assert forall|i: int| 0 <= i < cur.0.len() implies {
            &&& (#[trigger] cur.0[i]).start <= ops_at(b, k)
            &&& cur.0[i].end <= top
        } by {
            if i < prev.0.len() - 1 || (i == prev.0.len() - 1 && !(b[k - 1] is Else)) {
                assert(cur.0[i] == prev.0[i]);
            }
        }
    }
}

/// Every jump of a compiled body lands inside its code or just past its end: each branch target,
/// each `if`'s and `else`'s jump, and each `br_table` entry.
pub proof fn lemma_jumps_stay_in_code(b: Seq<Instr>, k: int, n_results: u32, t: nat, sigs: Seq<(u32, u32)>, host: Seq<(u32, u32)>,
    types: Seq<(u32, u32)>)
    requires
        check_body(b, sigs, host, types) is Ok,
        0 <= k < b.len(),
    ensures
        branch_of(compiled_op(b, k, n_results, t, sigs, host, types)) matches Some(bt) ==> bt.ip <= ops_at(b, b.len() as int),
        forall|i: int| 0 <= i < compiled_entries(b, k, n_results, sigs, host, types).len()
            ==> (#[trigger] compiled_entries(b, k, n_results, sigs, host, types)[i]).ip <= ops_at(b, b.len() as int),
{
    let len = b.len() as int;
    lemma_prefix_mono(b, k + 1, len, sigs, host, types);
    lemma_prefix_mono(b, k, len, sigs, host, types);
    lemma_shape_counts(b, len, sigs, host, types);
    lemma_shape_counts(b, k, sigs, host, types);
    lemma_prefix_code_bound(b, len, sigs, host, types);
    lemma_cstate_in_code(b, k, n_results, sigs, host, types);
    lemma_ops_mono(b, k, len);
    let s = check_prefix(b, k, sigs, host, types)->Ok_0;
    assert(check_prefix(b, k + 1, sigs, host, types) == check_instr(s, b[k], sigs, host, types));
    let st = cstate(b, k, n_results, sigs, host, types);
    reveal(compiled_op);
    reveal(compiled_entries);
    if b[k] is If {
        lemma_counts_bound(b, k);
        lemma_close_bound(b, k + 1, open_count(b, k));
        lemma_ops_mono(b, else_after(b, k + 1, open_count(b, k)), len);
        lemma_counts_bound(b, else_after(b, k + 1, open_count(b, k)));
    }
    if let Instr::BrTable(ds, def) = b[k] {
        assert forall|i: int| 0 <= i < compiled_entries(b, k, n_results, sigs, host, types).len()
            implies (#[trigger] compiled_entries(b, k, n_results, sigs, host, types)[i]).ip <= ops_at(b, len) by {
            assert(table_depth(ds@, def, i) < st.0.len());
            let c = st.0.len() - 1 - table_depth(ds@, def, i);
            assert(st.0[c].start <= ops_at(b, k));
        }
    }
    let top = ops_at(b, len);
    assert(top <= CODE_LIMIT);
    match b[k] {
        Instr::If(_) => {
            assert(ops_at(b, else_after(b, k + 1, open_count(b, k))) <= top);
            assert(branch_of(compiled_op(b, k, n_results, t, sigs, host, types))->Some_0.ip <= top);
        },
        Instr::Else => {
            assert(st.0[st.0.len() - 1].start <= ops_at(b, k));
            assert(spec_target(st.0, st.1, 0)->Some_0.ip <= top);
        },
        Instr::Br(d) | Instr::BrIf(d) | Instr::BrOnNull(d) | Instr::BrOnNonNull(d) | Instr::BrOnCast(d, _) | Instr::BrOnCastFail(d, _) => {
            assert(d < st.0.len());
            assert(st.0[st.0.len() - 1 - d].start <= ops_at(b, k));
            assert(spec_target(st.0, st.1, d)->Some_0.ip <= top);
            assert(spec_target(st.0, sat_sub64(st.1, 1), d)->Some_0.ip <= top);
        },
        Instr::Plain(o) => {
            assert(branch_of(o) is None) by { reveal(spec_stack_effect); }
        },
        _ => {},
    }
}

/// Compiles a function body (ending with the `end` of its own block) for a function with
/// `n_params` parameters, `n_results` results and declared locals `local_types`; `sigs` gives
/// every function's parameter and result counts, `host` every embedder function's, `types`
/// every function type's of the module. Each instruction that emits becomes exactly
/// [`compiled_op`], each `br_table` its [`compiled_entries`].
pub fn compile_function(n_params: u32, n_results: u32, local_types: Vec<ValType>, body: &[Instr], sigs: &[(u32, u32)],
    host: &[(u32, u32)], types: &[(u32, u32)])
    -> (r: Result<CompiledFunc, CompileError>)
    ensures
        r is Ok <==> check_body(body@, sigs@, host@, types@) is Ok,
        r matches Err(e) ==> check_body(body@, sigs@, host@, types@) == Err::<(), CompileError>(e),
        r is Ok ==> r->Ok_0.ops@.len() == ops_at(body@, body@.len() as int)
            && r->Ok_0.br_tables@.len() == check_prefix(body@, body@.len() as int, sigs@, host@, types@)->Ok_0.2,
        r is Ok ==> forall|k: int| 0 <= k < body@.len() && emits(body@[k]) ==>
            #[trigger] r->Ok_0.ops@[ops_at(body@, k)] == compiled_op(body@, k, n_results, check_prefix(body@, k, sigs@, host@, types@)->Ok_0.2,
                sigs@, host@, types@),
        r is Ok ==> forall|k: int| 0 <= k < body@.len() && (#[trigger] body@[k]) is BrTable ==> {
            let t = check_prefix(body@, k, sigs@, host@, types@)->Ok_0.2;
            r->Ok_0.br_tables@.subrange(t as int, t as int + body@[k]->BrTable_0@.len() + 1)
                == compiled_entries(body@, k, n_results, sigs@, host@, types@)
        },
        r is Ok ==> {
            let f = r->Ok_0;
            &&& f.n_params == n_params
            &&& f.n_results == n_results
            &&& f.local_types@ == local_types@
            &&& f.ops@.len() < u32::MAX
        },
{
    let ghost b = body@;
    let fend = scan_close(body, 0, 1, 0, 0);
    let mut c = Compiler { ops: Vec::new(), tables: Vec::new(), ctls: Vec::new(), height: 0 };
    c.ctls.push(Ctl { is_loop: false, is_if: false, height: 0, params: 0, results: n_results, start: 0, else_jump: None, end: fend as u32 });
    proof {
        assert(shape_of(&c, (seq![false], 0nat, 0nat)));
        assert(c.ctls@ == cstate(b, 0, n_results, sigs@, host@, types@).0);
        reveal(compiled_upto);
    }
    for k in 0..body.len()
        invariant
            c.inv(),
            b == body@,
            check_prefix(b, k as int, sigs@, host@, types@) is Ok,
            shape_of(&c, check_prefix(b, k as int, sigs@, host@, types@)->Ok_0),
            c.ctls@ == cstate(b, k as int, n_results, sigs@, host@, types@).0,
            c.height == cstate(b, k as int, n_results, sigs@, host@, types@).1,
            compiled_upto(c.ops@, c.tables@, b, k as int, n_results, sigs@, host@, types@),
    {
        let ghost c0 = c;
        let ghost s0 = check_prefix(b, k as int, sigs@, host@, types@)->Ok_0;
        proof {
            assert(check_prefix(b, k + 1, sigs@, host@, types@) == check_instr(s0, b[k as int], sigs@, host@, types@));
            lemma_shape_counts(b, k as int, sigs@, host@, types@);
        }
        if c.ctls.len() == 0 {
            proof { lemma_check_prefix_err(b, k + 1, b.len() as int, sigs@, host@, types@); }
            return Err(CompileError::UnbalancedEnd);
        }
        let step = match &body[k] {
            Instr::Block(_) | Instr::Loop(_) | Instr::If(_) | Instr::Else | Instr::End =>
                c.step_structure(body, k, n_results, sigs, host, types),
            Instr::Br(_) | Instr::BrIf(_) | Instr::BrOnNull(_) | Instr::BrOnNonNull(_) | Instr::BrOnCast(_, _)
            | Instr::BrOnCastFail(_, _) | Instr::BrTable(_, _) => c.step_branch(body, k, n_results, sigs, host, types),
            _ => c.step_flat(body, k, n_results, sigs, host, types),
        };
        if let Err(e) = step {
            proof { lemma_check_prefix_err(b, k + 1, b.len() as int, sigs@, host@, types@); }
            return Err(e);
        }
        proof {
            lemma_compiled_step(c0.ops@, c0.tables@, c.ops@, c.tables@, b, k as int, n_results, sigs@, host@, types@);
        }
    }
    if c.ctls.len() != 0 {
        proof { assert(b.subrange(0, b.len() as int) == b); }
        return Err(CompileError::MissingEnd);
    }
    proof {
        lemma_shape_counts(b, b.len() as int, sigs@, host@, types@);
        reveal(compiled_upto);
    }
    Ok(CompiledFunc { n_params, n_results, local_types, ops: c.ops, br_tables: c.tables, handlers: Vec::new() })
}

} // verus!
