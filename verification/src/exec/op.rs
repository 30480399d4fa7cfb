//! The flat instruction set the interpreter runs: structured control flow is compiled away into
//! branch targets that say where to jump and how to reshape the operand stack.
use vstd::prelude::*;
use crate::value::ValType;
use crate::canon::layout::RefKind;
use crate::canon::IrHeap;
use crate::exec::simd::vector::SimdOp;

verus! {

/// Where a taken branch goes: the target `ip`, the `keep` top operands carried across, and the
/// `pop` operands below them that are discarded.
#[derive(Copy, Clone, PartialEq, Eq, Structural, Debug)]
pub struct BranchTarget {
    pub ip: u32,
    pub keep: u32,
    pub pop: u32,
}

/// A memory access immediate: the constant byte offset added to the dynamic address.
#[derive(Copy, Clone, PartialEq, Eq, Structural, Debug)]
pub struct MemArg {
    pub offset: u64,
}

/// The type a cast tests against: a heap type, and whether null belongs to it.
#[derive(Copy, Clone, PartialEq, Eq, Structural, Debug)]
pub struct CastTarget {
    pub heap: IrHeap,
    pub nullable: bool,
}

/// A `br_table`'s targets in the function's out-of-line table: `len` cases, then the default.
#[derive(Copy, Clone, PartialEq, Eq, Structural, Debug)]
pub struct TableRange {
    pub base: u32,
    pub len: u32,
}

/// One flat instruction.
#[derive(Copy, Clone, PartialEq, Eq, Structural, Debug)]
pub enum Op {
    Nop,
    Unreachable,
    I32Const(i32),
    I64Const(i64),
    F32Const(u32),
    F64Const(u64),
    Drop,
    Select,
    LocalGet(u32),
    LocalSet(u32),
    LocalTee(u32),
    GlobalGet(u32),
    GlobalSet(u32),
    Br(BranchTarget),
    BrIf(BranchTarget),
    BrIfNot(BranchTarget),
    BrTable(TableRange),
    /// A branch taken when the reference operand is null, which is dropped; a non-null one stays.
    BrOnNull(BranchTarget),
    /// A branch taken when the reference operand is not null, carrying it; a null one is dropped.
    BrOnNonNull(BranchTarget),
    Return,
    Call(u32),
    /// A tail call: the current frame is replaced by the callee's.
    ReturnCall(u32),
    /// A call of the embedder's function `h` (an import): the run stops and hands it over.
    CallHost(u32),
    /// A tail call of the embedder's function `h`: the current frame is dropped first.
    ReturnCallHost(u32),
    /// Raises a new exception of the instance's tag `t`, with the tag's parameters as payload.
    Throw(u32),
    /// Raises the exception an `exnref` operand names again (null traps).
    ThrowRef,
    /// `call_indirect` through table `t` expecting the instance's type `ty`: `(ty, t)`.
    CallIndirect(u32, u32),
    ReturnCallIndirect(u32, u32),
    /// `call_ref` of a function reference of the instance's type `ty`.
    CallRef(u32),
    ReturnCallRef(u32),
    RefNull(RefKind),
    RefIsNull,
    /// Traps on a null reference operand, leaves a non-null one.
    RefAsNonNull,
    /// `ref.test`: whether the reference operand belongs to the type.
    RefTest(CastTarget),
    /// `ref.cast`: traps unless the reference operand belongs to the type.
    RefCast(CastTarget),
    /// A branch taken, carrying the reference, when it belongs to the type; else it stays.
    BrOnCast(BranchTarget, CastTarget),
    /// A branch taken, carrying the reference, when it does not belong to the type.
    BrOnCastFail(BranchTarget, CastTarget),
    /// An external reference brought into the `any` hierarchy.
    AnyConvertExtern,
    /// A reference of the `any` hierarchy brought out as an external one.
    ExternConvertAny,
    /// A reference to function `f` (by its handle).
    RefFunc(u32),
    TableGet(u32),
    TableSet(u32),
    TableSize(u32),
    TableGrow(u32),
    TableFill(u32),
    /// `table.copy` into the first table from the second.
    TableCopy(u32, u32),
    /// `table.init` from element segment `e` into table `t`: `(e, t)`.
    TableInit(u32, u32),
    ElemDrop(u32),
    // i32
    I32Eqz, I32Eq, I32Ne, I32LtS, I32LtU, I32GtS, I32GtU, I32LeS, I32LeU, I32GeS, I32GeU,
    I32Clz, I32Ctz, I32Popcnt, I32Add, I32Sub, I32Mul, I32DivS, I32DivU, I32RemS, I32RemU,
    I32And, I32Or, I32Xor, I32Shl, I32ShrS, I32ShrU, I32Rotl, I32Rotr,
    // i64
    I64Eqz, I64Eq, I64Ne, I64LtS, I64LtU, I64GtS, I64GtU, I64LeS, I64LeU, I64GeS, I64GeU,
    I64Clz, I64Ctz, I64Popcnt, I64Add, I64Sub, I64Mul, I64DivS, I64DivU, I64RemS, I64RemU,
    I64And, I64Or, I64Xor, I64Shl, I64ShrS, I64ShrU, I64Rotl, I64Rotr,
    // f32
    F32Eq, F32Ne, F32Lt, F32Gt, F32Le, F32Ge,
    F32Abs, F32Neg, F32Ceil, F32Floor, F32Trunc, F32Nearest, F32Sqrt,
    F32Add, F32Sub, F32Mul, F32Div, F32Min, F32Max, F32Copysign,
    // f64
    F64Eq, F64Ne, F64Lt, F64Gt, F64Le, F64Ge,
    F64Abs, F64Neg, F64Ceil, F64Floor, F64Trunc, F64Nearest, F64Sqrt,
    F64Add, F64Sub, F64Mul, F64Div, F64Min, F64Max, F64Copysign,
    // conversions
    I32WrapI64, I64ExtendI32S, I64ExtendI32U,
    I32TruncF32S, I32TruncF32U, I32TruncF64S, I32TruncF64U,
    I64TruncF32S, I64TruncF32U, I64TruncF64S, I64TruncF64U,
    I32TruncSatF32S, I32TruncSatF32U, I32TruncSatF64S, I32TruncSatF64U,
    I64TruncSatF32S, I64TruncSatF32U, I64TruncSatF64S, I64TruncSatF64U,
    F32ConvertI32S, F32ConvertI32U, F32ConvertI64S, F32ConvertI64U, F32DemoteF64,
    F64ConvertI32S, F64ConvertI32U, F64ConvertI64S, F64ConvertI64U, F64PromoteF32,
    I32ReinterpretF32, I64ReinterpretF64, F32ReinterpretI32, F64ReinterpretI64,
    I32Extend8S, I32Extend16S, I64Extend8S, I64Extend16S, I64Extend32S,
    // memory
    I32Load(MemArg), I64Load(MemArg), F32Load(MemArg), F64Load(MemArg),
    I32Load8S(MemArg), I32Load8U(MemArg), I32Load16S(MemArg), I32Load16U(MemArg),
    I64Load8S(MemArg), I64Load8U(MemArg), I64Load16S(MemArg), I64Load16U(MemArg),
    I64Load32S(MemArg), I64Load32U(MemArg),
    I32Store(MemArg), I64Store(MemArg), F32Store(MemArg), F64Store(MemArg),
    I32Store8(MemArg), I32Store16(MemArg), I64Store8(MemArg), I64Store16(MemArg), I64Store32(MemArg),
    MemorySize,
    MemoryGrow,
    MemoryFill,
    MemoryCopy,
    /// `memory.init` from data segment `d`.
    MemoryInit(u32),
    /// `data.drop` of data segment `d`.
    DataDrop(u32),
    /// A `v128` instruction.
    Simd(SimdOp),
}

/// A catch clause of a `try_table`: the instance tag it catches (`None` catches all), the
/// operand height above the frame's locals to restore, whether the exception's arguments and/or
/// its `exnref` are pushed, and where the landing pad starts.
#[derive(Copy, Clone, PartialEq, Eq, Structural, Debug)]
pub struct HandlerRec {
    pub tag: Option<u32>,
    pub restore_height: u32,
    pub payload_args: bool,
    pub payload_ref: bool,
    pub landing_ip: u32,
}

/// A `try_table` body's instruction range and its catch clauses, in source order.
#[derive(Clone, Debug)]
pub struct HandlerSpan {
    pub start_ip: u32,
    pub end_ip: u32,
    pub clauses: Vec<HandlerRec>,
}

/// A compiled function: its signature arity, declared (non-parameter) locals, flat code,
/// `br_table` targets, and exception handlers (innermost spans first).
#[derive(Clone, Debug)]
pub struct CompiledFunc {
    pub n_params: u32,
    pub n_results: u32,
    pub local_types: Vec<ValType>,
    pub ops: Vec<Op>,
    pub br_tables: Vec<BranchTarget>,
    pub handlers: Vec<HandlerSpan>,
}

/// A floating-point operation the interpreter hands to its embedder, with its operand bits
/// (`b` is zero for a one-operand operation).
#[derive(Copy, Clone, PartialEq, Eq, Structural, Debug)]
pub struct FloatRequest {
    pub op: Op,
    pub a: u64,
    pub b: u64,
}

} // verus!
