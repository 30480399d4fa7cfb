//! The interpreter proper: an instance (functions, globals, memory), the one-instruction
//! [`Execution::step`] with its reference semantics [`spec_step`], and the run loop, which
//! executes at most a given number of instructions and is the iteration of `spec_step`.
use vstd::prelude::*;
use crate::trap::Trap;
use crate::value::{Val, ValType};
use crate::exec::cell::{Cell, RefTag, low32, cell32, cell64, spec_encode, spec_tag_of_val, encode, decode, spec_decode};
use crate::exec::op::{BranchTarget, CastTarget, CompiledFunc, FloatRequest, Op, TableRange};
use crate::exec::cast::{RefObject, spec_matches, matches_heaptype};
use crate::canon::IrHeap;
use crate::exec::stack::{Execution, Fault, Frame, replace_top};
use crate::exec::numeric::{NumEffect, NumOutcome, numeric_effect, pop_k};
use crate::exec::memory::{MemEffect, Memory, memory_effect, is_load, is_store};
use crate::exec::cell::NULL_REF;
use crate::exec::exn::{Exn, ExnView, Tag, spec_unwind, spec_find_clause};
use crate::engine::{Engine, EngineView};
use crate::canon::registry::{TypeSlot, spec_is_subtype};
use crate::canon::CanonicalTypeId;
use crate::canon::layout::RefKind;
use crate::exec::simd::vector::is_simd_memory;
use crate::exec::simd::compute::simd_memory;
use crate::exec::table::{Table, TableView, TabEffect, table_effect, is_table_op, table_op, tables_view, segs_view, tables_wf};

verus! {

/// Bytes charged against the stack budget per operand cell (its 16-byte encoding) and per frame
/// (this library's frame record: three 32-bit fields). The stacks of one `Execution` are one wasm
/// call stack: an embedder that calls back into wasm from an embedder function runs that call on
/// another `Execution`, charged on its own, so no reserve per such crossing is added here.
pub const CELL_BYTES: usize = 16;
pub const FRAME_BYTES: usize = 12;

/// A global's cell and root tag.
#[derive(Copy, Clone, PartialEq, Eq, Structural, Debug)]
pub struct Global {
    pub value: Cell,
    pub tag: RefTag,
}

/// What a function runs against: the module's compiled functions, the parameter and result
/// counts of the embedder's functions it imports, the canonical type ids of both and of the
/// module's types, its tags, globals, memory, tables and element segments, the exceptions
/// raised so far (an `exnref` is an index among them), the stack budget in bytes,
/// the fuel left (`None` when fuel is not metered) and the epoch deadline (`None` when epoch
/// interruption is off). Its data segments follow the element segments; a dropped segment is empty.
#[derive(Clone, Debug)]
pub struct Instance {
    pub funcs: Vec<CompiledFunc>,
    pub host_funcs: Vec<(u32, u32)>,
    pub func_type_ids: Vec<CanonicalTypeId>,
    pub host_type_ids: Vec<CanonicalTypeId>,
    pub type_ids: Vec<CanonicalTypeId>,
    pub tags: Vec<Tag>,
    pub globals: Vec<Global>,
    pub memory: Memory,
    pub tables: Vec<Table>,
    pub elems: Vec<Vec<Option<u32>>>,
    pub datas: Vec<Vec<u8>>,
    pub exns: Vec<Exn>,
    pub max_wasm_stack: usize,
    pub fuel: Option<u64>,
    pub epoch_deadline: Option<u64>,
}

impl Instance {
    pub open spec fn wf(&self) -> bool {
        &&& self.memory.wf()
        &&& self.funcs@.len() <= u32::MAX
        &&& forall|i: int| 0 <= i < self.funcs@.len() ==> (#[trigger] self.funcs@[i]).ops@.len() < u32::MAX
        &&& forall|i: int| 0 <= i < self.exns@.len() ==> (#[trigger] self.exns@[i]).args@.len() == self.exns@[i].arg_tags@.len()
        &&& tables_wf(self.tables@)
    }
}

/// Where a step left the execution.
#[derive(Copy, Clone, PartialEq, Eq, Structural, Debug)]
pub enum Status {
    /// More instructions to run.
    Running,
    /// The outermost call returned; its results are on the operand stack.
    Finished,
    /// A trap.
    Trapped(Trap),
    /// A floating-point operation is needed; resume with its result.
    Float(FloatRequest),
    /// The embedder's function `h` is called; its arguments are the top operands. Resume with
    /// its results.
    HostCall(u32),
    /// The epoch deadline was reached before the next instruction; resume once the embedder
    /// has moved the deadline.
    EpochDeadline,
    /// Exception `h` was raised and no frame caught it; the frames are gone.
    Uncaught(u32),
    /// The code asked for an operand, local, global, function or table entry that is not there.
    Invalid,
}

/// The abstract machine: operand cells and tags, frames, globals and memory bytes.
pub ghost struct MachineView {
    pub values: Seq<Cell>,
    pub shadow: Seq<RefTag>,
    pub frames: Seq<Frame>,
    pub globals: Seq<Global>,
    pub memory: Seq<u8>,
    pub fuel: Option<u64>,
    pub exns: Seq<ExnView>,
    pub tables: Seq<TableView>,
    pub elems: Seq<Seq<Option<u32>>>,
    pub datas: Seq<Seq<u8>>,
}

pub open spec fn machine(e: Execution, inst: Instance) -> MachineView {
    MachineView { values: e.values@, shadow: e.shadow@, frames: e.frames@, globals: inst.globals@, memory: inst.memory.bytes@,
        fuel: inst.fuel, exns: inst.exns@.map_values(|x: Exn| x@), tables: tables_view(inst.tables@), elems: segs_view(inst.elems@),
        datas: inst.datas@.map_values(|d: Vec<u8>| d@) }
}

/// What a run never changes: the code, the embedder's function signatures, the memory limit,
/// the stack budget and the epoch deadline.
pub ghost struct CodeView {
    pub funcs: Seq<CompiledFunc>,
    pub host: Seq<(u32, u32)>,
    pub max_pages: u32,
    pub limit: usize,
    pub deadline: Option<u64>,
    pub tags: Seq<Tag>,
    pub func_type_ids: Seq<CanonicalTypeId>,
    pub host_type_ids: Seq<CanonicalTypeId>,
    pub type_ids: Seq<CanonicalTypeId>,
}

/// What a run reads of the engine: its type registry (for signature checks) and its epoch.
pub ghost struct Env {
    pub types: Seq<Option<TypeSlot>>,
    pub epoch: u64,
}

pub open spec fn env_of(e: EngineView) -> Env {
    Env { types: e.types.types@, epoch: e.epoch }
}

pub open spec fn code_of(inst: Instance) -> CodeView {
    CodeView { funcs: inst.funcs@, host: inst.host_funcs@, max_pages: inst.memory.max_pages, limit: inst.max_wasm_stack,
        deadline: inst.epoch_deadline, tags: inst.tags@, func_type_ids: inst.func_type_ids@, host_type_ids: inst.host_type_ids@,
        type_ids: inst.type_ids@ }
}

pub open spec fn fault_status(f: Fault) -> Status {
    match f {
        Fault::Trap(t) => Status::Trapped(t),
        Fault::Invalid => Status::Invalid,
    }
}

/// The frames with the top frame's `ip` set.
pub open spec fn set_ip(frames: Seq<Frame>, ip: u32) -> Seq<Frame> {
    frames.update(frames.len() - 1, Frame { ip, ..frames.last() })
}

/// The estimated bytes the execution stacks use, checked against the stack budget at calls.
pub open spec fn stack_bytes_of(m: MachineView) -> int {
    m.values.len() * CELL_BYTES + m.shadow.len() + m.frames.len() * FRAME_BYTES
}

/// The default value of a local of type `t`.
pub open spec fn default_val(t: ValType) -> Val {
    match t {
        ValType::I32 => Val::I32(0),
        ValType::I64 => Val::I64(0),
        ValType::F32 => Val::F32(0),
        ValType::F64 => Val::F64(0),
        ValType::V128 => Val::V128(0),
        ValType::Ref(rt) => match rt.heap {
            crate::value::HeapType::Func | crate::value::HeapType::NoFunc | crate::value::HeapType::ConcreteFunc(_) => Val::FuncRef(None),
            crate::value::HeapType::Extern | crate::value::HeapType::NoExtern => Val::ExternRef(None),
            crate::value::HeapType::Exn | crate::value::HeapType::NoExn => Val::ExnRef(None),
            _ => Val::AnyRef(None),
        },
    }
}

/// The stack after a taken branch: the top `keep` cells moved down over the `pop` below them.
pub open spec fn branch_stack<T>(s: Seq<T>, t: BranchTarget) -> Seq<T> {
    s.subrange(0, s.len() - t.keep - t.pop) + s.subrange(s.len() - t.keep, s.len() as int)
}

/// Taking branch `t` from machine `m`.
pub open spec fn spec_branch(m: MachineView, t: BranchTarget) -> (MachineView, Status) {
    if t.keep + t.pop > m.values.len() {
        (m, Status::Invalid)
    } else {
        (MachineView {
            values: branch_stack(m.values, t),
            shadow: branch_stack(m.shadow, t),
            frames: set_ip(m.frames, t.ip),
            ..m
        }, Status::Running)
    }
}

/// Returning from the top frame with `n` results.
pub open spec fn spec_return(m: MachineView, n: u32) -> (MachineView, Status) {
    let base = m.frames.last().locals_base;
    let len = m.values.len();
    if n > len || base > len - n {
        (m, Status::Invalid)
    } else {
        let frames = m.frames.drop_last();
        (MachineView {
            values: m.values.subrange(0, base as int) + m.values.subrange(len - n, len as int),
            shadow: m.shadow.subrange(0, base as int) + m.shadow.subrange(len - n, len as int),
            frames,
            ..m
        }, if frames.len() == 0 { Status::Finished } else { Status::Running })
    }
}

/// Entering function `f` (index `fi`): its parameters are the top `n_params` cells, its
/// declared locals are pushed with their default values, and a frame is pushed.
pub open spec fn spec_enter(m: MachineView, fi: u32, f: CompiledFunc) -> (MachineView, Status) {
    let len = m.values.len();
    let locals = f.local_types@;
    if f.n_params > len || len + locals.len() > u32::MAX || m.frames.len() >= u32::MAX {
        (m, Status::Invalid)
    } else {
        (MachineView {
            values: m.values + locals.map_values(|t: ValType| spec_encode(default_val(t))),
            shadow: m.shadow + locals.map_values(|t: ValType| spec_tag_of_val(default_val(t))),
            frames: m.frames.push(Frame { func: fi, ip: 0, locals_base: (len - f.n_params) as u32 }),
            ..m
        }, Status::Running)
    }
}

/// The fuel left after one more instruction.
pub open spec fn burn(fuel: Option<u64>) -> Option<u64> {
    match fuel {
        Some(n) => Some((n - 1) as u64),
        None => None,
    }
}

/// The reference semantics of one instruction step of machine `m` running code `c` against
/// engine state `env`: an instruction costs one unit of fuel (trapping when none is left), and
/// the epoch deadline is checked after the fuel.
#[verifier::opaque]
pub open spec fn spec_step(c: CodeView, env: Env, m: MachineView) -> (MachineView, Status) {
    if m.frames.len() == 0 {
        (m, Status::Finished)
    } else {
        let fr = m.frames.last();
        if fr.func >= c.funcs.len() {
            (m, Status::Invalid)
        } else {
            let f = c.funcs[fr.func as int];
            if fr.ip >= f.ops@.len() {
                spec_return(m, f.n_results)
            } else if m.fuel == Some(0u64) {
                (m, Status::Trapped(Trap::OutOfFuel))
            } else {
                let m1 = MachineView { fuel: burn(m.fuel), ..m };
                match c.deadline {
                    Some(d) if env.epoch >= d => (m1, Status::EpochDeadline),
                    _ => spec_exec(c, env, m1, f, f.ops@[fr.ip as int], (fr.ip + 1) as u32),
                }
            }
        }
    }
}

/// Pushing a cell with its tag and moving on to `next`.
pub open spec fn spec_push(m: MachineView, c: Cell, tag: RefTag, next: u32) -> (MachineView, Status) {
    if m.values.len() >= u32::MAX {
        (m, Status::Invalid)
    } else {
        (MachineView { values: m.values.push(c), shadow: m.shadow.push(tag), frames: set_ip(m.frames, next), ..m }, Status::Running)
    }
}

/// Memory `m` with `[d, d + n)` set from `[s, s + n)` of a data segment.
pub open spec fn init_from(m: Seq<u8>, d: nat, data: Seq<u8>, s: nat, n: nat) -> Seq<u8> {
    Seq::new(m.len(), |i: int| if d <= i < d + n { data[s + (i - d)] } else { m[i] })
}

/// What a cast reads of operand `v` with root tag `tag`: `Some(None)` for null, else the
/// signature of a function reference, or the hierarchy of an external, converted or exception
/// reference; `None` for an operand that is no reference or a function handle that names nothing.
pub open spec fn ref_object(c: CodeView, v: Cell, tag: RefTag) -> Option<Option<RefObject>> {
    if low32(v) == NULL_REF {
        Some(None)
    } else {
        match tag {
            RefTag::Func => match handle_type(c, low32(v)) {
                Some(id) => Some(Some(RefObject::Func(id))),
                None => None,
            },
            RefTag::Extern => Some(Some(RefObject::Extern)),
            RefTag::Any => Some(Some(RefObject::ExternAny)),
            RefTag::Exn => Some(Some(RefObject::Exn)),
            RefTag::NoRef => None,
        }
    }
}

/// The canonical id a concrete cast target names (abstract targets name none and read no id).
pub open spec fn cast_target_id(c: CodeView, t: CastTarget) -> Option<CanonicalTypeId> {
    match t.heap {
        IrHeap::Concrete(i, _) => if i < c.type_ids.len() { Some(c.type_ids[i as int]) } else { None },
        _ => Some(CanonicalTypeId(0)),
    }
}

/// Whether operand `v` (tagged `tag`) belongs to cast target `t`; `None` when the operand or
/// the target is not one the code can name.
pub open spec fn cast_result(c: CodeView, env: Env, v: Cell, tag: RefTag, t: CastTarget) -> Option<bool> {
    match (ref_object(c, v, tag), cast_target_id(c, t)) {
        (Some(o), Some(id)) => Some(spec_matches(o, t.heap, t.nullable, id, env.types)),
        _ => None,
    }
}

/// The reference semantics of executing `op` (the instruction before `next`) in function `f`.
pub open spec fn spec_exec(c: CodeView, env: Env, m: MachineView, f: CompiledFunc, op: Op, next: u32) -> (MachineView, Status) {
    let funcs = c.funcs;
    let len = m.values.len();
    let base = m.frames.last().locals_base;
    let advance = MachineView { frames: set_ip(m.frames, next), ..m };
    match op {
        Op::Nop => (advance, Status::Running),
        Op::Unreachable => (m, Status::Trapped(Trap::UnreachableCodeReached)),
        Op::I32Const(v) => spec_push(m, cell32(v as u32), RefTag::NoRef, next),
        Op::I64Const(v) => spec_push(m, cell64(v as u64), RefTag::NoRef, next),
        Op::F32Const(b) => spec_push(m, cell32(b), RefTag::NoRef, next),
        Op::F64Const(b) => spec_push(m, cell64(b), RefTag::NoRef, next),
        Op::Drop => if len < 1 {
            (m, Status::Invalid)
        } else {
            (MachineView { values: m.values.drop_last(), shadow: m.shadow.drop_last(), ..advance }, Status::Running)
        },
        Op::Select => if len < 3 {
            (m, Status::Invalid)
        } else {
            let pick = if low32(m.values[len - 1]) != 0 { len - 3 } else { len - 2 };
            (MachineView {
                values: m.values.subrange(0, len - 3).push(m.values[pick]),
                shadow: m.shadow.subrange(0, len - 3).push(m.shadow[pick]),
                ..advance
            }, Status::Running)
        },
        Op::LocalGet(i) => if base + i >= len {
            (m, Status::Invalid)
        } else {
            spec_push(m, m.values[base + i], m.shadow[base + i], next)
        },
        Op::LocalSet(i) => if len < 1 || base + i >= len - 1 {
            (m, Status::Invalid)
        } else {
            (MachineView {
                values: m.values.drop_last().update(base + i, m.values.last()),
                shadow: m.shadow.drop_last().update(base + i, m.shadow.last()),
                ..advance
            }, Status::Running)
        },
        Op::LocalTee(i) => if len < 1 || base + i >= len {
            (m, Status::Invalid)
        } else {
            (MachineView {
                values: m.values.update(base + i, m.values.last()),
                shadow: m.shadow.update(base + i, m.shadow.last()),
                ..advance
            }, Status::Running)
        },
        Op::GlobalGet(g) => if g >= m.globals.len() {
            (m, Status::Invalid)
        } else {
            spec_push(m, m.globals[g as int].value, m.globals[g as int].tag, next)
        },
        Op::GlobalSet(g) => if len < 1 || g >= m.globals.len() {
            (m, Status::Invalid)
        } else {
            (MachineView {
                values: m.values.drop_last(),
                shadow: m.shadow.drop_last(),
                globals: m.globals.update(g as int, Global { value: m.values.last(), tag: m.shadow.last() }),
                ..advance
            }, Status::Running)
        },
        Op::Br(t) => spec_branch(m, t),
        Op::BrIf(t) | Op::BrIfNot(t) => if len < 1 {
            (m, Status::Invalid)
        } else {
            let popped = MachineView { values: m.values.drop_last(), shadow: m.shadow.drop_last(), ..m };
            let taken = (low32(m.values.last()) != 0) == (op is BrIf);
            if taken { spec_branch(popped, t) } else { (MachineView { frames: set_ip(m.frames, next), ..popped }, Status::Running) }
        },
        Op::BrTable(r) => if len < 1 || r.base + r.len >= f.br_tables@.len() {
            (m, Status::Invalid)
        } else {
            let popped = MachineView { values: m.values.drop_last(), shadow: m.shadow.drop_last(), ..m };
            let i = low32(m.values.last());
            let t = if i < r.len { f.br_tables@[r.base + i] } else { f.br_tables@[r.base + r.len] };
            spec_branch(popped, t)
        },
        Op::BrOnNull(t) => if len < 1 {
            (m, Status::Invalid)
        } else if low32(m.values.last()) == NULL_REF {
            spec_branch(MachineView { values: m.values.drop_last(), shadow: m.shadow.drop_last(), ..m }, t)
        } else {
            (advance, Status::Running)
        },
        Op::BrOnNonNull(t) => if len < 1 {
            (m, Status::Invalid)
        } else if low32(m.values.last()) == NULL_REF {
            (MachineView { values: m.values.drop_last(), shadow: m.shadow.drop_last(), ..advance }, Status::Running)
        } else {
            spec_branch(m, t)
        },
        Op::MemoryInit(seg) => if len < 3 || seg >= m.datas.len() {
            (m, Status::Invalid)
        } else {
            let d = low32(m.values[len - 3]);
            let src = low32(m.values[len - 2]);
            let n = low32(m.values[len - 1]);
            let data = m.datas[seg as int];
            if src + n > data.len() || d + n > m.memory.len() {
                (m, Status::Trapped(Trap::MemoryOutOfBounds))
            } else {
                (MachineView { values: pop_k(m.values, 3), shadow: pop_k(m.shadow, 3),
                    memory: init_from(m.memory, d as nat, data, src as nat, n as nat), ..advance }, Status::Running)
            }
        },
        Op::DataDrop(seg) => if seg >= m.datas.len() {
            (m, Status::Invalid)
        } else {
            (MachineView { datas: m.datas.update(seg as int, Seq::empty()), ..advance }, Status::Running)
        },
        Op::RefTest(t) | Op::RefCast(t) => if len < 1 {
            (m, Status::Invalid)
        } else {
            match cast_result(c, env, m.values.last(), m.shadow.last(), t) {
                None => (m, Status::Invalid),
                Some(b) => if op is RefTest {
                    (MachineView { values: m.values.drop_last().push(cell32(if b { 1u32 } else { 0u32 })),
                        shadow: m.shadow.drop_last().push(RefTag::NoRef), ..advance }, Status::Running)
                } else if b {
                    (advance, Status::Running)
                } else {
                    (m, Status::Trapped(Trap::CastFailure))
                },
            }
        },
        Op::BrOnCast(bt, t) | Op::BrOnCastFail(bt, t) => if len < 1 {
            (m, Status::Invalid)
        } else {
            match cast_result(c, env, m.values.last(), m.shadow.last(), t) {
                None => (m, Status::Invalid),
                Some(b) => if b != (op is BrOnCastFail) { spec_branch(m, bt) } else { (advance, Status::Running) },
            }
        },
        Op::AnyConvertExtern | Op::ExternConvertAny => {
            let (from, to) = if op is AnyConvertExtern { (RefTag::Extern, RefTag::Any) } else { (RefTag::Any, RefTag::Extern) };
            if len < 1 || m.shadow.last() != from {
                (m, Status::Invalid)
            } else {
                (MachineView { shadow: m.shadow.drop_last().push(to), ..advance }, Status::Running)
            }
        },
        Op::RefAsNonNull => if len < 1 {
            (m, Status::Invalid)
        } else if low32(m.values.last()) == NULL_REF {
            (m, Status::Trapped(Trap::NullReference))
        } else {
            (advance, Status::Running)
        },
        Op::Return => spec_return(m, f.n_results),
        Op::Call(fi) => if fi >= funcs.len() {
            (m, Status::Invalid)
        } else if stack_bytes_of(m) >= c.limit {
            (m, Status::Trapped(Trap::StackOverflow))
        } else {
            spec_enter(advance, fi, funcs[fi as int])
        },
        Op::ReturnCall(fi) => if fi >= funcs.len() {
            (m, Status::Invalid)
        } else {
            let (m1, s1) = spec_return(m, funcs[fi as int].n_params);
            if s1 is Invalid { (m, Status::Invalid) } else { spec_enter(m1, fi, funcs[fi as int]) }
        },
        Op::CallHost(h) => if h >= c.host.len() || c.host[h as int].0 > len {
            (m, Status::Invalid)
        } else {
            (advance, Status::HostCall(h))
        },
        Op::ReturnCallHost(h) => if h >= c.host.len() {
            (m, Status::Invalid)
        } else {
            let (m1, s1) = spec_return(m, c.host[h as int].0);
            if s1 is Invalid { (m, Status::Invalid) } else { (m1, Status::HostCall(h)) }
        },
        Op::Throw(t) => if t >= c.tags.len() || c.tags[t as int].n_params > len || m.exns.len() >= u32::MAX {
            (m, Status::Invalid)
        } else {
            let n = c.tags[t as int].n_params;
            let e = ExnView { tag: c.tags[t as int].id, args: m.values.subrange(len - n, len as int), arg_tags: m.shadow.subrange(len - n, len as int) };
            let m1 = MachineView { values: m.values.take(len - n), shadow: m.shadow.take(len - n), exns: m.exns.push(e), ..m };
            spec_unwind(c, m1, m.exns.len() as u32, prev_ip(next))
        },
        Op::CallIndirect(ty, t) | Op::ReturnCallIndirect(ty, t) => if t >= m.tables.len() || ty >= c.type_ids.len() || len < 1 {
            (m, Status::Invalid)
        } else {
            let i = low32(m.values.last());
            let m1 = MachineView { values: m.values.drop_last(), shadow: m.shadow.drop_last(), ..m };
            let tb = m.tables[t as int];
            if i >= tb.elems.len() {
                (m, Status::Trapped(Trap::TableOutOfBounds))
            } else {
                match tb.elems[i as int] {
                    None => (m, Status::Trapped(Trap::IndirectCallToNull)),
                    Some(h) => if tb.kind != RefKind::Func {
                        (m, Status::Trapped(Trap::BadSignature))
                    } else {
                        match handle_type(c, h) {
                            None => (m, Status::Invalid),
                            Some(a) => if a.0 < env.types.len() && spec_is_subtype(env.types, a, c.type_ids[ty as int]) {
                                spec_call_handle(c, m1, h, next, op is ReturnCallIndirect)
                            } else {
                                (m, Status::Trapped(Trap::BadSignature))
                            },
                        }
                    },
                }
            }
        },
        Op::CallRef(_) | Op::ReturnCallRef(_) => if len < 1 {
            (m, Status::Invalid)
        } else {
            let h = low32(m.values.last());
            if h == NULL_REF {
                (m, Status::Trapped(Trap::NullReference))
            } else {
                spec_call_handle(c, MachineView { values: m.values.drop_last(), shadow: m.shadow.drop_last(), ..m }, h, next,
                    op is ReturnCallRef)
            }
        },
        Op::ThrowRef => if len < 1 {
            (m, Status::Invalid)
        } else {
            let h = low32(m.values.last());
            if h == NULL_REF {
                (m, Status::Trapped(Trap::NullReference))
            } else if h >= m.exns.len() {
                (m, Status::Invalid)
            } else {
                spec_unwind(c, MachineView { values: m.values.drop_last(), shadow: m.shadow.drop_last(), ..m }, h, prev_ip(next))
            }
        },
        _ => if is_table_op(op) {
            match table_effect(op, m.values, m.tables, m.elems) {
                TabEffect::Done(k, push, tabs, segs) => match push {
                    Some(p) => if m.values.len() - k >= u32::MAX {
                        (m, Status::Invalid)
                    } else {
                        (MachineView { values: pop_k(m.values, k).push(p.0), shadow: pop_k(m.shadow, k).push(p.1), tables: tabs,
                            elems: segs, ..advance }, Status::Running)
                    },
                    None => (MachineView { values: pop_k(m.values, k), shadow: pop_k(m.shadow, k), tables: tabs, elems: segs, ..advance },
                        Status::Running),
                },
                TabEffect::Fail(e) => (m, fault_status(e)),
            }
        } else if is_memory_op(op) {
            match memory_effect(op, m.values, m.memory, c.max_pages) {
                MemEffect::Done(k, push, mem) => (MachineView {
                    values: match push { Some(c) => pop_k(m.values, k).push(c), None => pop_k(m.values, k) },
                    shadow: match push { Some(c) => pop_k(m.shadow, k).push(RefTag::NoRef), None => pop_k(m.shadow, k) },
                    memory: mem,
                    ..advance
                }, Status::Running),
                MemEffect::Fail(e) => (m, fault_status(e)),
            }
        } else {
            match numeric_effect(op, m.values) {
                NumEffect::Push(k, c) => (MachineView { values: replace_top(m.values, k, c), shadow: pop_k(m.shadow, k).push(RefTag::NoRef), ..advance }, Status::Running),
                NumEffect::Request(k, q) => (MachineView { values: pop_k(m.values, k), shadow: pop_k(m.shadow, k), ..advance }, Status::Float(q)),
                NumEffect::Fail(e) => (m, fault_status(e)),
            }
        },
    }
}

/// Bringing an external reference into the `any` hierarchy and out again gives back the same
/// operand stack.
pub proof fn lemma_extern_any_round_trip(c: CodeView, env: Env, m: MachineView, f: CompiledFunc, n1: u32, n2: u32)
    requires
        m.values.len() >= 1,
        m.shadow.len() == m.values.len(),
        m.shadow.last() == RefTag::Extern,
        m.frames.len() > 0,
    ensures
        ({
            let (m1, s1) = spec_exec(c, env, m, f, Op::AnyConvertExtern, n1);
            let (m2, s2) = spec_exec(c, env, m1, f, Op::ExternConvertAny, n2);
            &&& s1 is Running
            &&& s2 is Running
            &&& m2.values == m.values
            &&& m2.shadow == m.shadow
        }),
{
    let (m1, s1) = spec_exec(c, env, m, f, Op::AnyConvertExtern, n1);
    assert(m1.shadow.last() == RefTag::Any);
    let (m2, s2) = spec_exec(c, env, m1, f, Op::ExternConvertAny, n2);
    assert(m2.shadow =~= m.shadow);
}

/// A tail call replaces the calling frame: when the callee starts, the frame stack is exactly
/// as deep as before the call.
pub proof fn lemma_return_call_keeps_depth(c: CodeView, env: Env, m: MachineView, f: CompiledFunc, fi: u32, next: u32)
    requires
        m.frames.len() > 0,
        spec_exec(c, env, m, f, Op::ReturnCall(fi), next).1 is Running,
    ensures
        spec_exec(c, env, m, f, Op::ReturnCall(fi), next).0.frames.len() == m.frames.len(),
        spec_exec(c, env, m, f, Op::ReturnCall(fi), next).0.frames.last().func == fi,
        spec_exec(c, env, m, f, Op::ReturnCall(fi), next).0.frames.last().ip == 0,
{
}

/// A call pushes one frame for the callee, which starts at its first instruction.
pub proof fn lemma_call_pushes_a_frame(c: CodeView, env: Env, m: MachineView, f: CompiledFunc, fi: u32, next: u32)
    requires
        m.frames.len() > 0,
        spec_exec(c, env, m, f, Op::Call(fi), next).1 is Running,
    ensures
        spec_exec(c, env, m, f, Op::Call(fi), next).0.frames.len() == m.frames.len() + 1,
        spec_exec(c, env, m, f, Op::Call(fi), next).0.frames.last().func == fi,
        spec_exec(c, env, m, f, Op::Call(fi), next).0.frames.last().ip == 0,
        spec_exec(c, env, m, f, Op::Call(fi), next).0.frames[m.frames.len() - 1].ip == next,
{
}

/// Where a call goes: a nested call of a wasm function pushes its frame and leaves the caller to
/// resume after the call; a tail call of one replaces the caller's frame; a nested call of the
/// embedder's function hands it over with the caller resuming after the call; a tail call of it
/// hands it over in place of the caller's frame.
pub proof fn lemma_call_outcome(c: CodeView, m: MachineView, h: u32, next: u32, tail: bool)
    requires
        m.frames.len() > 0,
        !(spec_call_handle(c, m, h, next, tail).1 is Invalid || spec_call_handle(c, m, h, next, tail).1 is Trapped),
    ensures
        ({
            let (m1, s) = spec_call_handle(c, m, h, next, tail);
            let nf = c.funcs.len();
            &&& h < nf && !tail ==> s is Running && m1.frames.len() == m.frames.len() + 1 && m1.frames.last().func == h
                && m1.frames.last().ip == 0 && m1.frames[m.frames.len() - 1].ip == next
            &&& h < nf && tail ==> s is Running && m1.frames.len() == m.frames.len() && m1.frames.last().func == h
                && m1.frames.last().ip == 0
            &&& h >= nf && !tail ==> s == Status::HostCall((h - nf) as u32) && m1.frames.len() == m.frames.len()
                && m1.frames.last().ip == next
            &&& h >= nf && tail ==> s == Status::HostCall((h - nf) as u32) && m1.frames.len() == m.frames.len() - 1
        }),
{
}

/// `select` takes three operands `a b cond` and leaves `a` when the `i32` condition is non-zero,
/// `b` when it is zero (each with its root tag), and the code goes on with the next instruction.
#[verifier::spinoff_prover]
pub proof fn lemma_select_picks_by_condition(c: CodeView, env: Env, m: MachineView, f: CompiledFunc, next: u32)
    requires
        m.frames.len() > 0,
        m.values.len() >= 3,
        m.shadow.len() == m.values.len(),
    ensures
        ({
            let (m1, st) = spec_exec(c, env, m, f, Op::Select, next);
            let n = m.values.len() as int;
            let cond = low32(m.values[n - 1]);
            &&& st is Running
            &&& m1.values.len() == n - 2 && m1.shadow.len() == n - 2
            &&& forall|i: int| 0 <= i < n - 3 ==> m1.values[i] == m.values[i] && m1.shadow[i] == m.shadow[i]
            &&& cond != 0 ==> m1.values[n - 3] == m.values[n - 3] && m1.shadow[n - 3] == m.shadow[n - 3]
            &&& cond == 0 ==> m1.values[n - 3] == m.values[n - 2] && m1.shadow[n - 3] == m.shadow[n - 2]
            &&& m1.frames.len() == m.frames.len() && m1.frames.last().ip == next
        }),
{
}

/// Constants push their value (with no root), `drop` removes the top operand, `nop` changes
/// nothing but the position, and `unreachable` traps leaving the machine as it was.
#[verifier::spinoff_prover]
pub proof fn lemma_consts_drop_nop(c: CodeView, env: Env, m: MachineView, f: CompiledFunc, next: u32, x: i32, y: i64)
    requires
        m.frames.len() > 0,
        m.shadow.len() == m.values.len(),
        m.values.len() < u32::MAX,
    ensures
        spec_exec(c, env, m, f, Op::I32Const(x), next).1 is Running,
        spec_exec(c, env, m, f, Op::I32Const(x), next).0.values == m.values.push(cell32(x as u32)),
        spec_exec(c, env, m, f, Op::I32Const(x), next).0.shadow == m.shadow.push(RefTag::NoRef),
        spec_exec(c, env, m, f, Op::I64Const(y), next).0.values == m.values.push(cell64(y as u64)),
        m.values.len() >= 1 ==> spec_exec(c, env, m, f, Op::Drop, next).1 is Running
            && spec_exec(c, env, m, f, Op::Drop, next).0.values == m.values.subrange(0, m.values.len() - 1),
        spec_exec(c, env, m, f, Op::Nop, next).1 is Running,
        spec_exec(c, env, m, f, Op::Nop, next).0.values == m.values,
        spec_exec(c, env, m, f, Op::Nop, next).0.frames.last().ip == next,
        spec_exec(c, env, m, f, Op::Unreachable, next) == (m, Status::Trapped(Trap::UnreachableCodeReached)),
{
}

/// `local.get i` pushes local `i` (a copy, with its root tag); `local.set i` pops the top operand
/// into local `i`; `local.tee i` writes it into local `i` and keeps it on top. Locals are the
/// operands from the top frame's base on.
#[verifier::spinoff_prover]
pub proof fn lemma_locals(c: CodeView, env: Env, m: MachineView, f: CompiledFunc, next: u32, i: u32)
    requires
        m.frames.len() > 0,
        m.shadow.len() == m.values.len(),
        m.values.len() < u32::MAX,
    ensures
        ({
            let n = m.values.len() as int;
            let l = m.frames.last().locals_base + i;
            let get = spec_exec(c, env, m, f, Op::LocalGet(i), next);
            let set = spec_exec(c, env, m, f, Op::LocalSet(i), next);
            let tee = spec_exec(c, env, m, f, Op::LocalTee(i), next);
            &&& l < n ==> get.1 is Running && get.0.values == m.values.push(m.values[l]) && get.0.shadow == m.shadow.push(m.shadow[l])
            &&& n >= 1 && l < n - 1 ==> set.1 is Running && set.0.values.len() == n - 1
                && set.0.values[l] == m.values[n - 1] && set.0.shadow[l] == m.shadow[n - 1]
                && forall|j: int| 0 <= j < n - 1 && j != l ==> set.0.values[j] == m.values[j]
            &&& n >= 1 && l < n ==> tee.1 is Running && tee.0.values.len() == n
                && tee.0.values[l] == m.values[n - 1] && tee.0.values[n - 1] == m.values[n - 1]
                && forall|j: int| 0 <= j < n && j != l ==> tee.0.values[j] == m.values[j]
        }),
{
}

/// `global.get g` pushes global `g`'s value (with its root tag); `global.set g` pops the top
/// operand into it and leaves every other global as it was.
#[verifier::spinoff_prover]
pub proof fn lemma_globals(c: CodeView, env: Env, m: MachineView, f: CompiledFunc, next: u32, g: u32)
    requires
        m.frames.len() > 0,
        m.shadow.len() == m.values.len(),
        m.values.len() < u32::MAX,
        g < m.globals.len(),
    ensures
        spec_exec(c, env, m, f, Op::GlobalGet(g), next).1 is Running,
        spec_exec(c, env, m, f, Op::GlobalGet(g), next).0.values == m.values.push(m.globals[g as int].value),
        spec_exec(c, env, m, f, Op::GlobalGet(g), next).0.shadow == m.shadow.push(m.globals[g as int].tag),
        m.values.len() >= 1 ==> ({
            let (m1, st) = spec_exec(c, env, m, f, Op::GlobalSet(g), next);
            &&& st is Running
            &&& m1.globals[g as int].value == m.values.last()
            &&& m1.globals[g as int].tag == m.shadow.last()
            &&& m1.globals.len() == m.globals.len()
            &&& forall|k: int| 0 <= k < m.globals.len() && k != g ==> m1.globals[k] == m.globals[k]
            &&& m1.values == m.values.subrange(0, m.values.len() - 1)
        }),
{
}

/// `br_if` pops its `i32` condition and branches exactly when it is non-zero; `br_if_not` (the
/// compiled `if`) exactly when it is zero. A taken branch keeps the top `keep` operands, drops the
/// `pop` below them, and jumps; a branch not taken only moves on.
#[verifier::spinoff_prover]
pub proof fn lemma_br_if(c: CodeView, env: Env, m: MachineView, f: CompiledFunc, next: u32, t: BranchTarget)
    requires
        m.frames.len() > 0,
        m.shadow.len() == m.values.len(),
        m.values.len() >= 1,
    ensures
        ({
            let n = m.values.len() as int;
            let cond = low32(m.values[n - 1]);
            let (m1, st) = spec_exec(c, env, m, f, Op::BrIf(t), next);
            let (m2, st2) = spec_exec(c, env, m, f, Op::BrIfNot(t), next);
            let rest = n - 1;
            &&& cond != 0 && t.keep + t.pop <= rest ==> st is Running && m1.frames.last().ip == t.ip
                && m1.values.len() == rest - t.pop
                && (forall|j: int| 0 <= j < rest - t.keep - t.pop ==> m1.values[j] == m.values[j])
                && (forall|j: int| rest - t.keep <= j < rest ==> #[trigger] m.values[j] == m1.values[j - t.pop])
            &&& cond == 0 ==> st is Running && m1.frames.last().ip == next && m1.values == m.values.subrange(0, rest)
            &&& cond == 0 && t.keep + t.pop <= rest ==> st2 is Running && m2.frames.last().ip == t.ip
            &&& cond != 0 ==> st2 is Running && m2.frames.last().ip == next && m2.values == m.values.subrange(0, rest)
        }),
{
}

/// A call keeps the caller's operands as they were (its arguments become the callee's first
/// locals, which start where the arguments start) and appends the callee's declared locals, each
/// the default value of its type; `return` with `n` results drops the frame's locals and
/// operands, keeps its top `n` operands in order in their place, and pops the frame.
#[verifier::spinoff_prover]
pub proof fn lemma_call_then_return(c: CodeView, env: Env, m: MachineView, f: CompiledFunc, fi: u32, next: u32, n: u32)
    requires
        m.frames.len() > 0,
    ensures
        ({
            let (m1, st) = spec_exec(c, env, m, f, Op::Call(fi), next);
            st is Running ==> {
                let g = c.funcs[fi as int];
                let len = m.values.len() as int;
                &&& m1.values.len() == len + g.local_types@.len()
                &&& forall|i: int| 0 <= i < len ==> m1.values[i] == m.values[i]
                &&& forall|i: int| 0 <= i < g.local_types@.len() ==> #[trigger] m1.values[len + i] == spec_encode(default_val(g.local_types@[i]))
                &&& m1.frames.last().locals_base == len - g.n_params
            }
        }),
        ({
            let (m2, st2) = spec_return(m, n);
            let base = m.frames.last().locals_base as int;
            let len = m.values.len() as int;
            &&& (n <= len && base <= len - n) ==> {
                &&& m2.values.len() == base + n
                &&& forall|i: int| 0 <= i < base ==> m2.values[i] == m.values[i]
                &&& forall|i: int| 0 <= i < n ==> #[trigger] m2.values[base + i] == m.values[len - n + i]
                &&& m2.frames == m.frames.subrange(0, m.frames.len() - 1)
                &&& (st2 is Finished <==> m.frames.len() == 1)
            }
            &&& !(n <= len && base <= len - n) ==> st2 is Invalid
        }),
{
    let (m1, st) = spec_exec(c, env, m, f, Op::Call(fi), next);
    if st is Running {
        let g = c.funcs[fi as int];
        let len = m.values.len() as int;
        let loc = g.local_types@.map_values(|t: ValType| spec_encode(default_val(t)));
        assert forall|i: int| 0 <= i < g.local_types@.len() implies #[trigger] m1.values[len + i] == spec_encode(default_val(g.local_types@[i])) by {
            assert(m1.values[len + i] == loc[i]);
        }
    }
    let base = m.frames.last().locals_base as int;
    let len = m.values.len() as int;
    let (m2, st2) = spec_return(m, n);
    if n <= len && base <= len - n {
        assert forall|i: int| 0 <= i < n implies #[trigger] m2.values[base + i] == m.values[len - n + i] by {
            assert(m2.values[base + i] == m.values.subrange(len - n, len)[i]);
        }
    }
}

/// `br_table` pops its `i32` index and takes the entry the index names when it is below the
/// table's length, and the default entry (the one after them) otherwise.
#[verifier::spinoff_prover]
pub proof fn lemma_br_table_picks_entry(c: CodeView, env: Env, m: MachineView, f: CompiledFunc, next: u32, r: TableRange)
    requires
        m.frames.len() > 0,
        m.values.len() >= 1,
        m.shadow.len() == m.values.len(),
        r.base + r.len < f.br_tables@.len(),
    ensures
        ({
            let n = m.values.len() as int;
            let i = low32(m.values[n - 1]);
            let t = if i < r.len { f.br_tables@[r.base + i] } else { f.br_tables@[r.base + r.len] };
            let popped = MachineView { values: m.values.subrange(0, n - 1), shadow: m.shadow.subrange(0, n - 1), ..m };
            &&& spec_exec(c, env, m, f, Op::BrTable(r), next) == spec_branch(popped, t)
            &&& t.keep + t.pop <= n - 1 ==> spec_exec(c, env, m, f, Op::BrTable(r), next).0.frames.last().ip == t.ip
        }),
{
}

/// `br_on_null` pops a null reference and branches, and otherwise keeps the reference and goes
/// on; `br_on_non_null` branches keeping a non-null reference, and pops a null one and goes on.
#[verifier::spinoff_prover]
pub proof fn lemma_br_on_null(c: CodeView, env: Env, m: MachineView, f: CompiledFunc, next: u32, t: BranchTarget)
    requires
        m.frames.len() > 0,
        m.values.len() >= 1,
        m.shadow.len() == m.values.len(),
    ensures
        ({
            let n = m.values.len() as int;
            let null = low32(m.values[n - 1]) == NULL_REF;
            let (a, sa) = spec_exec(c, env, m, f, Op::BrOnNull(t), next);
            let (b, sb) = spec_exec(c, env, m, f, Op::BrOnNonNull(t), next);
            &&& !null ==> sa is Running && a.values == m.values && a.frames.last().ip == next
            &&& null && t.keep + t.pop <= n - 1 ==> sa is Running && a.frames.last().ip == t.ip && a.values.len() == n - 1 - t.pop
            &&& null ==> sb is Running && b.values == m.values.subrange(0, n - 1) && b.frames.last().ip == next
            &&& !null && t.keep + t.pop <= n ==> sb is Running && b.frames.last().ip == t.ip && b.values.len() == n - t.pop
                && (t.keep > 0 ==> b.values[b.values.len() - 1] == m.values[n - 1])
        }),
{
}

/// Fuel and the epoch deadline gate every instruction: with no fuel left the step traps with
/// `OutOfFuel` before the instruction and changes nothing; otherwise the instruction costs exactly
/// one unit (unmetered runs have no fuel count), and once the engine's epoch has reached the
/// deadline the step stops with `EpochDeadline` before the instruction, its fuel spent. A frame
/// whose code has run out returns from the function.
#[verifier::spinoff_prover]
pub proof fn lemma_fuel_and_deadline(c: CodeView, env: Env, m: MachineView)
    requires
        m.frames.len() > 0,
        m.frames.last().func < c.funcs.len(),
        m.frames.last().ip < c.funcs[m.frames.last().func as int].ops@.len(),
    ensures
        m.fuel == Some(0u64) ==> spec_step(c, env, m) == (m, Status::Trapped(Trap::OutOfFuel)),
        m.fuel != Some(0u64) && (c.deadline matches Some(d) && env.epoch >= d) ==>
            spec_step(c, env, m) == (MachineView { fuel: burn(m.fuel), ..m }, Status::EpochDeadline),
        m.fuel is Some && m.fuel->0 > 0 ==> burn(m.fuel) == Some((m.fuel->0 - 1) as u64),
        m.fuel is None ==> burn(m.fuel) is None,
{
    reveal(spec_step);
}

/// A step of a frame whose code has run out returns from its function with its declared results.
#[verifier::spinoff_prover]
pub proof fn lemma_falling_off_the_end_returns(c: CodeView, env: Env, m: MachineView)
    requires
        m.frames.len() > 0,
        m.frames.last().func < c.funcs.len(),
        m.frames.last().ip >= c.funcs[m.frames.last().func as int].ops@.len(),
    ensures
        spec_step(c, env, m) == spec_return(m, c.funcs[m.frames.last().func as int].n_results),
{
    reveal(spec_step);
}

/// `ref.test` replaces a reference by 1 when it belongs to the target type and 0 otherwise;
/// `ref.cast` lets a reference that belongs through unchanged and traps with `CastFailure` on one
/// that does not; `ref.as_non_null` traps on null and lets any other reference through.
#[verifier::spinoff_prover]
pub proof fn lemma_ref_test_cast(c: CodeView, env: Env, m: MachineView, f: CompiledFunc, next: u32, t: CastTarget)
    requires
        m.frames.len() > 0,
        m.values.len() >= 1,
        m.shadow.len() == m.values.len(),
    ensures
        ({
            let n = m.values.len() as int;
            let (a, sa) = spec_exec(c, env, m, f, Op::RefTest(t), next);
            let (b, sb) = spec_exec(c, env, m, f, Op::RefCast(t), next);
            let (d, sd) = spec_exec(c, env, m, f, Op::RefAsNonNull, next);
            &&& cast_result(c, env, m.values[n - 1], m.shadow[n - 1], t) matches Some(yes) ==> {
                &&& sa is Running && a.values == m.values.subrange(0, n - 1).push(cell32(if yes { 1u32 } else { 0u32 }))
                &&& a.shadow[n - 1] == RefTag::NoRef && a.frames.last().ip == next
                &&& yes ==> sb is Running && b.values == m.values && b.shadow == m.shadow && b.frames.last().ip == next
                &&& !yes ==> sb == Status::Trapped(Trap::CastFailure) && b == m
            }
            &&& low32(m.values[n - 1]) == NULL_REF ==> sd == Status::Trapped(Trap::NullReference) && d == m
            &&& low32(m.values[n - 1]) != NULL_REF ==> sd is Running && d.values == m.values && d.frames.last().ip == next
        }),
{
}

/// Unwinding never adds a frame.
proof fn lemma_unwind_frames(c: CodeView, m: MachineView, h: u32, ip: u32)
    ensures
        spec_unwind(c, m, h, ip).0.frames.len() <= m.frames.len(),
    decreases m.frames.len(),
{
    if m.frames.len() > 0 {
        let fr = m.frames.last();
        if fr.func < c.funcs.len() && h < m.exns.len() {
            let f = c.funcs[fr.func as int];
            if spec_find_clause(f.handlers@, ip, c.tags, m.exns[h as int].tag, 0) is None {
                let base = fr.locals_base as int;
                if base <= m.values.len() {
                    let m2 = MachineView { values: m.values.take(base), shadow: m.shadow.take(base), frames: m.frames.drop_last(), ..m };
                    if m2.frames.len() > 0 {
                        let ip2 = m2.frames.last().ip;
                        lemma_unwind_frames(c, m2, h, if ip2 == 0 { 0u32 } else { (ip2 - 1) as u32 });
                    }
                }
            }
        }
    }
}

/// Executing one instruction adds at most one frame, and only a call adds one, when the stacks
/// (less the call's own callee operand, if it takes one) are under the stack budget.
#[verifier::rlimit(100)]
#[verifier::spinoff_prover]
pub proof fn lemma_exec_frame_growth(c: CodeView, env: Env, m: MachineView, f: CompiledFunc, op: Op, next: u32)
    requires
        m.frames.len() > 0,
        m.values.len() == m.shadow.len(),
    ensures
        spec_exec(c, env, m, f, op, next).0.frames.len() <= m.frames.len() + 1,
        spec_exec(c, env, m, f, op, next).0.frames.len() > m.frames.len() ==> stack_bytes_of(m) < c.limit + CELL_BYTES + 1,
{
    let len = m.values.len();
    match op {
        Op::Throw(t) => {
            if !(t >= c.tags.len() || c.tags[t as int].n_params > len || m.exns.len() >= u32::MAX) {
                let n = c.tags[t as int].n_params;
                let e = ExnView { tag: c.tags[t as int].id, args: m.values.subrange(len - n, len as int), arg_tags: m.shadow.subrange(len - n, len as int) };
                let m1 = MachineView { values: m.values.take(len - n), shadow: m.shadow.take(len - n), exns: m.exns.push(e), ..m };
                lemma_unwind_frames(c, m1, m.exns.len() as u32, prev_ip(next));
            }
        },
        Op::ThrowRef => {
            if len >= 1 {
                let h = low32(m.values.last());
                lemma_unwind_frames(c, MachineView { values: m.values.drop_last(), shadow: m.shadow.drop_last(), ..m }, h, prev_ip(next));
            }
        },
        _ => {},
    }
}

/// One step adds at most one frame, and only a call made with the stacks (less its callee
/// operand) under the stack budget adds one.
pub proof fn lemma_step_frame_growth(c: CodeView, env: Env, m: MachineView)
    requires
        m.values.len() == m.shadow.len(),
    ensures
        spec_step(c, env, m).0.frames.len() <= m.frames.len() + 1,
        spec_step(c, env, m).0.frames.len() > m.frames.len() ==> stack_bytes_of(m) < c.limit + CELL_BYTES + 1,
{
    reveal(spec_step);
    if m.frames.len() > 0 {
        let fr = m.frames.last();
        if fr.func < c.funcs.len() {
            let f = c.funcs[fr.func as int];
            if fr.ip < f.ops@.len() {
                let m1 = MachineView { fuel: burn(m.fuel), ..m };
                lemma_exec_frame_growth(c, env, m1, f, f.ops@[fr.ip as int], (fr.ip + 1) as u32);
            }
        }
    }
}

/// A run of `i + 1` steps is a run of `i` steps and, if that one is still running, one step more.
pub proof fn lemma_run_one_more(c: CodeView, env: Env, m: MachineView, i: nat)
    ensures
        spec_run(c, env, m, i + 1) == if spec_run(c, env, m, i).1 is Running {
            spec_step(c, env, spec_run(c, env, m, i).0)
        } else {
            spec_run(c, env, m, i)
        },
    decreases i,
{
    reveal_with_fuel(spec_run, 2);
    if i > 0 {
        let (m1, s) = spec_step(c, env, m);
        if s is Running {
            lemma_run_one_more(c, env, m1, (i - 1) as nat);
        }
    }
}

/// Over a whole run, the stacks never take a frame past the budget: at every step of it (from a
/// state whose cells and tags are parallel) at most one frame is added, and one is added only by
/// a call made with the stacks (less its callee operand) under the stack budget.
pub proof fn lemma_run_frame_growth(c: CodeView, env: Env, m: MachineView, i: nat)
    requires
        spec_run(c, env, m, i).1 is Running,
        spec_run(c, env, m, i).0.values.len() == spec_run(c, env, m, i).0.shadow.len(),
    ensures
        spec_run(c, env, m, i + 1).0.frames.len() <= spec_run(c, env, m, i).0.frames.len() + 1,
        spec_run(c, env, m, i + 1).0.frames.len() > spec_run(c, env, m, i).0.frames.len()
            ==> stack_bytes_of(spec_run(c, env, m, i).0) < c.limit + CELL_BYTES + 1,
{
    lemma_run_one_more(c, env, m, i);
    lemma_step_frame_growth(c, env, spec_run(c, env, m, i).0);
}

/// The canonical type of the function with handle `h` (wasm functions first, then the
/// embedder's), if there is one.
pub open spec fn handle_type(c: CodeView, h: u32) -> Option<CanonicalTypeId> {
    if h < c.funcs.len() {
        if h < c.func_type_ids.len() { Some(c.func_type_ids[h as int]) } else { None }
    } else if h - c.funcs.len() < c.host_type_ids.len() {
        Some(c.host_type_ids[h - c.funcs.len()])
    } else {
        None
    }
}

/// Calling the function with handle `h` (wasm functions first, then the embedder's) over the
/// arguments on the stack: a nested call from the instruction before `next`, or a tail call.
pub open spec fn spec_call_handle(c: CodeView, m: MachineView, h: u32, next: u32, tail: bool) -> (MachineView, Status) {
    let nf = c.funcs.len();
    let advance = MachineView { frames: set_ip(m.frames, next), ..m };
    if h < nf {
        if tail {
            let (m1, s1) = spec_return(m, c.funcs[h as int].n_params);
            if s1 is Invalid { (m, Status::Invalid) } else { spec_enter(m1, h, c.funcs[h as int]) }
        } else if stack_bytes_of(m) >= c.limit {
            (m, Status::Trapped(Trap::StackOverflow))
        } else {
            spec_enter(advance, h, c.funcs[h as int])
        }
    } else if h - nf < c.host.len() {
        let hh = (h - nf) as u32;
        if tail {
            let (m1, s1) = spec_return(m, c.host[hh as int].0);
            if s1 is Invalid { (m, Status::Invalid) } else { (m1, Status::HostCall(hh)) }
        } else if c.host[hh as int].0 > m.values.len() {
            (m, Status::Invalid)
        } else {
            (advance, Status::HostCall(hh))
        }
    } else {
        (m, Status::Invalid)
    }
}

/// The instruction before `next` (the one running).
pub open spec fn prev_ip(next: u32) -> u32 {
    if next == 0 { 0 } else { (next - 1) as u32 }
}

/// The memory instructions.
pub open spec fn is_memory_op(op: Op) -> bool {
    is_load(op) || is_store(op) || matches!(op, Op::MemorySize | Op::MemoryGrow | Op::MemoryFill | Op::MemoryCopy)
        || (op matches Op::Simd(v) && is_simd_memory(v))
}

pub fn memory_op(op: &Op) -> (b: bool)
    ensures
        b == is_memory_op(*op),
{
    match op {
        Op::I32Load(_) | Op::I64Load(_) | Op::F32Load(_) | Op::F64Load(_) | Op::I32Load8S(_)
        | Op::I32Load8U(_) | Op::I32Load16S(_) | Op::I32Load16U(_) | Op::I64Load8S(_) | Op::I64Load8U(_)
        | Op::I64Load16S(_) | Op::I64Load16U(_) | Op::I64Load32S(_) | Op::I64Load32U(_)
        | Op::I32Store(_) | Op::I64Store(_) | Op::F32Store(_) | Op::F64Store(_) | Op::I32Store8(_)
        | Op::I32Store16(_) | Op::I64Store8(_) | Op::I64Store16(_) | Op::I64Store32(_)
        | Op::MemorySize | Op::MemoryGrow | Op::MemoryFill | Op::MemoryCopy => true,
        Op::Simd(v) => simd_memory(v),
        _ => false,
    }
}

/// Whether a step's actual outcome `(after, r)` agrees with the reference `(spec, s)`: the same
/// status, and the same machine unless the code was invalid.
pub open spec fn agrees(after: MachineView, r: Status, spec: (MachineView, Status)) -> bool {
    &&& r == spec.1
    &&& !(r is Invalid) ==> after == spec.0
}

/// Running at most `n` steps of the reference semantics: stops early at a non-running status.
pub open spec fn spec_run(c: CodeView, env: Env, m: MachineView, n: nat) -> (MachineView, Status)
    decreases n,
{
    if n == 0 {
        (m, Status::Running)
    } else {
        let (m1, s) = spec_step(c, env, m);
        if s is Running { spec_run(c, env, m1, (n - 1) as nat) } else { (m1, s) }
    }
}

/// Entering a run of at most `n` steps: with frames left and the stacks at or over the budget,
/// a stack-overflow trap that changes nothing; otherwise [`spec_run`].
pub open spec fn spec_enter_run(c: CodeView, env: Env, m: MachineView, n: nat) -> (MachineView, Status) {
    if m.frames.len() > 0 && stack_bytes_of(m) >= c.limit {
        (m, Status::Trapped(Trap::StackOverflow))
    } else {
        spec_run(c, env, m, n)
    }
}

/// The instance parts a step never changes.
pub open spec fn same_code(a: Instance, b: Instance) -> bool {
    code_of(a) == code_of(b)
}

impl Execution {
    /// Sets the top frame's next instruction.
    fn set_top_ip(&mut self, ip: u32)
        requires
            old(self).wf(),
            old(self).frames@.len() > 0,
        ensures
            final(self).wf(),
            final(self).values@ == old(self).values@,
            final(self).shadow@ == old(self).shadow@,
            final(self).frames@ == set_ip(old(self).frames@, ip),
    {
        let last = self.frames.len() - 1;
        let f = self.frames[last];
        self.frames.set(last, Frame { func: f.func, ip, locals_base: f.locals_base });
    }

    /// Takes branch `t`: the top `keep` operands move down over the `pop` below them and the top
    /// frame continues at `t.ip`.
    pub fn take_branch(&mut self, t: BranchTarget) -> (r: Status)
        requires
            old(self).wf(),
            old(self).frames@.len() > 0,
        ensures
            final(self).wf(),
            t.keep + t.pop > old(self).values@.len() ==> r == Status::Invalid,
            t.keep + t.pop <= old(self).values@.len() ==> r == Status::Running
                && final(self).values@ == branch_stack(old(self).values@, t)
                && final(self).shadow@ == branch_stack(old(self).shadow@, t)
                && final(self).frames@ == set_ip(old(self).frames@, t.ip),
    {
        let len = self.values.len();
        if t.keep as u64 + t.pop as u64 > len as u64 {
            return Status::Invalid;
        }
        let keep = t.keep as usize;
        let src = len - keep;
        let dst = src - t.pop as usize;
        let ghost v0 = self.values@;
        let ghost s0 = self.shadow@;
        let mut i: usize = 0;
        while i < keep
            invariant
                i <= keep,
                src == len - keep,
                dst + t.pop == src,
                len == v0.len(),
                v0.len() == s0.len(),
                self.values@.len() == len,
                self.shadow@.len() == len,
                self.frames@ == old(self).frames@,
                forall|k: int| 0 <= k < dst + i ==> #[trigger] self.values@[k] == (if k < dst { v0[k] } else { v0[src + (k - dst)] }),
                forall|k: int| 0 <= k < dst + i ==> #[trigger] self.shadow@[k] == (if k < dst { s0[k] } else { s0[src + (k - dst)] }),
                forall|k: int| dst + i <= k < len ==> #[trigger] self.values@[k] == v0[k],
                forall|k: int| dst + i <= k < len ==> #[trigger] self.shadow@[k] == s0[k],
            decreases keep - i,
        {
            let c = self.values[src + i];
            let g = self.shadow[src + i];
            self.values.set(dst + i, c);
            self.shadow.set(dst + i, g);
            i = i + 1;
        }
        self.values.truncate(dst + keep);
        self.shadow.truncate(dst + keep);
        proof {
            assert(self.values@ =~= branch_stack(v0, t));
            assert(self.shadow@ =~= branch_stack(s0, t));
        }
        self.set_top_ip(t.ip);
        Status::Running
    }

    /// Pops the top frame, moving its top `n` operands down to the frame's base.
    pub fn do_return(&mut self, n: u32) -> (r: Status)
        requires
            old(self).wf(),
            old(self).frames@.len() > 0,
        ensures
            final(self).wf(),
            ({
                let m = old(self);
                let base = m.frames@.last().locals_base;
                let len = m.values@.len();
                if n > len || base > len - n {
                    r == Status::Invalid
                } else {
                    &&& final(self).values@ == m.values@.subrange(0, base as int) + m.values@.subrange(len - n, len as int)
                    &&& final(self).shadow@ == m.shadow@.subrange(0, base as int) + m.shadow@.subrange(len - n, len as int)
                    &&& final(self).frames@ == m.frames@.drop_last()
                    &&& r == (if m.frames@.len() == 1 { Status::Finished } else { Status::Running })
                }
            }),
    {
        let len = self.values.len();
        let base = self.frames[self.frames.len() - 1].locals_base as usize;
        let nn = n as usize;
        if n as u64 > len as u64 || base > len - nn {
            return Status::Invalid;
        }
        let src = len - nn;
        let ghost v0 = self.values@;
        let ghost s0 = self.shadow@;
        let mut i: usize = 0;
        while i < nn
            invariant
                i <= nn,
                src == len - nn,
                base <= src,
                len == v0.len(),
                v0.len() == s0.len(),
                self.values@.len() == len,
                self.shadow@.len() == len,
                self.frames@ == old(self).frames@,
                forall|k: int| 0 <= k < base + i ==> #[trigger] self.values@[k] == (if k < base { v0[k] } else { v0[src + (k - base)] }),
                forall|k: int| 0 <= k < base + i ==> #[trigger] self.shadow@[k] == (if k < base { s0[k] } else { s0[src + (k - base)] }),
                forall|k: int| base + i <= k < len ==> #[trigger] self.values@[k] == v0[k],
                forall|k: int| base + i <= k < len ==> #[trigger] self.shadow@[k] == s0[k],
            decreases nn - i,
        {
            let c = self.values[src + i];
            let g = self.shadow[src + i];
            self.values.set(base + i, c);
            self.shadow.set(base + i, g);
            i = i + 1;
        }
        self.values.truncate(base + nn);
        self.shadow.truncate(base + nn);
        proof {
            assert(self.values@ =~= v0.subrange(0, base as int) + v0.subrange(len - nn, len as int));
            assert(self.shadow@ =~= s0.subrange(0, base as int) + s0.subrange(len - nn, len as int));
        }
        let _ = self.frames.pop();
        if self.frames.len() == 0 { Status::Finished } else { Status::Running }
    }

    /// Enters function `f` (index `fi`) over the top `n_params` operands: pushes its declared
    /// locals with their default values and a fresh frame.
    pub fn push_call(&mut self, fi: u32, f: &CompiledFunc) -> (r: Status)
        requires
            old(self).wf(),
        ensures
            final(self).wf(),
            ({
                let m = MachineView { values: old(self).values@, shadow: old(self).shadow@, frames: old(self).frames@, globals: Seq::empty(), memory: Seq::empty(), fuel: None, exns: Seq::empty(), tables: Seq::empty(), elems: Seq::empty(), datas: Seq::empty() };
                let (m1, s) = spec_enter(m, fi, *f);
                &&& r == s
                &&& r is Running ==> final(self).values@ == m1.values && final(self).shadow@ == m1.shadow && final(self).frames@ == m1.frames
            }),
    {
        let len = self.values.len();
        if f.n_params as u64 > len as u64 || f.local_types.len() as u64 > 0xffff_ffff - len as u64 || self.frames.len() >= 0xffff_ffff {
            return Status::Invalid;
        }
        let ghost v0 = self.values@;
        let ghost s0 = self.shadow@;
        let ghost locals = f.local_types@;
        for j in 0..f.local_types.len()
            invariant
                self.values@ == v0 + locals.subrange(0, j as int).map_values(|t: ValType| spec_encode(default_val(t))),
                self.shadow@ == s0 + locals.subrange(0, j as int).map_values(|t: ValType| spec_tag_of_val(default_val(t))),
                self.frames@ == old(self).frames@,
                locals == f.local_types@,
                v0.len() == s0.len(),
                v0.len() + locals.len() <= u32::MAX,
        {
            let d = Val::default_for(&f.local_types[j]);
            let c = encode(d);
            let g = RefTag::of_val(&d);
            self.values.push(c);
            self.shadow.push(g);
            proof {
                assert(locals.subrange(0, j + 1) =~= locals.subrange(0, j as int).push(locals[j as int]));
                assert(self.values@ =~= v0 + locals.subrange(0, j + 1).map_values(|t: ValType| spec_encode(default_val(t))));
                assert(self.shadow@ =~= s0 + locals.subrange(0, j + 1).map_values(|t: ValType| spec_tag_of_val(default_val(t))));
            }
        }
        proof { assert(locals.subrange(0, locals.len() as int) =~= locals); }
        self.frames.push(Frame { func: fi, ip: 0, locals_base: (len - f.n_params as usize) as u32 });
        Status::Running
    }

    /// The estimated bytes of the execution stacks.
    pub fn stack_bytes(&self) -> (n: u64)
        requires
            self.wf(),
        ensures
            n == self.values@.len() * CELL_BYTES + self.shadow@.len() + self.frames@.len() * FRAME_BYTES,
    {
        self.values.len() as u64 * 16 + self.shadow.len() as u64 + self.frames.len() as u64 * 12
    }
}

impl Execution {
    fn push_then(&mut self, c: Cell, tag: RefTag, next: u32) -> (r: Status)
        requires
            old(self).wf(),
            old(self).frames@.len() > 0,
        ensures
            final(self).wf(),
            ({
                let m = MachineView { values: old(self).values@, shadow: old(self).shadow@, frames: old(self).frames@, globals: Seq::empty(), memory: Seq::empty(), fuel: None, exns: Seq::empty(), tables: Seq::empty(), elems: Seq::empty(), datas: Seq::empty() };
                let (m1, st) = spec_push(m, c, tag, next);
                &&& r == st
                &&& r is Running ==> final(self).values@ == m1.values && final(self).shadow@ == m1.shadow && final(self).frames@ == m1.frames
            }),
    {
        if self.values.len() >= 0xffff_ffff {
            return Status::Invalid;
        }
        let _ = self.push_cell(c, tag);
        self.set_top_ip(next);
        Status::Running
    }

    #[verifier::rlimit(60)]
    #[verifier::spinoff_prover]
    fn exec_basic(&mut self, inst: &mut Instance, engine: &Engine, fi: usize, op: Op, next: u32) -> (r: Status)
        requires
            old(self).wf(),
            old(inst).wf(),
            engine.wf(),
            old(self).frames@.len() > 0,
            fi < old(inst).funcs@.len(),
            matches!(op, Op::Nop | Op::Unreachable | Op::I32Const(_) | Op::I64Const(_) | Op::F32Const(_) | Op::F64Const(_) | Op::Drop | Op::Select),
        ensures
            final(self).wf(),
            final(inst).wf(),
            same_code(*old(inst), *final(inst)),
            agrees(machine(*final(self), *final(inst)), r, spec_exec(code_of(*old(inst)), env_of(engine@), machine(*old(self), *old(inst)),
                old(inst).funcs@[fi as int], op, next)),
    {
        let ghost m = machine(*self, *inst);
        let len = self.values.len();
        let base = self.frames[self.frames.len() - 1].locals_base;
        match op {
            Op::Nop => {
                self.set_top_ip(next);
                Status::Running
            },
            Op::Unreachable => Status::Trapped(Trap::UnreachableCodeReached),
            Op::I32Const(v) => self.push_then(Cell::from_u32(v as u32), RefTag::NoRef, next),
            Op::I64Const(v) => self.push_then(Cell::from_u64(v as u64), RefTag::NoRef, next),
            Op::F32Const(b) => self.push_then(Cell::from_u32(b), RefTag::NoRef, next),
            Op::F64Const(b) => self.push_then(Cell::from_u64(b), RefTag::NoRef, next),
            Op::Drop => {
                if len < 1 {
                    return Status::Invalid;
                }
                let _ = self.pop_tagged();
                self.set_top_ip(next);
                Status::Running
            },
            Op::Select => {
                if len < 3 {
                    return Status::Invalid;
                }
                let cond = match self.pop_cell() { Ok(c) => c.low32(), Err(_) => 0 };
                let (b, tb) = match self.pop_tagged() { Ok(x) => x, Err(_) => (Cell(0), RefTag::NoRef) };
                let (a, ta) = match self.pop_tagged() { Ok(x) => x, Err(_) => (Cell(0), RefTag::NoRef) };
                proof {
                    assert(self.values@ =~= m.values.subrange(0, len - 3));
                    assert(self.shadow@ =~= m.shadow.subrange(0, len - 3));
                }
                if cond != 0 {
                    let _ = self.push_cell(a, ta);
                } else {
                    let _ = self.push_cell(b, tb);
                }
                self.set_top_ip(next);
                Status::Running
            },
            _ => Status::Invalid,
        }
    }

    #[verifier::rlimit(60)]
    #[verifier::spinoff_prover]
    fn exec_var(&mut self, inst: &mut Instance, engine: &Engine, fi: usize, op: Op, next: u32) -> (r: Status)
        requires
            old(self).wf(),
            old(inst).wf(),
            engine.wf(),
            old(self).frames@.len() > 0,
            fi < old(inst).funcs@.len(),
            matches!(op, Op::LocalGet(_) | Op::LocalSet(_) | Op::LocalTee(_) | Op::GlobalGet(_) | Op::GlobalSet(_)),
        ensures
            final(self).wf(),
            final(inst).wf(),
            same_code(*old(inst), *final(inst)),
            agrees(machine(*final(self), *final(inst)), r, spec_exec(code_of(*old(inst)), env_of(engine@), machine(*old(self), *old(inst)),
                old(inst).funcs@[fi as int], op, next)),
    {
        let ghost m = machine(*self, *inst);
        let len = self.values.len();
        let base = self.frames[self.frames.len() - 1].locals_base;
        match op {
            Op::LocalGet(i) => {
                let idx = base as u64 + i as u64;
                if idx >= len as u64 {
                    return Status::Invalid;
                }
                let c = self.values[idx as usize];
                let t = self.shadow[idx as usize];
                self.push_then(c, t, next)
            },
            Op::LocalSet(i) => {
                let idx = base as u64 + i as u64;
                if len < 1 || idx >= (len - 1) as u64 {
                    return Status::Invalid;
                }
                let (c, t) = match self.pop_tagged() { Ok(x) => x, Err(_) => (Cell(0), RefTag::NoRef) };
                self.values.set(idx as usize, c);
                self.shadow.set(idx as usize, t);
                self.set_top_ip(next);
                Status::Running
            },
            Op::LocalTee(i) => {
                let idx = base as u64 + i as u64;
                if len < 1 || idx >= len as u64 {
                    return Status::Invalid;
                }
                let c = self.values[len - 1];
                let t = self.shadow[len - 1];
                self.values.set(idx as usize, c);
                self.shadow.set(idx as usize, t);
                self.set_top_ip(next);
                Status::Running
            },
            Op::GlobalGet(g) => {
                if g as usize >= inst.globals.len() {
                    return Status::Invalid;
                }
                let gl = inst.globals[g as usize];
                self.push_then(gl.value, gl.tag, next)
            },
            Op::GlobalSet(g) => {
                if len < 1 || g as usize >= inst.globals.len() {
                    return Status::Invalid;
                }
                let (c, t) = match self.pop_tagged() { Ok(x) => x, Err(_) => (Cell(0), RefTag::NoRef) };
                inst.globals.set(g as usize, Global { value: c, tag: t });
                self.set_top_ip(next);
                Status::Running
            },
            _ => Status::Invalid,
        }
    }

    #[verifier::rlimit(60)]
    #[verifier::spinoff_prover]
    fn exec_branch(&mut self, inst: &mut Instance, engine: &Engine, fi: usize, op: Op, next: u32) -> (r: Status)
        requires
            old(self).wf(),
            old(inst).wf(),
            engine.wf(),
            old(self).frames@.len() > 0,
            fi < old(inst).funcs@.len(),
            matches!(op, Op::Br(_) | Op::BrIf(_) | Op::BrIfNot(_) | Op::BrTable(_) | Op::BrOnNull(_) | Op::BrOnNonNull(_)
                | Op::RefAsNonNull | Op::Return | Op::Call(_)),
        ensures
            final(self).wf(),
            final(inst).wf(),
            same_code(*old(inst), *final(inst)),
            agrees(machine(*final(self), *final(inst)), r, spec_exec(code_of(*old(inst)), env_of(engine@), machine(*old(self), *old(inst)),
                old(inst).funcs@[fi as int], op, next)),
    {
        let ghost m = machine(*self, *inst);
        let len = self.values.len();
        let base = self.frames[self.frames.len() - 1].locals_base;
        match op {
            Op::Br(t) => self.take_branch(t),
            Op::BrIf(t) | Op::BrIfNot(t) => {
                if len < 1 {
                    return Status::Invalid;
                }
                let c = match self.pop_cell() { Ok(c) => c.low32(), Err(_) => 0 };
                let when_set = match op { Op::BrIf(_) => true, _ => false };
                if (c != 0) == when_set {
                    self.take_branch(t)
                } else {
                    self.set_top_ip(next);
                    Status::Running
                }
            },
            Op::BrTable(r) => {
                let tables = &inst.funcs[fi].br_tables;
                if len < 1 || r.base as u64 + r.len as u64 >= tables.len() as u64 {
                    return Status::Invalid;
                }
                let i = match self.pop_cell() { Ok(c) => c.low32(), Err(_) => 0 };
                let t = if i < r.len { tables[(r.base as u64 + i as u64) as usize] } else { tables[(r.base as u64 + r.len as u64) as usize] };
                self.take_branch(t)
            },
            Op::BrOnNull(t) | Op::BrOnNonNull(t) => {
                if len < 1 {
                    return Status::Invalid;
                }
                let null = self.values[len - 1].is_null();
                let on_null = match op { Op::BrOnNull(_) => true, _ => false };
                if null {
                    let _ = self.pop_tagged();
                }
                if null == on_null {
                    self.take_branch(t)
                } else {
                    self.set_top_ip(next);
                    Status::Running
                }
            },
            Op::RefAsNonNull => {
                if len < 1 {
                    return Status::Invalid;
                }
                if self.values[len - 1].is_null() {
                    return Status::Trapped(Trap::NullReference);
                }
                self.set_top_ip(next);
                Status::Running
            },
            Op::Return => {
                let n = inst.funcs[fi].n_results;
                self.do_return(n)
            },
            Op::Call(callee) => {
                if callee as usize >= inst.funcs.len() {
                    return Status::Invalid;
                }
                if self.stack_bytes() >= inst.max_wasm_stack as u64 {
                    return Status::Trapped(Trap::StackOverflow);
                }
                self.set_top_ip(next);
                self.push_call(callee, &inst.funcs[callee as usize])
            },
            _ => Status::Invalid,
        }
    }

    #[verifier::rlimit(60)]
    #[verifier::spinoff_prover]
    fn exec_tail(&mut self, inst: &mut Instance, engine: &Engine, fi: usize, op: Op, next: u32) -> (r: Status)
        requires
            old(self).wf(),
            old(inst).wf(),
            engine.wf(),
            old(self).frames@.len() > 0,
            fi < old(inst).funcs@.len(),
            matches!(op, Op::ReturnCall(_) | Op::CallHost(_) | Op::ReturnCallHost(_)),
        ensures
            final(self).wf(),
            final(inst).wf(),
            same_code(*old(inst), *final(inst)),
            agrees(machine(*final(self), *final(inst)), r, spec_exec(code_of(*old(inst)), env_of(engine@), machine(*old(self), *old(inst)),
                old(inst).funcs@[fi as int], op, next)),
    {
        let ghost m = machine(*self, *inst);
        match op {
            Op::ReturnCall(callee) => {
                if callee as usize >= inst.funcs.len() {
                    return Status::Invalid;
                }
                let n = inst.funcs[callee as usize].n_params;
                match self.do_return(n) {
                    Status::Invalid => Status::Invalid,
                    _ => self.push_call(callee, &inst.funcs[callee as usize]),
                }
            },
            Op::CallHost(h) => {
                if h as usize >= inst.host_funcs.len() || inst.host_funcs[h as usize].0 as usize > self.values.len() {
                    return Status::Invalid;
                }
                self.set_top_ip(next);
                Status::HostCall(h)
            },
            Op::ReturnCallHost(h) => {
                if h as usize >= inst.host_funcs.len() {
                    return Status::Invalid;
                }
                let n = inst.host_funcs[h as usize].0;
                match self.do_return(n) {
                    Status::Invalid => Status::Invalid,
                    _ => Status::HostCall(h),
                }
            },
            _ => Status::Invalid,
        }
    }

    #[verifier::rlimit(60)]
    #[verifier::spinoff_prover]
    fn exec_throw(&mut self, inst: &mut Instance, engine: &Engine, fi: usize, op: Op, next: u32) -> (r: Status)
        requires
            old(self).wf(),
            old(inst).wf(),
            engine.wf(),
            old(self).frames@.len() > 0,
            fi < old(inst).funcs@.len(),
            matches!(op, Op::Throw(_) | Op::ThrowRef),
        ensures
            final(self).wf(),
            final(inst).wf(),
            same_code(*old(inst), *final(inst)),
            agrees(machine(*final(self), *final(inst)), r, spec_exec(code_of(*old(inst)), env_of(engine@), machine(*old(self), *old(inst)),
                old(inst).funcs@[fi as int], op, next)),
    {
        let ghost m = machine(*self, *inst);
        let fault = if next == 0 { 0 } else { next - 1 };
        let len = self.values.len();
        match op {
            Op::Throw(t) => {
                if t as usize >= inst.tags.len() || inst.tags[t as usize].n_params as usize > len || inst.exns.len() >= 0xffff_ffff {
                    return Status::Invalid;
                }
                let tag = inst.tags[t as usize];
                let start = len - tag.n_params as usize;
                let mut args: Vec<Cell> = Vec::new();
                let mut arg_tags: Vec<RefTag> = Vec::new();
                for j in start..len
                    invariant
                        start <= len,
                        len == self.values@.len(),
                        self.values@.len() == self.shadow@.len(),
                        args@ == self.values@.subrange(start as int, j as int),
                        arg_tags@ == self.shadow@.subrange(start as int, j as int),
                {
                    args.push(self.values[j]);
                    arg_tags.push(self.shadow[j]);
                    proof {
                        assert(args@ =~= self.values@.subrange(start as int, j + 1));
                        assert(arg_tags@ =~= self.shadow@.subrange(start as int, j + 1));
                    }
                }
                self.values.truncate(start);
                self.shadow.truncate(start);
                let h = inst.exns.len() as u32;
                let ghost ex0 = inst.exns@;
                inst.exns.push(Exn { tag: tag.id, args, arg_tags });
                proof {
                    assert(inst.exns@.map_values(|x: Exn| x@) =~= ex0.map_values(|x: Exn| x@).push(inst.exns@[h as int]@));
                    assert forall|i: int| 0 <= i < inst.exns@.len() implies (#[trigger] inst.exns@[i]).args@.len() == inst.exns@[i].arg_tags@.len() by {
                        if i < ex0.len() { assert(inst.exns@[i] == ex0[i]); }
                    }
                }
                self.unwind(inst, h, fault)
            },
            Op::ThrowRef => {
                if len < 1 {
                    return Status::Invalid;
                }
                let h = self.values[len - 1].low32();
                if h == NULL_REF {
                    return Status::Trapped(Trap::NullReference);
                }
                if h as usize >= inst.exns.len() {
                    return Status::Invalid;
                }
                let _ = self.pop_tagged();
                self.unwind(inst, h, fault)
            },
            _ => Status::Invalid,
        }
    }

    /// Calls the function with handle `h` over the arguments on the stack.
    fn call_handle(&mut self, inst: &Instance, h: u32, next: u32, tail: bool) -> (r: Status)
        requires
            old(self).wf(),
            inst.wf(),
            old(self).frames@.len() > 0,
        ensures
            final(self).wf(),
            agrees(machine(*final(self), *inst), r, spec_call_handle(code_of(*inst), machine(*old(self), *inst), h, next, tail)),
    {
        let nf = inst.funcs.len();
        if (h as usize) < nf {
            let f = &inst.funcs[h as usize];
            if tail {
                match self.do_return(f.n_params) {
                    Status::Invalid => Status::Invalid,
                    _ => self.push_call(h, f),
                }
            } else {
                if self.stack_bytes() >= inst.max_wasm_stack as u64 {
                    return Status::Trapped(Trap::StackOverflow);
                }
                self.set_top_ip(next);
                self.push_call(h, f)
            }
        } else if (h as usize - nf) < inst.host_funcs.len() {
            let hh = (h as usize - nf) as u32;
            let n = inst.host_funcs[hh as usize].0;
            if tail {
                match self.do_return(n) {
                    Status::Invalid => Status::Invalid,
                    _ => Status::HostCall(hh),
                }
            } else {
                if n as usize > self.values.len() {
                    return Status::Invalid;
                }
                self.set_top_ip(next);
                Status::HostCall(hh)
            }
        } else {
            Status::Invalid
        }
    }

    /// The canonical type of the function with handle `h`.
    fn handle_type_of(inst: &Instance, h: u32) -> (r: Option<CanonicalTypeId>)
        ensures
            r == handle_type(code_of(*inst), h),
    {
        let nf = inst.funcs.len();
        if (h as usize) < nf {
            if (h as usize) < inst.func_type_ids.len() { Some(inst.func_type_ids[h as usize]) } else { None }
        } else if (h as usize - nf) < inst.host_type_ids.len() {
            Some(inst.host_type_ids[h as usize - nf])
        } else {
            None
        }
    }

    #[verifier::rlimit(60)]
    #[verifier::spinoff_prover]
    fn exec_calls(&mut self, inst: &mut Instance, engine: &Engine, fi: usize, op: Op, next: u32) -> (r: Status)
        requires
            old(self).wf(),
            old(inst).wf(),
            engine.wf(),
            old(self).frames@.len() > 0,
            fi < old(inst).funcs@.len(),
            matches!(op, Op::CallIndirect(_, _) | Op::ReturnCallIndirect(_, _) | Op::CallRef(_) | Op::ReturnCallRef(_)),
        ensures
            final(self).wf(),
            final(inst).wf(),
            same_code(*old(inst), *final(inst)),
            agrees(machine(*final(self), *final(inst)), r, spec_exec(code_of(*old(inst)), env_of(engine@), machine(*old(self), *old(inst)),
                old(inst).funcs@[fi as int], op, next)),
    {
        let ghost m = machine(*self, *inst);
        let len = self.values.len();
        match op {
            Op::CallIndirect(ty, t) | Op::ReturnCallIndirect(ty, t) => {
                let tail = match op { Op::ReturnCallIndirect(_, _) => true, _ => false };
                if t as usize >= inst.tables.len() || ty as usize >= inst.type_ids.len() || len < 1 {
                    return Status::Invalid;
                }
                let i = self.values[len - 1].low32() as usize;
                proof { assert(m.tables[t as int] == inst.tables@[t as int]@); }
                if i >= inst.tables[t as usize].elems.len() {
                    return Status::Trapped(Trap::TableOutOfBounds);
                }
                let h = match inst.tables[t as usize].elems[i] {
                    None => return Status::Trapped(Trap::IndirectCallToNull),
                    Some(h) => h,
                };
                match inst.tables[t as usize].kind {
                    RefKind::Func => {},
                    _ => return Status::Trapped(Trap::BadSignature),
                }
                let a = match Self::handle_type_of(inst, h) {
                    None => return Status::Invalid,
                    Some(a) => a,
                };
                if !engine.is_subtype(a, inst.type_ids[ty as usize]) {
                    return Status::Trapped(Trap::BadSignature);
                }
                let _ = self.pop_tagged();
                self.call_handle(inst, h, next, tail)
            },
            Op::CallRef(_) | Op::ReturnCallRef(_) => {
                let tail = match op { Op::ReturnCallRef(_) => true, _ => false };
                if len < 1 {
                    return Status::Invalid;
                }
                let h = self.values[len - 1].low32();
                if h == NULL_REF {
                    return Status::Trapped(Trap::NullReference);
                }
                let _ = self.pop_tagged();
                self.call_handle(inst, h, next, tail)
            },
            _ => Status::Invalid,
        }
    }

    #[verifier::rlimit(60)]
    #[verifier::spinoff_prover]
    fn exec_tab(&mut self, inst: &mut Instance, engine: &Engine, fi: usize, op: Op, next: u32) -> (r: Status)
        requires
            old(self).wf(),
            old(inst).wf(),
            engine.wf(),
            old(self).frames@.len() > 0,
            fi < old(inst).funcs@.len(),
            is_table_op(op),
        ensures
            final(self).wf(),
            final(inst).wf(),
            same_code(*old(inst), *final(inst)),
            agrees(machine(*final(self), *final(inst)), r, spec_exec(code_of(*old(inst)), env_of(engine@), machine(*old(self), *old(inst)),
                old(inst).funcs@[fi as int], op, next)),
    {
        let r = self.exec_table(&op, &mut inst.tables, &mut inst.elems);
        match r {
            Ok(()) => {
                self.set_top_ip(next);
                Status::Running
            },
            Err(f) => match f {
                Fault::Trap(t) => Status::Trapped(t),
                Fault::Invalid => Status::Invalid,
            },
        }
    }


    /// What a cast reads of operand `v` tagged `tag`.
    fn ref_object_of(inst: &Instance, v: Cell, tag: RefTag) -> (r: Option<Option<RefObject>>)
        ensures
            r == ref_object(code_of(*inst), v, tag),
    {
        if v.is_null() {
            return Some(None);
        }
        match tag {
            RefTag::Func => match Self::handle_type_of(inst, v.low32()) {
                Some(id) => Some(Some(RefObject::Func(id))),
                None => None,
            },
            RefTag::Extern => Some(Some(RefObject::Extern)),
            RefTag::Any => Some(Some(RefObject::ExternAny)),
            RefTag::Exn => Some(Some(RefObject::Exn)),
            RefTag::NoRef => None,
        }
    }

    /// Whether operand `v` (tagged `tag`) belongs to cast target `t`.
    fn cast_check(inst: &Instance, engine: &Engine, v: Cell, tag: RefTag, t: CastTarget) -> (r: Option<bool>)
        requires
            engine.wf(),
        ensures
            r == cast_result(code_of(*inst), env_of(engine@), v, tag, t),
    {
        let obj = match Self::ref_object_of(inst, v, tag) {
            Some(o) => o,
            None => return None,
        };
        let id = match t.heap {
            IrHeap::Concrete(i, _) => if (i as usize) < inst.type_ids.len() { inst.type_ids[i as usize] } else { return None; },
            _ => CanonicalTypeId::new(0),
        };
        Some(matches_heaptype(engine, obj, &t.heap, t.nullable, id))
    }

    /// The casts and the `any`/`extern` conversions.
    fn exec_cast_op(&mut self, inst: &mut Instance, engine: &Engine, fi: usize, op: Op, next: u32) -> (r: Status)
        requires
            old(self).wf(),
            old(inst).wf(),
            engine.wf(),
            old(self).frames@.len() > 0,
            fi < old(inst).funcs@.len(),
            matches!(op, Op::RefTest(_) | Op::RefCast(_) | Op::BrOnCast(_, _) | Op::BrOnCastFail(_, _) | Op::AnyConvertExtern
                | Op::ExternConvertAny),
        ensures
            final(self).wf(),
            final(inst).wf(),
            same_code(*old(inst), *final(inst)),
            agrees(machine(*final(self), *final(inst)), r, spec_exec(code_of(*old(inst)), env_of(engine@), machine(*old(self), *old(inst)),
                old(inst).funcs@[fi as int], op, next)),
    {
        let ghost m = machine(*self, *inst);
        let len = self.values.len();
        if len < 1 {
            return Status::Invalid;
        }
        let v = self.values[len - 1];
        let tag = self.shadow[len - 1];
        match op {
            Op::RefTest(t) => match Self::cast_check(inst, engine, v, tag, t) {
                None => Status::Invalid,
                Some(b) => {
                    let _ = self.pop_tagged();
                    let _ = self.push_scalar(Cell::from_u32(if b { 1 } else { 0 }));
                    self.set_top_ip(next);
                    Status::Running
                },
            },
            Op::RefCast(t) => match Self::cast_check(inst, engine, v, tag, t) {
                None => Status::Invalid,
                Some(b) => if b {
                    self.set_top_ip(next);
                    Status::Running
                } else {
                    Status::Trapped(Trap::CastFailure)
                },
            },
            Op::BrOnCast(bt, t) | Op::BrOnCastFail(bt, t) => match Self::cast_check(inst, engine, v, tag, t) {
                None => Status::Invalid,
                Some(b) => {
                    let on_fail = match op { Op::BrOnCastFail(_, _) => true, _ => false };
                    if b != on_fail {
                        self.take_branch(bt)
                    } else {
                        self.set_top_ip(next);
                        Status::Running
                    }
                },
            },
            Op::AnyConvertExtern | Op::ExternConvertAny => {
                let (from, to) = match op { Op::AnyConvertExtern => (RefTag::Extern, RefTag::Any), _ => (RefTag::Any, RefTag::Extern) };
                if tag != from {
                    return Status::Invalid;
                }
                let _ = self.pop_tagged();
                let _ = self.push_cell(v, to);
                proof {
                    assert(self.values@ =~= m.values);
                }
                self.set_top_ip(next);
                Status::Running
            },
            _ => Status::Invalid,
        }
    }

    /// `memory.init` from a data segment, and `data.drop`.
    #[verifier::rlimit(40)]
    fn exec_data(&mut self, inst: &mut Instance, engine: &Engine, fi: usize, op: Op, next: u32) -> (r: Status)
        requires
            old(self).wf(),
            old(inst).wf(),
            engine.wf(),
            old(self).frames@.len() > 0,
            fi < old(inst).funcs@.len(),
            matches!(op, Op::MemoryInit(_) | Op::DataDrop(_)),
        ensures
            final(self).wf(),
            final(inst).wf(),
            same_code(*old(inst), *final(inst)),
            agrees(machine(*final(self), *final(inst)), r, spec_exec(code_of(*old(inst)), env_of(engine@), machine(*old(self), *old(inst)),
                old(inst).funcs@[fi as int], op, next)),
    {
        let ghost m = machine(*self, *inst);
        match op {
            Op::DataDrop(seg) => {
                if seg as usize >= inst.datas.len() {
                    return Status::Invalid;
                }
                inst.datas.set(seg as usize, Vec::new());
                proof {
                    assert(inst.datas@.map_values(|d: Vec<u8>| d@) =~= m.datas.update(seg as int, Seq::empty()));
                }
                self.set_top_ip(next);
                Status::Running
            },
            Op::MemoryInit(seg) => {
                let len = self.values.len();
                if len < 3 || seg as usize >= inst.datas.len() {
                    return Status::Invalid;
                }
                let d = self.values[len - 3].low32();
                let src = self.values[len - 2].low32();
                let n = self.values[len - 1].low32();
                let dlen = inst.datas[seg as usize].len();
                let mlen = inst.memory.bytes.len();
                proof { assert(m.datas[seg as int] == inst.datas@[seg as int]@); }
                if src as u64 + n as u64 > dlen as u64 || d as u64 + n as u64 > mlen as u64 {
                    return Status::Trapped(Trap::MemoryOutOfBounds);
                }
                let ghost before = inst.memory.bytes@;
                let ghost data = inst.datas@[seg as int]@;
                let mut i: usize = 0;
                while i < n as usize
                    invariant
                        i <= n,
                        d + n <= before.len(),
                        src + n <= data.len(),
                        data.len() == dlen,
                        before.len() <= usize::MAX,
                        seg < inst.datas@.len(),
                        inst.datas@[seg as int]@ == data,
                        inst.datas@ == old(inst).datas@,
                        inst.memory.bytes@.len() == before.len(),
                        inst.memory.max_pages == old(inst).memory.max_pages,
                        inst.funcs == old(inst).funcs,
                        inst.exns == old(inst).exns,
                        inst.tables == old(inst).tables,
                        inst.globals == old(inst).globals,
                        inst.elems == old(inst).elems,
                        inst.fuel == old(inst).fuel,
                        inst.host_funcs == old(inst).host_funcs,
                        inst.func_type_ids == old(inst).func_type_ids,
                        inst.host_type_ids == old(inst).host_type_ids,
                        inst.type_ids == old(inst).type_ids,
                        inst.tags == old(inst).tags,
                        inst.max_wasm_stack == old(inst).max_wasm_stack,
                        inst.epoch_deadline == old(inst).epoch_deadline,
                        forall|k: int| 0 <= k < before.len() ==> #[trigger] inst.memory.bytes@[k]
                            == if d <= k < d + i { data[src + (k - d)] } else { before[k] },
                    decreases n - i,
                {
                    let b = inst.datas[seg as usize][src as usize + i];
                    inst.memory.bytes.set(d as usize + i, b);
                    i = i + 1;
                }
                proof { assert(inst.memory.bytes@ =~= init_from(before, d as nat, data, src as nat, n as nat)); }
                let _ = self.pop_tagged();
                let _ = self.pop_tagged();
                let _ = self.pop_tagged();
                proof {
                    assert(self.values@ =~= pop_k(m.values, 3));
                    assert(self.shadow@ =~= pop_k(m.shadow, 3));
                }
                self.set_top_ip(next);
                Status::Running
            },
            _ => Status::Invalid,
        }
    }

    #[verifier::rlimit(60)]
    #[verifier::spinoff_prover]
    fn exec_compute(&mut self, inst: &mut Instance, engine: &Engine, fi: usize, op: Op, next: u32) -> (r: Status)
        requires
            old(self).wf(),
            old(inst).wf(),
            engine.wf(),
            old(self).frames@.len() > 0,
            fi < old(inst).funcs@.len(),
            !matches!(op, Op::Nop | Op::Unreachable | Op::I32Const(_) | Op::I64Const(_) | Op::F32Const(_) | Op::F64Const(_) | Op::Drop | Op::Select | Op::LocalGet(_) | Op::LocalSet(_) | Op::LocalTee(_) | Op::GlobalGet(_) | Op::GlobalSet(_) | Op::Br(_) | Op::BrIf(_) | Op::BrIfNot(_) | Op::BrTable(_) | Op::BrOnNull(_) | Op::BrOnNonNull(_) | Op::RefAsNonNull | Op::Return | Op::Call(_)
                | Op::MemoryInit(_) | Op::DataDrop(_) | Op::RefTest(_) | Op::RefCast(_) | Op::BrOnCast(_, _) | Op::BrOnCastFail(_, _)
                | Op::AnyConvertExtern | Op::ExternConvertAny | Op::ReturnCall(_) | Op::CallHost(_) | Op::ReturnCallHost(_) | Op::Throw(_) | Op::ThrowRef
                | Op::CallIndirect(_, _) | Op::ReturnCallIndirect(_, _) | Op::CallRef(_) | Op::ReturnCallRef(_)),
            !is_table_op(op),
        ensures
            final(self).wf(),
            final(inst).wf(),
            same_code(*old(inst), *final(inst)),
            agrees(machine(*final(self), *final(inst)), r, spec_exec(code_of(*old(inst)), env_of(engine@), machine(*old(self), *old(inst)),
                old(inst).funcs@[fi as int], op, next)),
    {
        if memory_op(&op) {
            match self.exec_memory(&op, &mut inst.memory) {
                Ok(()) => {
                    self.set_top_ip(next);
                    Status::Running
                },
                Err(f) => match f {
                    Fault::Trap(t) => Status::Trapped(t),
                    Fault::Invalid => Status::Invalid,
                },
            }
        } else {
            match self.exec_numeric(&op) {
                Ok(NumOutcome::Done) => {
                    self.set_top_ip(next);
                    Status::Running
                },
                Ok(NumOutcome::Float(q)) => {
                    self.set_top_ip(next);
                    Status::Float(q)
                },
                Err(f) => match f {
                    Fault::Trap(t) => Status::Trapped(t),
                    Fault::Invalid => Status::Invalid,
                },
            }
        }
    }

    /// Executes instruction `op` of function `fi` (the one before `next`).
    fn exec_op(&mut self, inst: &mut Instance, engine: &Engine, fi: usize, op: Op, next: u32) -> (r: Status)
        requires
            old(self).wf(),
            old(inst).wf(),
            engine.wf(),
            old(self).frames@.len() > 0,
            fi < old(inst).funcs@.len(),
        ensures
            final(self).wf(),
            final(inst).wf(),
            same_code(*old(inst), *final(inst)),
            agrees(machine(*final(self), *final(inst)), r, spec_exec(code_of(*old(inst)), env_of(engine@), machine(*old(self), *old(inst)),
                old(inst).funcs@[fi as int], op, next)),
    {
        match op {
            Op::Nop | Op::Unreachable | Op::I32Const(_) | Op::I64Const(_) | Op::F32Const(_) | Op::F64Const(_) | Op::Drop
            | Op::Select => self.exec_basic(inst, engine, fi, op, next),
            Op::LocalGet(_) | Op::LocalSet(_) | Op::LocalTee(_) | Op::GlobalGet(_) | Op::GlobalSet(_) => self.exec_var(inst, engine, fi, op, next),
            Op::Br(_) | Op::BrIf(_) | Op::BrIfNot(_) | Op::BrTable(_) | Op::BrOnNull(_) | Op::BrOnNonNull(_) | Op::RefAsNonNull
            | Op::Return | Op::Call(_) => self.exec_branch(inst, engine, fi, op, next),
            Op::ReturnCall(_) | Op::CallHost(_) | Op::ReturnCallHost(_) => self.exec_tail(inst, engine, fi, op, next),
            Op::Throw(_) | Op::ThrowRef => self.exec_throw(inst, engine, fi, op, next),
            Op::CallIndirect(_, _) | Op::ReturnCallIndirect(_, _) | Op::CallRef(_) | Op::ReturnCallRef(_) => self.exec_calls(inst, engine, fi, op, next),
            Op::MemoryInit(_) | Op::DataDrop(_) => self.exec_data(inst, engine, fi, op, next),
            Op::RefTest(_) | Op::RefCast(_) | Op::BrOnCast(_, _) | Op::BrOnCastFail(_, _) | Op::AnyConvertExtern
            | Op::ExternConvertAny => self.exec_cast_op(inst, engine, fi, op, next),
            _ => if table_op(&op) {
                self.exec_tab(inst, engine, fi, op, next)
            } else {
                self.exec_compute(inst, engine, fi, op, next)
            },
        }
    }
}

/// The machine after the arguments `args` are pushed for a call.
pub open spec fn with_args(m: MachineView, args: Seq<Val>) -> MachineView {
    MachineView {
        values: m.values + args.map_values(|v: Val| spec_encode(v)),
        shadow: m.shadow + args.map_values(|v: Val| spec_tag_of_val(v)),
        ..m
    }
}

impl Execution {
    /// Executes one instruction of the top frame (or returns from it at the end of its code),
    /// against `engine` (its epoch and type registry).
    pub fn step(&mut self, inst: &mut Instance, engine: &Engine) -> (r: Status)
        requires
            old(self).wf(),
            old(inst).wf(),
            engine.wf(),
        ensures
            final(self).wf(),
            final(inst).wf(),
            same_code(*old(inst), *final(inst)),
            agrees(machine(*final(self), *final(inst)), r, spec_step(code_of(*old(inst)), env_of(engine@), machine(*old(self), *old(inst)))),
    {
        proof { reveal(spec_step); }
        if self.frames.len() == 0 {
            return Status::Finished;
        }
        let fr = self.frames[self.frames.len() - 1];
        if fr.func as usize >= inst.funcs.len() {
            return Status::Invalid;
        }
        let fi = fr.func as usize;
        if fr.ip as usize >= inst.funcs[fi].ops.len() {
            let n = inst.funcs[fi].n_results;
            return self.do_return(n);
        }
        match inst.fuel {
            Some(0) => return Status::Trapped(Trap::OutOfFuel),
            Some(n) => inst.fuel = Some(n - 1),
            None => {},
        }
        match inst.epoch_deadline {
            Some(d) => if engine.current_epoch() >= d {
                return Status::EpochDeadline;
            },
            None => {},
        }
        let op = inst.funcs[fi].ops[fr.ip as usize];
        self.exec_op(inst, engine, fi, op, fr.ip + 1)
    }

    /// Runs at most `budget` instructions against `engine`, stopping early when the
    /// outermost call finishes, traps, needs a floating-point result or an embedder function,
    /// reaches the epoch deadline, or meets code it cannot run. `Running` means the budget ran
    /// out first; call again to go on. Entering the run checks the stack budget: with frames
    /// left and the stacks at or over it, the run traps with a stack overflow and changes nothing
    /// (this bounds embedder/wasm ping-pong, which no nested wasm call would check); every nested
    /// call is checked again as it is made.
    pub fn run(&mut self, inst: &mut Instance, engine: &Engine, budget: u64) -> (r: Status)
        requires
            old(self).wf(),
            old(inst).wf(),
            engine.wf(),
        ensures
            final(self).wf(),
            final(inst).wf(),
            same_code(*old(inst), *final(inst)),
            agrees(machine(*final(self), *final(inst)), r, spec_enter_run(code_of(*old(inst)), env_of(engine@),
                machine(*old(self), *old(inst)), budget as nat)),
    {
        if self.frames.len() > 0 && self.stack_bytes() >= inst.max_wasm_stack as u64 {
            return Status::Trapped(Trap::StackOverflow);
        }
        let ghost c = code_of(*inst);
        let ghost env = env_of(engine@);
        let ghost goal = spec_run(c, env, machine(*self, *inst), budget as nat);
        let mut k = budget;
        while k > 0
            invariant
                self.wf(),
                inst.wf(),
                same_code(*old(inst), *inst),
                c == code_of(*old(inst)),
                engine.wf(),
                env == env_of(engine@),
                goal == spec_run(c, env, machine(*self, *inst), k as nat),
                goal == spec_run(code_of(*old(inst)), env, machine(*old(self), *old(inst)), budget as nat),
                goal == spec_enter_run(code_of(*old(inst)), env, machine(*old(self), *old(inst)), budget as nat),
            decreases k,
        {
            let ghost mb = machine(*self, *inst);
            let r = self.step(inst, engine);
            proof {
                let st = spec_step(c, env, mb);
                assert(spec_run(c, env, mb, k as nat) == (if st.1 is Running {
                    spec_run(c, env, st.0, (k - 1) as nat)
                } else {
                    st
                }));
            }
            match r {
                Status::Running => {},
                _ => return r,
            }
            k = k - 1;
        }
        Status::Running
    }

    /// Pushes values: the arguments of a call being entered, or the results of an embedder
    /// function the run handed over.
    fn push_vals(&mut self, vals: &[Val])
        requires
            old(self).wf(),
            old(self).values@.len() + vals@.len() <= u32::MAX,
        ensures
            final(self).wf(),
            final(self).values@ == old(self).values@ + vals@.map_values(|v: Val| spec_encode(v)),
            final(self).shadow@ == old(self).shadow@ + vals@.map_values(|v: Val| spec_tag_of_val(v)),
            final(self).frames@ == old(self).frames@,
    {
        let ghost v0 = self.values@;
        let ghost s0 = self.shadow@;
        for j in 0..vals.len()
            invariant
                self.values@ == v0 + vals@.subrange(0, j as int).map_values(|v: Val| spec_encode(v)),
                self.shadow@ == s0 + vals@.subrange(0, j as int).map_values(|v: Val| spec_tag_of_val(v)),
                self.frames@ == old(self).frames@,
                v0 == old(self).values@,
                s0 == old(self).shadow@,
                v0.len() == s0.len(),
                v0.len() + vals@.len() <= u32::MAX,
                old(self).frames@.len() <= u32::MAX,
        {
            let v = vals[j];
            self.values.push(encode(v));
            self.shadow.push(RefTag::of_val(&v));
            proof {
                assert(vals@.subrange(0, j + 1) =~= vals@.subrange(0, j as int).push(vals@[j as int]));
                assert(self.values@ =~= v0 + vals@.subrange(0, j + 1).map_values(|v: Val| spec_encode(v)));
                assert(self.shadow@ =~= s0 + vals@.subrange(0, j + 1).map_values(|v: Val| spec_tag_of_val(v)));
            }
        }
        proof { assert(vals@.subrange(0, vals@.len() as int) =~= vals@); }
    }

    /// Continues after an embedder function call with its results.
    pub fn resume_host(&mut self, results: &[Val]) -> (r: Status)
        requires
            old(self).wf(),
        ensures
            final(self).wf(),
            old(self).values@.len() + results@.len() <= u32::MAX ==> r == Status::Running
                && final(self).values@ == old(self).values@ + results@.map_values(|v: Val| spec_encode(v))
                && final(self).shadow@ == old(self).shadow@ + results@.map_values(|v: Val| spec_tag_of_val(v))
                && final(self).frames@ == old(self).frames@,
            old(self).values@.len() + results@.len() > u32::MAX ==> r == Status::Invalid && *final(self) == *old(self),
    {
        if results.len() as u64 > 0xffff_ffff - self.values.len() as u64 {
            return Status::Invalid;
        }
        self.push_vals(results);
        Status::Running
    }

    /// Enters a call of function `func` with `args`: pushes the arguments, then the callee's
    /// locals and frame (the stack budget is checked when the run is entered).
    pub fn enter_call(&mut self, inst: &Instance, func: u32, args: &[Val]) -> (r: Status)
        requires
            old(self).wf(),
        ensures
            final(self).wf(),
            func >= inst.funcs@.len() || old(self).values@.len() + args@.len() > u32::MAX ==> r == Status::Invalid,
            func < inst.funcs@.len() && old(self).values@.len() + args@.len() <= u32::MAX ==> {
                let m = with_args(machine(*old(self), *inst), args@);
                let (m1, s) = spec_enter(m, func, inst.funcs@[func as int]);
                &&& r == s
                &&& r is Running ==> final(self).values@ == m1.values && final(self).shadow@ == m1.shadow && final(self).frames@ == m1.frames
            },
    {
        if func as usize >= inst.funcs.len() || args.len() as u64 > 0xffff_ffff - self.values.len() as u64 {
            return Status::Invalid;
        }
        self.push_vals(args);
        self.push_call(func, &inst.funcs[func as usize])
    }

    /// Continues after a floating-point request with the operation's result.
    pub fn resume_float(&mut self, result: Cell) -> (r: Status)
        requires
            old(self).wf(),
        ensures
            final(self).wf(),
            old(self).values@.len() < u32::MAX ==> r == Status::Running && final(self).values@ == old(self).values@.push(result)
                && final(self).shadow@ == old(self).shadow@.push(RefTag::NoRef) && final(self).frames@ == old(self).frames@,
            old(self).values@.len() >= u32::MAX ==> r == Status::Invalid,
    {
        match self.push_scalar(result) {
            Ok(()) => Status::Running,
            Err(_) => Status::Invalid,
        }
    }

    /// Takes the results of a finished call: the top cells, decoded at the result types (the
    /// first result deepest), and drops them from the stack.
    pub fn take_results(&mut self, results: &[ValType]) -> (out: Option<Vec<Val>>)
        requires
            old(self).wf(),
        ensures
            final(self).wf(),
            results@.len() > old(self).values@.len() ==> out is None,
            results@.len() <= old(self).values@.len() ==> {
                let s = old(self).values@;
                let b = s.len() - results@.len();
                &&& out is Some
                &&& out->0@ == Seq::new(results@.len(), |i: int| spec_decode(s[b + i], results@[i]))
                &&& final(self).values@ == s.subrange(0, b)
                &&& final(self).shadow@ == old(self).shadow@.subrange(0, b)
            },
            final(self).frames@ == old(self).frames@,
            results@.len() > old(self).values@.len() ==> *final(self) == *old(self),
    {
        let len = self.values.len();
        let n = results.len();
        if n > len {
            return None;
        }
        let b = len - n;
        let mut out: Vec<Val> = Vec::new();
        for i in 0..n
            invariant
                b + n == len,
                n == results@.len(),
                len == self.values@.len(),
                out@ == Seq::new(i as nat, |k: int| spec_decode(self.values@[b + k], results@[k])),
        {
            out.push(decode(self.values[b + i], &results[i]));
            proof {
                assert(out@ =~= Seq::new(i as nat + 1, |k: int| spec_decode(self.values@[b + k], results@[k])));
            }
        }
        self.values.truncate(b);
        self.shadow.truncate(b);
        Some(out)
    }

    /// Discards the whole execution after a trap, so a later call starts pristine.
    pub fn discard(&mut self)
        ensures
            final(self).wf(),
            final(self).values@.len() == 0,
            final(self).frames@.len() == 0,
    {
        self.values = Vec::new();
        self.shadow = Vec::new();
        self.frames = Vec::new();
    }
}

} // verus!
