use submilli_wasm::canon::layout::RefKind;
use submilli_wasm::config::Config;
use submilli_wasm::engine::Engine;
use submilli_wasm::exec::machine::{Instance, Status};
use submilli_wasm::exec::memory::Memory;
use submilli_wasm::exec::op::{CastTarget, CompiledFunc, Op};
use submilli_wasm::canon::{AggKind, IrHeap};
use submilli_wasm::exec::stack::Execution;
use submilli_wasm::exec::table::Table;
use submilli_wasm::exec::compile::{BlockArity, Instr};
use submilli_wasm::trap::Trap;
use submilli_wasm::value::{Val, ValType};

fn func(n_params: u32, n_results: u32, ops: Vec<Op>) -> CompiledFunc {
    CompiledFunc { n_params, n_results, local_types: vec![], ops, br_tables: vec![], handlers: vec![] }
}

fn instance(funcs: Vec<CompiledFunc>, tables: Vec<Table>) -> Instance {
    Instance {
        funcs,
        host_funcs: vec![],
        func_type_ids: vec![],
        host_type_ids: vec![],
        type_ids: vec![],
        tags: vec![],
        globals: vec![],
        memory: Memory::new(0, 0),
        tables,
        elems: vec![],
        datas: vec![],
        exns: vec![],
        max_wasm_stack: 524288,
        fuel: None,
        epoch_deadline: None,
    }
}

fn run(inst: &mut Instance, engine: &Engine, func: u32, args: &[Val], results: &[ValType]) -> Result<Vec<Val>, Status> {
    let mut exec = Execution::new();
    let mut status = exec.enter_call(inst, func, args);
    while status == Status::Running {
        status = exec.run(inst, engine, 1000);
    }
    match status {
        Status::Finished => Ok(exec.take_results(results).unwrap()),
        other => Err(other),
    }
}

fn funcref_table(elems: Vec<Option<u32>>, max: u32) -> Table {
    Table { elems, kind: RefKind::Func, max }
}

#[test]
fn table_set_then_get_and_size() {
    let engine = Engine::new(&Config::new(), false, None).unwrap();
    let f = func(
        0,
        2,
        vec![
            Op::I32Const(1),
            Op::RefFunc(7),
            Op::TableSet(0),
            Op::I32Const(1),
            Op::TableGet(0),
            Op::RefIsNull,
            Op::TableSize(0),
        ],
    );
    let mut inst = instance(vec![f], vec![funcref_table(vec![None, None, None], 10)]);
    let got = run(&mut inst, &engine, 0, &[], &[ValType::I32, ValType::I32]).unwrap();
    assert_eq!(got, vec![Val::I32(0), Val::I32(3)]);
    assert_eq!(inst.tables[0].elems, vec![None, Some(7), None]);
}

#[test]
fn table_access_out_of_bounds_traps() {
    let engine = Engine::new(&Config::new(), false, None).unwrap();
    let f = func(0, 0, vec![Op::I32Const(3), Op::TableGet(0), Op::Drop]);
    let mut inst = instance(vec![f], vec![funcref_table(vec![None, None, None], 10)]);
    assert_eq!(run(&mut inst, &engine, 0, &[], &[]), Err(Status::Trapped(Trap::TableOutOfBounds)));
}

#[test]
fn table_grow_reports_the_old_size_or_failure() {
    let engine = Engine::new(&Config::new(), false, None).unwrap();
    let f = func(
        0,
        2,
        vec![Op::RefFunc(1), Op::I32Const(2), Op::TableGrow(0), Op::RefNull(RefKind::Func), Op::I32Const(5), Op::TableGrow(0)],
    );
    let mut inst = instance(vec![f], vec![funcref_table(vec![None], 4)]);
    let got = run(&mut inst, &engine, 0, &[], &[ValType::I32, ValType::I32]).unwrap();
    assert_eq!(got, vec![Val::I32(1), Val::I32(-1)]);
    assert_eq!(inst.tables[0].elems, vec![None, Some(1), Some(1)]);
}

#[test]
fn table_fill_and_copy() {
    let engine = Engine::new(&Config::new(), false, None).unwrap();
    let f = func(
        0,
        0,
        vec![
            Op::I32Const(0),
            Op::RefFunc(9),
            Op::I32Const(2),
            Op::TableFill(0),
            Op::I32Const(2),
            Op::I32Const(0),
            Op::I32Const(2),
            Op::TableCopy(0, 0),
        ],
    );
    let mut inst = instance(vec![f], vec![funcref_table(vec![None; 5], 5)]);
    run(&mut inst, &engine, 0, &[], &[]).unwrap();
    assert_eq!(inst.tables[0].elems, vec![Some(9), Some(9), Some(9), Some(9), None]);
}

#[test]
fn table_init_copies_a_segment_until_it_is_dropped() {
    let engine = Engine::new(&Config::new(), false, None).unwrap();
    let f = func(
        0,
        0,
        vec![Op::I32Const(1), Op::I32Const(0), Op::I32Const(2), Op::TableInit(0, 0), Op::ElemDrop(0)],
    );
    let mut inst = instance(vec![f], vec![funcref_table(vec![None; 3], 3)]);
    inst.elems = vec![vec![Some(4), Some(5)]];
    run(&mut inst, &engine, 0, &[], &[]).unwrap();
    assert_eq!(inst.tables[0].elems, vec![None, Some(4), Some(5)]);
    assert!(inst.elems[0].is_empty());
}

/// Two functions of type `i32 -> i32` and one of type `-> i32`, reachable through table 0.
fn indirect_setup(engine: &mut Engine) -> Instance {
    let (unary, _) = engine.intern_func_type(&[ValType::I32], &[ValType::I32]);
    let (nullary, _) = engine.intern_func_type(&[], &[ValType::I32]);
    let double = func(1, 1, vec![Op::LocalGet(0), Op::LocalGet(0), Op::I32Add]);
    let inc = func(1, 1, vec![Op::LocalGet(0), Op::I32Const(1), Op::I32Add]);
    let seven = func(0, 1, vec![Op::I32Const(7)]);
    // dispatch(x, i) = table[i](x), expecting type 0 (i32 -> i32)
    let dispatch = func(2, 1, vec![Op::LocalGet(0), Op::LocalGet(1), Op::CallIndirect(0, 0)]);
    let mut inst = instance(vec![double, inc, seven, dispatch], vec![funcref_table(vec![Some(0), Some(1), Some(2), None], 4)]);
    inst.func_type_ids = vec![unary, unary, nullary, unary];
    inst.type_ids = vec![unary];
    inst
}

#[test]
fn call_indirect_dispatches_through_the_table() {
    let mut engine = Engine::new(&Config::new(), false, None).unwrap();
    let mut inst = indirect_setup(&mut engine);
    let r = &[ValType::I32];
    assert_eq!(run(&mut inst, &engine, 3, &[Val::I32(5), Val::I32(0)], r).unwrap(), vec![Val::I32(10)]);
    assert_eq!(run(&mut inst, &engine, 3, &[Val::I32(5), Val::I32(1)], r).unwrap(), vec![Val::I32(6)]);
}

#[test]
fn call_indirect_checks_the_signature_null_and_bounds() {
    let mut engine = Engine::new(&Config::new(), false, None).unwrap();
    let mut inst = indirect_setup(&mut engine);
    let r = &[ValType::I32];
    assert_eq!(run(&mut inst, &engine, 3, &[Val::I32(5), Val::I32(2)], r), Err(Status::Trapped(Trap::BadSignature)));
    assert_eq!(run(&mut inst, &engine, 3, &[Val::I32(5), Val::I32(3)], r), Err(Status::Trapped(Trap::IndirectCallToNull)));
    assert_eq!(run(&mut inst, &engine, 3, &[Val::I32(5), Val::I32(4)], r), Err(Status::Trapped(Trap::TableOutOfBounds)));
}

#[test]
fn call_ref_calls_the_referenced_function_and_traps_on_null() {
    let engine = Engine::new(&Config::new(), false, None).unwrap();
    let callee = func(1, 1, vec![Op::LocalGet(0), Op::I32Const(3), Op::I32Mul]);
    let caller = func(0, 1, vec![Op::I32Const(4), Op::RefFunc(0), Op::CallRef(0)]);
    let null_caller = func(0, 1, vec![Op::I32Const(4), Op::RefNull(RefKind::Func), Op::CallRef(0)]);
    let mut inst = instance(vec![callee, caller, null_caller], vec![]);
    assert_eq!(run(&mut inst, &engine, 1, &[], &[ValType::I32]).unwrap(), vec![Val::I32(12)]);
    assert_eq!(run(&mut inst, &engine, 2, &[], &[ValType::I32]), Err(Status::Trapped(Trap::NullReference)));
}

fn compiled(body: Vec<Instr>) -> CompiledFunc {
    submilli_wasm::exec::compile::compile_function(0, 1, vec![], &body, &[(0, 1)], &[], &[]).unwrap()
}

#[test]
fn br_on_null_branches_only_on_null() {
    let engine = Engine::new(&Config::new(), false, None).unwrap();
    let body = |r: Op| vec![
        Instr::Block(BlockArity { params: 0, results: 1 }),
        Instr::Plain(Op::I32Const(7)),
        Instr::Plain(r),
        Instr::BrOnNull(0),
        Instr::Plain(Op::Drop),
        Instr::Plain(Op::Drop),
        Instr::Plain(Op::I32Const(1)),
        Instr::End,
        Instr::End,
    ];
    let mut null = instance(vec![compiled(body(Op::RefNull(RefKind::Func)))], vec![]);
    assert_eq!(run(&mut null, &engine, 0, &[], &[ValType::I32]), Ok(vec![Val::I32(7)]));
    let mut non_null = instance(vec![compiled(body(Op::RefFunc(3)))], vec![]);
    assert_eq!(run(&mut non_null, &engine, 0, &[], &[ValType::I32]), Ok(vec![Val::I32(1)]));
}

#[test]
fn br_on_non_null_carries_the_reference() {
    let engine = Engine::new(&Config::new(), false, None).unwrap();
    let body = |r: Op| vec![
        Instr::Block(BlockArity { params: 0, results: 1 }),
        Instr::Plain(r),
        Instr::BrOnNonNull(0),
        Instr::Plain(Op::RefNull(RefKind::Func)),
        Instr::End,
        Instr::Plain(Op::RefIsNull),
        Instr::End,
    ];
    let mut non_null = instance(vec![compiled(body(Op::RefFunc(3)))], vec![]);
    assert_eq!(run(&mut non_null, &engine, 0, &[], &[ValType::I32]), Ok(vec![Val::I32(0)]));
    let mut null = instance(vec![compiled(body(Op::RefNull(RefKind::Func)))], vec![]);
    assert_eq!(run(&mut null, &engine, 0, &[], &[ValType::I32]), Ok(vec![Val::I32(1)]));
}

#[test]
fn ref_as_non_null_traps_on_null() {
    let engine = Engine::new(&Config::new(), false, None).unwrap();
    let mut ok = instance(vec![func(0, 1, vec![Op::RefFunc(2), Op::RefAsNonNull, Op::RefIsNull])], vec![]);
    assert_eq!(run(&mut ok, &engine, 0, &[], &[ValType::I32]), Ok(vec![Val::I32(0)]));
    let mut bad = instance(vec![func(0, 1, vec![Op::RefNull(RefKind::Func), Op::RefAsNonNull, Op::RefIsNull])], vec![]);
    assert_eq!(run(&mut bad, &engine, 0, &[], &[ValType::I32]), Err(Status::Trapped(Trap::NullReference)));
}

fn cast_to(heap: IrHeap, nullable: bool) -> CastTarget {
    CastTarget { heap, nullable }
}

#[test]
fn ref_test_and_ref_cast_on_function_references() {
    let mut engine = Engine::new(&Config::new(), false, None).unwrap();
    let mut inst = indirect_setup(&mut engine);
    let unary = cast_to(IrHeap::Concrete(0, AggKind::Func), false);
    let base = inst.funcs.len() as u32;
    inst.funcs.push(func(0, 1, vec![Op::RefFunc(0), Op::RefTest(unary)]));
    inst.funcs.push(func(0, 1, vec![Op::RefFunc(2), Op::RefTest(unary)]));
    inst.funcs.push(func(0, 1, vec![Op::RefNull(RefKind::Func), Op::RefTest(unary)]));
    inst.funcs.push(func(0, 1, vec![Op::RefNull(RefKind::Func), Op::RefTest(cast_to(IrHeap::Concrete(0, AggKind::Func), true))]));
    inst.funcs.push(func(0, 1, vec![Op::RefFunc(1), Op::RefCast(unary), Op::RefIsNull]));
    inst.funcs.push(func(0, 1, vec![Op::RefFunc(2), Op::RefCast(unary), Op::RefIsNull]));
    inst.funcs.push(func(0, 1, vec![Op::RefFunc(2), Op::RefTest(cast_to(IrHeap::Func, false))]));
    let r = &[ValType::I32];
    assert_eq!(run(&mut inst, &engine, base, &[], r), Ok(vec![Val::I32(1)]));
    assert_eq!(run(&mut inst, &engine, base + 1, &[], r), Ok(vec![Val::I32(0)]));
    assert_eq!(run(&mut inst, &engine, base + 2, &[], r), Ok(vec![Val::I32(0)]));
    assert_eq!(run(&mut inst, &engine, base + 3, &[], r), Ok(vec![Val::I32(1)]));
    assert_eq!(run(&mut inst, &engine, base + 4, &[], r), Ok(vec![Val::I32(0)]));
    assert_eq!(run(&mut inst, &engine, base + 5, &[], r), Err(Status::Trapped(Trap::CastFailure)));
    assert_eq!(run(&mut inst, &engine, base + 6, &[], r), Ok(vec![Val::I32(1)]));
}

#[test]
fn br_on_cast_branches_by_the_cast() {
    let mut engine = Engine::new(&Config::new(), false, None).unwrap();
    let mut inst = indirect_setup(&mut engine);
    let unary = cast_to(IrHeap::Concrete(0, AggKind::Func), false);
    let body = |f: u32, fail: bool| vec![
        Instr::Block(BlockArity { params: 0, results: 1 }),
        Instr::Plain(Op::RefFunc(f)),
        if fail { Instr::BrOnCastFail(0, unary) } else { Instr::BrOnCast(0, unary) },
        Instr::Plain(Op::Drop),
        Instr::Plain(Op::RefNull(RefKind::Func)),
        Instr::End,
        Instr::Plain(Op::RefIsNull),
        Instr::End,
    ];
    let base = inst.funcs.len() as u32;
    inst.funcs.push(compiled(body(0, false)));
    inst.funcs.push(compiled(body(2, false)));
    inst.funcs.push(compiled(body(0, true)));
    inst.funcs.push(compiled(body(2, true)));
    let r = &[ValType::I32];
    assert_eq!(run(&mut inst, &engine, base, &[], r), Ok(vec![Val::I32(0)]));
    assert_eq!(run(&mut inst, &engine, base + 1, &[], r), Ok(vec![Val::I32(1)]));
    assert_eq!(run(&mut inst, &engine, base + 2, &[], r), Ok(vec![Val::I32(1)]));
    assert_eq!(run(&mut inst, &engine, base + 3, &[], r), Ok(vec![Val::I32(0)]));
}

#[test]
fn extern_references_convert_into_any_and_back() {
    let engine = Engine::new(&Config::new(), false, None).unwrap();
    let any = cast_to(IrHeap::Any, false);
    let ext = cast_to(IrHeap::Extern, false);
    let mut inst = instance(vec![
        func(1, 1, vec![Op::LocalGet(0), Op::AnyConvertExtern, Op::RefTest(any)]),
        func(1, 1, vec![Op::LocalGet(0), Op::RefTest(any)]),
        func(1, 1, vec![Op::LocalGet(0), Op::AnyConvertExtern, Op::ExternConvertAny, Op::RefTest(ext)]),
        func(1, 1, vec![Op::LocalGet(0), Op::AnyConvertExtern, Op::RefTest(cast_to(IrHeap::Eq, true))]),
    ], vec![]);
    let arg = [Val::ExternRef(Some(7))];
    let r = &[ValType::I32];
    assert_eq!(run(&mut inst, &engine, 0, &arg, r), Ok(vec![Val::I32(1)]));
    assert_eq!(run(&mut inst, &engine, 1, &arg, r), Ok(vec![Val::I32(0)]));
    assert_eq!(run(&mut inst, &engine, 2, &arg, r), Ok(vec![Val::I32(1)]));
    assert_eq!(run(&mut inst, &engine, 3, &arg, r), Ok(vec![Val::I32(0)]));
}

#[test]
fn active_element_segment_lands_at_its_offset_or_traps() {
    let mut t = Table { elems: vec![None; 4], kind: RefKind::Func, max: 10 };
    assert_eq!(t.init_active(1, &[Some(7), Some(8)]), Ok(()));
    assert_eq!(t.elems, vec![None, Some(7), Some(8), None]);
    assert_eq!(t.init_active(3, &[Some(1), Some(2)]), Err(Trap::TableOutOfBounds));
    assert_eq!(t.elems, vec![None, Some(7), Some(8), None]);
    assert_eq!(t.init_active(4, &[]), Ok(()));
}

#[test]
fn active_data_segment_lands_at_its_offset_or_traps() {
    let mut m = Memory::new(1, 1);
    assert_eq!(m.init_active(65534, &[1, 2]), Ok(()));
    assert_eq!(&m.bytes[65533..], &[0, 1, 2]);
    assert_eq!(m.init_active(65535, &[3, 4]), Err(Trap::MemoryOutOfBounds));
    assert_eq!(m.bytes[65535], 2);
    assert_eq!(m.init_active(usize::MAX, &[5]), Err(Trap::MemoryOutOfBounds));
}
