use submilli_wasm::config::Config;
use submilli_wasm::engine::Engine;
use submilli_wasm::exec::exn::{Exn, Tag};
use submilli_wasm::exec::machine::{Instance, Status};
use submilli_wasm::exec::memory::Memory;
use submilli_wasm::exec::op::{CompiledFunc, HandlerRec, HandlerSpan, Op};
use submilli_wasm::exec::stack::Execution;
use submilli_wasm::trap::Trap;
use submilli_wasm::value::{Val, ValType};

fn func(n_params: u32, n_results: u32, ops: Vec<Op>, handlers: Vec<HandlerSpan>) -> CompiledFunc {
    CompiledFunc { n_params, n_results, local_types: vec![], ops, br_tables: vec![], handlers }
}

fn instance(funcs: Vec<CompiledFunc>, tags: Vec<Tag>) -> Instance {
    Instance {
        funcs,
        host_funcs: vec![(0, 0)],
        func_type_ids: vec![],
        host_type_ids: vec![],
        type_ids: vec![],
        tags,
        globals: vec![],
        memory: Memory::new(0, 0),
        tables: vec![],
        elems: vec![],
        datas: vec![],
        exns: vec![],
        max_wasm_stack: 524288,
        fuel: None,
        epoch_deadline: None,
    }
}

fn catch(tag: Option<u32>, payload_args: bool, payload_ref: bool, landing_ip: u32) -> HandlerRec {
    HandlerRec { tag, restore_height: 0, payload_args, payload_ref, landing_ip }
}

fn run(inst: &mut Instance, func: u32) -> (Execution, Status) {
    let mut exec = Execution::new();
    let mut status = exec.enter_call(inst, func, &[]);
    while status == Status::Running {
        status = exec.run(inst, &engine(), 1000);
    }
    (exec, status)
}

#[test]
fn a_throw_is_caught_in_its_own_frame_with_its_arguments() {
    let f = func(
        0,
        1,
        vec![Op::I32Const(42), Op::Throw(0), Op::I32Const(0), Op::Return, Op::Return],
        vec![HandlerSpan { start_ip: 0, end_ip: 2, clauses: vec![catch(Some(0), true, false, 4)] }],
    );
    let mut inst = instance(vec![f], vec![Tag { id: 7, n_params: 1 }]);
    let (mut exec, status) = run(&mut inst, 0);
    assert_eq!(status, Status::Finished);
    assert_eq!(exec.take_results(&[ValType::I32]).unwrap(), vec![Val::I32(42)]);
}

#[test]
fn a_caller_catches_what_its_callee_throws() {
    let caller = func(
        0,
        1,
        vec![Op::Call(1), Op::Return, Op::I32Const(99), Op::Return],
        vec![HandlerSpan { start_ip: 0, end_ip: 1, clauses: vec![catch(None, false, false, 2)] }],
    );
    let callee = func(0, 1, vec![Op::Throw(0)], vec![]);
    let mut inst = instance(vec![caller, callee], vec![Tag { id: 3, n_params: 0 }]);
    let (mut exec, status) = run(&mut inst, 0);
    assert_eq!(status, Status::Finished);
    assert_eq!(exec.take_results(&[ValType::I32]).unwrap(), vec![Val::I32(99)]);
}

#[test]
fn a_clause_for_another_tag_does_not_catch() {
    let f = func(
        0,
        0,
        vec![Op::Throw(0), Op::Return],
        vec![HandlerSpan { start_ip: 0, end_ip: 1, clauses: vec![catch(Some(1), false, false, 1)] }],
    );
    let mut inst = instance(vec![f], vec![Tag { id: 1, n_params: 0 }, Tag { id: 2, n_params: 0 }]);
    let (exec, status) = run(&mut inst, 0);
    assert_eq!(status, Status::Uncaught(0));
    assert!(exec.frames.is_empty());
    assert_eq!(inst.exns[0].tag, 1);
}

#[test]
fn throw_ref_of_null_traps() {
    let f = func(0, 0, vec![Op::I32Const(-1), Op::ThrowRef], vec![]);
    let mut inst = instance(vec![f], vec![]);
    let (_, status) = run(&mut inst, 0);
    assert_eq!(status, Status::Trapped(Trap::NullReference));
}

#[test]
fn a_caught_exnref_can_be_rethrown_to_the_caller() {
    let caller = func(
        0,
        1,
        vec![Op::Call(1), Op::Return, Op::Return],
        vec![HandlerSpan { start_ip: 0, end_ip: 1, clauses: vec![catch(Some(0), true, false, 2)] }],
    );
    let callee = func(
        0,
        1,
        vec![Op::I32Const(5), Op::Throw(0), Op::ThrowRef],
        vec![HandlerSpan { start_ip: 0, end_ip: 2, clauses: vec![catch(None, false, true, 2)] }],
    );
    let mut inst = instance(vec![caller, callee], vec![Tag { id: 9, n_params: 1 }]);
    let (mut exec, status) = run(&mut inst, 0);
    assert_eq!(status, Status::Finished);
    assert_eq!(exec.take_results(&[ValType::I32]).unwrap(), vec![Val::I32(5)]);
    assert_eq!(inst.exns.len(), 1);
}

#[test]
fn an_embedder_function_can_throw_into_the_guest() {
    let f = func(
        0,
        1,
        vec![Op::CallHost(0), Op::I32Const(1), Op::Return, Op::Return],
        vec![HandlerSpan { start_ip: 0, end_ip: 1, clauses: vec![catch(Some(0), true, false, 3)] }],
    );
    let mut inst = instance(vec![f], vec![Tag { id: 4, n_params: 1 }]);
    let engine = engine();
    let mut exec = Execution::new();
    assert_eq!(exec.enter_call(&inst, 0, &[]), Status::Running);
    assert_eq!(exec.run(&mut inst, &engine, 100), Status::HostCall(0));
    inst.exns.push(Exn { tag: 4, args: vec![encode_i32(11)], arg_tags: vec![submilli_wasm::exec::cell::RefTag::NoRef] });
    assert_eq!(exec.raise_host_exception(&inst, 0), Status::Running);
    assert_eq!(exec.run(&mut inst, &engine, 100), Status::Finished);
    assert_eq!(exec.take_results(&[ValType::I32]).unwrap(), vec![Val::I32(11)]);
}

fn encode_i32(x: i32) -> submilli_wasm::exec::cell::Cell {
    submilli_wasm::exec::cell::encode(Val::I32(x))
}

fn engine() -> Engine {
    Engine::new(&Config::new(), false, None).unwrap()
}
