use submilli_wasm::config::Config;
use submilli_wasm::engine::Engine;
use submilli_wasm::exec::compile::{compile_function, BlockArity, Instr};

use submilli_wasm::exec::machine::{Instance, Status};
use submilli_wasm::exec::memory::Memory;
use submilli_wasm::exec::op::{BranchTarget, FloatRequest, MemArg, Op, TableRange};
use submilli_wasm::exec::cell::Cell;
use submilli_wasm::exec::stack::{Execution, Fault};
use submilli_wasm::trap::Trap;
use submilli_wasm::value::{Val, ValType};
use wasmparser::{BlockType, Operator, Parser, Payload};

fn val_type(t: wasmparser::ValType) -> ValType {
    match t {
        wasmparser::ValType::I32 => ValType::I32,
        wasmparser::ValType::I64 => ValType::I64,
        wasmparser::ValType::F32 => ValType::F32,
        wasmparser::ValType::F64 => ValType::F64,
        wasmparser::ValType::V128 => ValType::V128,
        wasmparser::ValType::Ref(_) => panic!("these tests use only numeric types"),
    }
}

fn arity(b: BlockType) -> BlockArity {
    match b {
        BlockType::Empty => BlockArity { params: 0, results: 0 },
        BlockType::Type(_) => BlockArity { params: 0, results: 1 },
        BlockType::FuncType(_) => panic!("these tests use no block signatures"),
    }
}

fn mem(m: wasmparser::MemArg) -> MemArg {
    MemArg { offset: m.offset }
}

fn instr(op: Operator) -> Instr {
    let plain = match op {
        Operator::Block { blockty } => return Instr::Block(arity(blockty)),
        Operator::Loop { blockty } => return Instr::Loop(arity(blockty)),
        Operator::If { blockty } => return Instr::If(arity(blockty)),
        Operator::Else => return Instr::Else,
        Operator::End => return Instr::End,
        Operator::Br { relative_depth } => return Instr::Br(relative_depth),
        Operator::BrIf { relative_depth } => return Instr::BrIf(relative_depth),
        Operator::BrTable { targets } => {
            let depths: Vec<u32> = targets.targets().map(|t| t.unwrap()).collect();
            return Instr::BrTable(depths, targets.default());
        }
        Operator::Return => return Instr::Return,
        Operator::Unreachable => Op::Unreachable,
        Operator::Nop => Op::Nop,
        Operator::Call { function_index } => Op::Call(function_index),
        Operator::Drop => Op::Drop,
        Operator::Select => Op::Select,
        Operator::LocalGet { local_index } => Op::LocalGet(local_index),
        Operator::LocalSet { local_index } => Op::LocalSet(local_index),
        Operator::LocalTee { local_index } => Op::LocalTee(local_index),
        Operator::GlobalGet { global_index } => Op::GlobalGet(global_index),
        Operator::GlobalSet { global_index } => Op::GlobalSet(global_index),
        Operator::I32Const { value } => Op::I32Const(value),
        Operator::I64Const { value } => Op::I64Const(value),
        Operator::F32Const { value } => Op::F32Const(value.bits()),
        Operator::F64Const { value } => Op::F64Const(value.bits()),
        Operator::I32Load { memarg } => Op::I32Load(mem(memarg)),
        Operator::I64Load { memarg } => Op::I64Load(mem(memarg)),
        Operator::I32Load8S { memarg } => Op::I32Load8S(mem(memarg)),
        Operator::I32Load8U { memarg } => Op::I32Load8U(mem(memarg)),
        Operator::I32Store { memarg } => Op::I32Store(mem(memarg)),
        Operator::I32Store8 { memarg } => Op::I32Store8(mem(memarg)),
        Operator::I64Store { memarg } => Op::I64Store(mem(memarg)),
        Operator::MemorySize { .. } => Op::MemorySize,
        Operator::MemoryGrow { .. } => Op::MemoryGrow,
        Operator::MemoryFill { .. } => Op::MemoryFill,
        Operator::MemoryCopy { .. } => Op::MemoryCopy,
        Operator::I32Eqz => Op::I32Eqz,
        Operator::I32Eq => Op::I32Eq,
        Operator::I32Ne => Op::I32Ne,
        Operator::I32LtS => Op::I32LtS,
        Operator::I32LtU => Op::I32LtU,
        Operator::I32GtS => Op::I32GtS,
        Operator::I32GtU => Op::I32GtU,
        Operator::I32LeS => Op::I32LeS,
        Operator::I32LeU => Op::I32LeU,
        Operator::I32GeS => Op::I32GeS,
        Operator::I32GeU => Op::I32GeU,
        Operator::I32Clz => Op::I32Clz,
        Operator::I32Ctz => Op::I32Ctz,
        Operator::I32Popcnt => Op::I32Popcnt,
        Operator::I32Add => Op::I32Add,
        Operator::I32Sub => Op::I32Sub,
        Operator::I32Mul => Op::I32Mul,
        Operator::I32DivS => Op::I32DivS,
        Operator::I32DivU => Op::I32DivU,
        Operator::I32RemS => Op::I32RemS,
        Operator::I32RemU => Op::I32RemU,
        Operator::I32And => Op::I32And,
        Operator::I32Or => Op::I32Or,
        Operator::I32Xor => Op::I32Xor,
        Operator::I32Shl => Op::I32Shl,
        Operator::I32ShrS => Op::I32ShrS,
        Operator::I32ShrU => Op::I32ShrU,
        Operator::I32Rotl => Op::I32Rotl,
        Operator::I32Rotr => Op::I32Rotr,
        Operator::I64Eqz => Op::I64Eqz,
        Operator::I64Eq => Op::I64Eq,
        Operator::I64LtS => Op::I64LtS,
        Operator::I64Add => Op::I64Add,
        Operator::I64Sub => Op::I64Sub,
        Operator::I64Mul => Op::I64Mul,
        Operator::I64DivS => Op::I64DivS,
        Operator::I64DivU => Op::I64DivU,
        Operator::I64RemS => Op::I64RemS,
        Operator::I64RemU => Op::I64RemU,
        Operator::I64Shl => Op::I64Shl,
        Operator::I64ShrS => Op::I64ShrS,
        Operator::I64Rotl => Op::I64Rotl,
        Operator::I64Clz => Op::I64Clz,
        Operator::I64Popcnt => Op::I64Popcnt,
        Operator::F32Abs => Op::F32Abs,
        Operator::F32Neg => Op::F32Neg,
        Operator::F32Copysign => Op::F32Copysign,
        Operator::F64Add => Op::F64Add,
        Operator::F32Sqrt => Op::F32Sqrt,
        Operator::F32Min => Op::F32Min,
        Operator::F64Neg => Op::F64Neg,
        Operator::I32WrapI64 => Op::I32WrapI64,
        Operator::I64ExtendI32S => Op::I64ExtendI32S,
        Operator::I64ExtendI32U => Op::I64ExtendI32U,
        Operator::I32TruncF32S => Op::I32TruncF32S,
        Operator::I32TruncF32U => Op::I32TruncF32U,
        Operator::I32TruncF64S => Op::I32TruncF64S,
        Operator::I64TruncF64S => Op::I64TruncF64S,
        Operator::I32TruncSatF32S => Op::I32TruncSatF32S,
        Operator::I32TruncSatF32U => Op::I32TruncSatF32U,
        Operator::I64TruncSatF64U => Op::I64TruncSatF64U,
        Operator::I32ReinterpretF32 => Op::I32ReinterpretF32,
        Operator::I64ReinterpretF64 => Op::I64ReinterpretF64,
        Operator::F32ReinterpretI32 => Op::F32ReinterpretI32,
        Operator::I32Extend8S => Op::I32Extend8S,
        Operator::I32Extend16S => Op::I32Extend16S,
        Operator::I64Extend8S => Op::I64Extend8S,
        Operator::I64Extend32S => Op::I64Extend32S,
        other => panic!("operator not used by these tests: {other:?}"),
    };
    Instr::Plain(plain)
}

/// Compiles `wat`'s single function and runs it with `args`: `Ok` with the results, or the trap.
fn run_wat(wat: &str, params: &[ValType], results: &[ValType], args: Vec<Val>) -> Result<Vec<Val>, Trap> {
    run_with_memory(wat, params, results, args, Memory::new(0, 0))
}

/// The embedder's side of the floating-point operations these tests use.
fn float_answer(req: &FloatRequest) -> Cell {
    let (a32, b32) = (f32::from_bits(req.a as u32), f32::from_bits(req.b as u32));
    let (a64, b64) = (f64::from_bits(req.a), f64::from_bits(req.b));
    match req.op {
        Op::F64Add => Cell::from_u64((a64 + b64).to_bits()),
        Op::F32Sqrt => Cell::from_u32(a32.sqrt().to_bits()),
        Op::F32Min => Cell::from_u32(if a32.is_nan() || b32.is_nan() { 0x7fc0_0000 } else { a32.min(b32).to_bits() }),
        other => panic!("these tests use no other floating-point operation: {other:?}"),
    }
}

fn run_with_memory(wat: &str, params: &[ValType], results: &[ValType], args: Vec<Val>, memory: Memory)
    -> Result<Vec<Val>, Trap>
{
    let engine = new_engine();
    let bytes = wat::parse_str(wat).unwrap();
    let mut code = None;
    for payload in Parser::new(0).parse_all(&bytes) {
        if let Payload::CodeSectionEntry(body) = payload.unwrap() {
            let mut locals = Vec::new();
            for l in body.get_locals_reader().unwrap() {
                let (count, ty) = l.unwrap();
                for _ in 0..count {
                    locals.push(val_type(ty));
                }
            }
            let mut ops = body.get_operators_reader().unwrap();
            let mut instrs = Vec::new();
            while !ops.eof() {
                instrs.push(instr(ops.read().unwrap()));
            }
            let sig = (params.len() as u32, results.len() as u32);
            code = Some(compile_function(sig.0, sig.1, locals, &instrs, &[sig], &[], &[]).unwrap());
        }
    }
    let mut inst = bare_instance(vec![code.unwrap()], vec![]);
    inst.memory = memory;
    let mut exec = Execution::new();
    let mut status = exec.enter_call(&inst, 0, &args);
    loop {
        match status {
            Status::Running => status = exec.run(&mut inst, &engine, 1_000_000),
            Status::Finished => return Ok(exec.take_results(results).unwrap()),
            Status::Trapped(t) => {
                exec.discard();
                return Err(t);
            }
            Status::Float(req) => status = exec.resume_float(float_answer(&req)),
            Status::HostCall(h) => panic!("these tests import no functions: {h}"),
            Status::EpochDeadline => panic!("these tests set no deadline"),
            Status::Uncaught(h) => panic!("these tests throw no exceptions: {h}"),
            Status::Invalid => panic!("invalid code"),
        }
    }
}

fn run_i32(wat: &str, params: &[ValType], args: Vec<Val>) -> i32 {
    run_wat(wat, params, &[ValType::I32], args).unwrap()[0].unwrap_i32()
}

#[test]
fn const_return() {
    assert_eq!(run_i32("(module (func (result i32) i32.const 42))", &[], vec![]), 42);
}

#[test]
fn local_get_param() {
    let got = run_i32(
        "(module (func (param i32 i32) (result i32) local.get 1))",
        &[ValType::I32, ValType::I32],
        vec![Val::I32(7), Val::I32(9)],
    );
    assert_eq!(got, 9);
}

#[test]
fn local_tee_and_drop() {
    let got = run_i32(
        "(module (func (result i32) (local i32) i32.const 5 local.tee 0 drop local.get 0))",
        &[],
        vec![],
    );
    assert_eq!(got, 5);
}

#[test]
fn select_picks_second_when_zero() {
    let got = run_i32("(module (func (result i32) i32.const 10 i32.const 20 i32.const 0 select))", &[], vec![]);
    assert_eq!(got, 20);
}

#[test]
fn multi_value_results() {
    let res = run_wat(
        "(module (func (result i32 i32) i32.const 1 i32.const 2))",
        &[],
        &[ValType::I32, ValType::I32],
        vec![],
    )
    .unwrap();
    assert_eq!(res[0].unwrap_i32(), 1);
    assert_eq!(res[1].unwrap_i32(), 2);
}

#[test]
fn block_branch() {
    let got = run_i32("(module (func (result i32) (block (result i32) i32.const 5 br 0)))", &[], vec![]);
    assert_eq!(got, 5);
}

#[test]
fn if_else_both_arms() {
    let wat = "(module (func (param i32) (result i32) local.get 0 \
        (if (result i32) (then i32.const 1) (else i32.const 2))))";
    assert_eq!(run_i32(wat, &[ValType::I32], vec![Val::I32(1)]), 1);
    assert_eq!(run_i32(wat, &[ValType::I32], vec![Val::I32(0)]), 2);
}

#[test]
fn loop_fallthrough() {
    let got = run_i32("(module (func (result i32) (loop (result i32) i32.const 7)))", &[], vec![]);
    assert_eq!(got, 7);
}

#[test]
fn explicit_return() {
    let got = run_i32(
        "(module (func (param i32) (result i32) local.get 0 return))",
        &[ValType::I32],
        vec![Val::I32(3)],
    );
    assert_eq!(got, 3);
}

fn const_i32(wat_body: &str) -> i32 {
    run_i32(&format!("(module (func (result i32) {wat_body}))"), &[], vec![])
}

fn trap_of(wat_body: &str) -> Trap {
    run_wat(&format!("(module (func (result i32) {wat_body}))"), &[], &[ValType::I32], vec![]).unwrap_err()
}

#[test]
fn integer_arithmetic() {
    assert_eq!(const_i32("i32.const 5 i32.const 3 i32.add"), 8);
    assert_eq!(const_i32("i32.const 5 i32.const 3 i32.sub"), 2);
    assert_eq!(const_i32("i32.const 6 i32.const 7 i32.mul"), 42);
    assert_eq!(const_i32("i32.const 0xff i32.const 0x0f i32.and"), 0x0f);
    assert_eq!(const_i32("i32.const 1 i32.const 4 i32.shl"), 16);
    assert_eq!(const_i32("i32.const -1 i32.const 1 i32.shr_u"), i32::MAX);
    assert_eq!(const_i32("i32.const 1 i32.const 2 i32.lt_s"), 1);
    assert_eq!(const_i32("i32.const -1 i32.const 1 i32.lt_u"), 0);
}

#[test]
fn integer_div_traps() {
    assert!(matches!(trap_of("i32.const 1 i32.const 0 i32.div_s"), Trap::IntegerDivisionByZero));
    assert!(matches!(trap_of("i32.const -2147483648 i32.const -1 i32.div_s"), Trap::IntegerOverflow));
    assert_eq!(const_i32("i32.const -2147483648 i32.const -1 i32.rem_s"), 0);
}

#[test]
fn i64_division() {
    let got = run_wat(
        "(module (func (result i64) i64.const 10 i64.const 3 i64.div_u))",
        &[],
        &[ValType::I64],
        vec![],
    )
    .unwrap();
    assert_eq!(got[0].unwrap_i64(), 3);
}

#[test]
fn conversions() {
    assert_eq!(const_i32("f32.const 3.9 i32.trunc_f32_s"), 3);
    assert!(matches!(trap_of("f32.const nan i32.trunc_f32_s"), Trap::BadConversionToInteger));
    assert!(matches!(trap_of("f32.const 1e30 i32.trunc_f32_s"), Trap::IntegerOverflow));
    assert_eq!(const_i32("f32.const 1e30 i32.trunc_sat_f32_s"), i32::MAX);
    assert_eq!(const_i32("f32.const nan i32.trunc_sat_f32_s"), 0);
    assert_eq!(const_i32("f32.const 1.0 i32.reinterpret_f32"), 0x3f80_0000);
    assert_eq!(const_i32("i32.const 255 i32.extend8_s"), -1);

    let ext = run_wat(
        "(module (func (result i64) i32.const -1 i64.extend_i32_s))",
        &[],
        &[ValType::I64],
        vec![],
    )
    .unwrap();
    assert_eq!(ext[0].unwrap_i64(), -1);
}

#[test]
fn unreachable_traps() {
    assert!(matches!(trap_of("unreachable"), Trap::UnreachableCodeReached));
}

#[test]
fn loop_with_backward_branch_counts_down() {
    let wat = "(module (func (param i32) (result i32) (local i32) \
        (block (loop \
            local.get 0 i32.eqz br_if 1 \
            local.get 1 local.get 0 i32.add local.set 1 \
            local.get 0 i32.const 1 i32.sub local.set 0 \
            br 0)) \
        local.get 1))";
    assert_eq!(run_i32(wat, &[ValType::I32], vec![Val::I32(10)]), 55);
}

#[test]
fn br_table_picks_case_or_default() {
    let wat = "(module (func (param i32) (result i32) \
        (block (block (block local.get 0 br_table 0 1 2) \
            i32.const 10 return) \
            i32.const 20 return) \
        i32.const 30))";
    assert_eq!(run_i32(wat, &[ValType::I32], vec![Val::I32(0)]), 10);
    assert_eq!(run_i32(wat, &[ValType::I32], vec![Val::I32(1)]), 20);
    assert_eq!(run_i32(wat, &[ValType::I32], vec![Val::I32(2)]), 30);
    assert_eq!(run_i32(wat, &[ValType::I32], vec![Val::I32(99)]), 30);
}

#[test]
fn memory_store_then_load() {
    let wat = "(module (memory 1) (func (result i32) \
        i32.const 8 i32.const 0x12345678 i32.store \
        i32.const 9 i32.load8_u))";
    let got = run_with_memory(wat, &[], &[ValType::I32], vec![], Memory::new(1, 1)).unwrap();
    assert_eq!(got[0].unwrap_i32(), 0x56);
}

#[test]
fn memory_access_out_of_bounds_traps() {
    let wat = "(module (memory 1) (func (result i32) i32.const 65533 i32.load))";
    let got = run_with_memory(wat, &[], &[ValType::I32], vec![], Memory::new(1, 1));
    assert!(matches!(got, Err(Trap::MemoryOutOfBounds)));
}

#[test]
fn memory_grow_reports_new_size_or_failure() {
    let wat = "(module (memory 1 2) (func (result i32) \
        i32.const 1 memory.grow drop \
        i32.const 1 memory.grow \
        memory.size i32.add))";
    let got = run_with_memory(wat, &[], &[ValType::I32], vec![], Memory::new(1, 2)).unwrap();
    assert_eq!(got[0].unwrap_i32(), -1 + 2);
    let wat = "(module (memory 1 3) (func (result i32) i32.const 2 memory.grow))";
    let got = run_with_memory(wat, &[], &[ValType::I32], vec![], Memory::new(1, 3)).unwrap();
    assert_eq!(got[0].unwrap_i32(), 3);
}

#[test]
fn copysign_and_neg_work_on_bits() {
    let got = run_wat(
        "(module (func (result f32) f32.const 1 f32.const -2 f32.copysign))",
        &[],
        &[ValType::F32],
        vec![],
    )
    .unwrap();
    assert_eq!(got[0].unwrap_f32_bits(), (-1.0_f32).to_bits());
    let neg = run_wat("(module (func (result f64) f64.const 2.5 f64.neg))", &[], &[ValType::F64], vec![]).unwrap();
    assert_eq!(neg[0].unwrap_f64_bits(), (-2.5_f64).to_bits());
}

#[test]
fn deep_recursion_overflows_the_stack() {
    let engine = new_engine();
    let f = compile_function(0, 1, vec![], &[Instr::Plain(Op::Call(0)), Instr::End], &[(0, 1)], &[], &[]).unwrap();
    let mut inst = bare_instance(vec![f], vec![]);
    inst.max_wasm_stack = 4096;
    let mut exec = Execution::new();
    let mut status = exec.enter_call(&inst, 0, &[]);
    while status == Status::Running {
        status = exec.run(&mut inst, &engine, 1_000_000);
    }
    assert_eq!(status, Status::Trapped(Trap::StackOverflow));
}

fn bare_instance(funcs: Vec<submilli_wasm::exec::op::CompiledFunc>, host_funcs: Vec<(u32, u32)>) -> Instance {
    Instance {
        funcs,
        host_funcs,
        func_type_ids: vec![],
        host_type_ids: vec![],
        type_ids: vec![],
        tags: vec![],
        globals: vec![],
        memory: Memory::new(0, 0),
        tables: vec![],
        elems: vec![],
        datas: vec![],
        exns: vec![],
        max_wasm_stack: 524288,
        fuel: None,
        epoch_deadline: None,
    }
}

fn infinite_loop() -> submilli_wasm::exec::op::CompiledFunc {
    let body = [
        Instr::Loop(BlockArity { params: 0, results: 0 }),
        Instr::Br(0),
        Instr::End,
        Instr::End,
    ];
    compile_function(0, 0, vec![], &body, &[(0, 0)], &[], &[]).unwrap()
}

#[test]
fn fuel_runs_out_in_an_endless_loop() {
    let engine = new_engine();
    let mut inst = bare_instance(vec![infinite_loop()], vec![]);
    inst.fuel = Some(1000);
    let mut exec = Execution::new();
    let mut status = exec.enter_call(&inst, 0, &[]);
    while status == Status::Running {
        status = exec.run(&mut inst, &engine, 100);
    }
    assert_eq!(status, Status::Trapped(Trap::OutOfFuel));
    assert_eq!(inst.fuel, Some(0));
}

#[test]
fn each_instruction_costs_one_unit_of_fuel() {
    let engine = new_engine();
    let body = [Instr::Plain(Op::I32Const(1)), Instr::Plain(Op::I32Const(2)), Instr::Plain(Op::I32Add), Instr::End];
    let f = compile_function(0, 1, vec![], &body, &[(0, 1)], &[], &[]).unwrap();
    let mut inst = bare_instance(vec![f], vec![]);
    inst.fuel = Some(10);
    let mut exec = Execution::new();
    assert_eq!(exec.enter_call(&inst, 0, &[]), Status::Running);
    assert_eq!(exec.run(&mut inst, &engine, 100), Status::Finished);
    assert_eq!(inst.fuel, Some(7));
    assert_eq!(exec.take_results(&[ValType::I32]).unwrap(), vec![Val::I32(3)]);
}

#[test]
fn epoch_deadline_suspends_and_resumes() {
    let body = [Instr::Plain(Op::I32Const(9)), Instr::End];
    let f = compile_function(0, 1, vec![], &body, &[(0, 1)], &[], &[]).unwrap();
    let mut inst = bare_instance(vec![f], vec![]);
    inst.epoch_deadline = Some(3);
    let mut engine = new_engine();
    for _ in 0..3 {
        engine.increment_epoch();
    }
    let mut exec = Execution::new();
    assert_eq!(exec.enter_call(&inst, 0, &[]), Status::Running);
    assert_eq!(exec.run(&mut inst, &engine, 100), Status::EpochDeadline);
    inst.epoch_deadline = Some(10);
    assert_eq!(exec.run(&mut inst, &engine, 100), Status::Finished);
    assert_eq!(exec.take_results(&[ValType::I32]).unwrap(), vec![Val::I32(9)]);
}

#[test]
fn host_call_hands_over_arguments_and_takes_results() {
    let engine = new_engine();
    // f(x) = host(x, 10) + 1
    let body = [
        Instr::Plain(Op::LocalGet(0)),
        Instr::Plain(Op::I32Const(10)),
        Instr::Plain(Op::CallHost(0)),
        Instr::Plain(Op::I32Const(1)),
        Instr::Plain(Op::I32Add),
        Instr::End,
    ];
    let f = compile_function(1, 1, vec![], &body, &[(1, 1)], &[(2, 1)], &[]).unwrap();
    let mut inst = bare_instance(vec![f], vec![(2, 1)]);
    let mut exec = Execution::new();
    assert_eq!(exec.enter_call(&inst, 0, &[Val::I32(5)]), Status::Running);
    assert_eq!(exec.run(&mut inst, &engine, 100), Status::HostCall(0));
    let args = exec.take_results(&[ValType::I32, ValType::I32]).unwrap();
    assert_eq!(args, vec![Val::I32(5), Val::I32(10)]);
    assert_eq!(exec.resume_host(&[Val::I32(5 * 10)]), Status::Running);
    assert_eq!(exec.run(&mut inst, &engine, 100), Status::Finished);
    assert_eq!(exec.take_results(&[ValType::I32]).unwrap(), vec![Val::I32(51)]);
}

#[test]
fn entering_a_run_over_the_stack_budget_traps() {
    let engine = new_engine();
    let body = [Instr::Plain(Op::Nop), Instr::Plain(Op::Nop), Instr::End];
    let f = compile_function(0, 0, vec![], &body, &[(0, 0)], &[], &[]).unwrap();
    let mut inst = bare_instance(vec![f], vec![]);
    // one frame costs 12 bytes: at the budget already
    inst.max_wasm_stack = 12;
    let mut exec = Execution::new();
    assert_eq!(exec.enter_call(&inst, 0, &[]), Status::Running);
    assert_eq!(exec.run(&mut inst, &engine, 3), Status::Trapped(Trap::StackOverflow));
    assert_eq!(exec.frames.len(), 1);
    assert_eq!(exec.frames[0].ip, 0);
    inst.max_wasm_stack = 13;
    assert_eq!(exec.run(&mut inst, &engine, 3), Status::Finished);
}

#[test]
fn resuming_after_a_host_call_checks_the_budget_when_the_run_is_entered() {
    let engine = new_engine();
    let body = [Instr::Plain(Op::CallHost(0)), Instr::End];
    let f = compile_function(0, 1, vec![], &body, &[(0, 1)], &[(0, 1)], &[]).unwrap();
    let mut inst = bare_instance(vec![f], vec![(0, 1)]);
    let mut exec = Execution::new();
    assert_eq!(exec.enter_call(&inst, 0, &[]), Status::Running);
    assert_eq!(exec.run(&mut inst, &engine, 100), Status::HostCall(0));
    // one frame (12) plus one result cell (16 + 1) is 29 bytes
    inst.max_wasm_stack = 29;
    assert_eq!(exec.resume_host(&[Val::I32(4)]), Status::Running);
    assert_eq!(exec.values.len(), 1);
    assert_eq!(exec.run(&mut inst, &engine, 100), Status::Trapped(Trap::StackOverflow));
}

#[test]
fn tail_calls_run_in_constant_stack() {
    let engine = new_engine();
    // count(n) = if n == 0 { 7 } else { return_call count(n - 1) }
    let body = [
        Instr::Plain(Op::LocalGet(0)),
        Instr::Plain(Op::I32Eqz),
        Instr::If(BlockArity { params: 0, results: 0 }),
        Instr::Plain(Op::I32Const(7)),
        Instr::Return,
        Instr::End,
        Instr::Plain(Op::LocalGet(0)),
        Instr::Plain(Op::I32Const(1)),
        Instr::Plain(Op::I32Sub),
        Instr::ReturnCall(0),
        Instr::End,
    ];
    let f = compile_function(1, 1, vec![], &body, &[(1, 1)], &[], &[]).unwrap();
    let mut inst = bare_instance(vec![f], vec![]);
    inst.max_wasm_stack = 256;
    let mut exec = Execution::new();
    let mut status = exec.enter_call(&inst, 0, &[Val::I32(100_000)]);
    while status == Status::Running {
        assert!(exec.frames.len() <= 1);
        status = exec.run(&mut inst, &engine, 1000);
    }
    assert_eq!(status, Status::Finished);
    assert_eq!(exec.take_results(&[ValType::I32]).unwrap(), vec![Val::I32(7)]);
}

fn new_engine() -> Engine {
    Engine::new(&Config::new(), false, None).unwrap()
}

fn data_instance(ops: Vec<Op>) -> Instance {
    let f = submilli_wasm::exec::op::CompiledFunc { n_params: 0, n_results: 0, local_types: vec![], ops, br_tables: vec![], handlers: vec![] };
    let mut inst = bare_instance(vec![f], vec![]);
    inst.memory = Memory::new(1, 1);
    inst.datas = vec![vec![1, 2, 3, 4, 5], vec![]];
    inst
}

fn run_data(inst: &mut Instance) -> Status {
    let engine = new_engine();
    let mut exec = Execution::new();
    let mut status = exec.enter_call(inst, 0, &[]);
    while status == Status::Running {
        status = exec.run(inst, &engine, 1000);
    }
    status
}

#[test]
fn memory_init_copies_part_of_a_segment() {
    let mut inst = data_instance(vec![Op::I32Const(10), Op::I32Const(1), Op::I32Const(3), Op::MemoryInit(0)]);
    assert_eq!(run_data(&mut inst), Status::Finished);
    assert_eq!(&inst.memory.bytes[9..14], &[0, 2, 3, 4, 0]);
}

#[test]
fn memory_init_out_of_the_segment_traps() {
    let mut inst = data_instance(vec![Op::I32Const(0), Op::I32Const(3), Op::I32Const(3), Op::MemoryInit(0)]);
    assert_eq!(run_data(&mut inst), Status::Trapped(Trap::MemoryOutOfBounds));
    let mut inst = data_instance(vec![Op::I32Const(65535), Op::I32Const(0), Op::I32Const(2), Op::MemoryInit(0)]);
    assert_eq!(run_data(&mut inst), Status::Trapped(Trap::MemoryOutOfBounds));
}

#[test]
fn a_dropped_segment_is_empty() {
    let mut inst = data_instance(vec![Op::DataDrop(0), Op::I32Const(0), Op::I32Const(0), Op::I32Const(0), Op::MemoryInit(0)]);
    assert_eq!(run_data(&mut inst), Status::Finished);
    assert!(inst.datas[0].is_empty());
    let mut inst = data_instance(vec![Op::DataDrop(0), Op::I32Const(0), Op::I32Const(0), Op::I32Const(1), Op::MemoryInit(0)]);
    assert_eq!(run_data(&mut inst), Status::Trapped(Trap::MemoryOutOfBounds));
}

#[test]
fn float_arithmetic() {
    let add = run_wat("(module (func (result f64) f64.const 1.5 f64.const 2.25 f64.add))", &[], &[ValType::F64], vec![]).unwrap();
    assert_eq!(add[0].unwrap_f64_bits(), 3.75_f64.to_bits());
    let sqrt = run_wat("(module (func (result f32) f32.const 4 f32.sqrt))", &[], &[ValType::F32], vec![]).unwrap();
    assert_eq!(sqrt[0].unwrap_f32_bits(), 2.0_f32.to_bits());
    let copysign = run_wat("(module (func (result f32) f32.const 1 f32.const -2 f32.copysign))", &[], &[ValType::F32], vec![]).unwrap();
    assert_eq!(copysign[0].unwrap_f32_bits(), (-1.0_f32).to_bits());
}

#[test]
fn float_min_canonical_nan() {
    let res = run_wat("(module (func (result f32) f32.const nan f32.const 1 f32.min))", &[], &[ValType::F32], vec![]).unwrap();
    assert_eq!(res[0].unwrap_f32_bits(), 0x7fc0_0000);
}

#[test]
fn a_trapping_instruction_keeps_its_operands() {
    let mut exec = Execution::new();
    exec.push_scalar(Cell::from_u32(1)).unwrap();
    exec.push_scalar(Cell::from_u32(0)).unwrap();
    assert_eq!(exec.exec_numeric(&Op::I32DivS), Err(Fault::Trap(Trap::IntegerDivisionByZero)));
    assert_eq!(exec.values, vec![Cell::from_u32(1), Cell::from_u32(0)]);
    let mut mem = Memory::new(1, 1);
    mem.bytes[0] = 9;
    let mut exec = Execution::new();
    exec.push_scalar(Cell::from_u32(65_535)).unwrap();
    exec.push_scalar(Cell::from_u32(7)).unwrap();
    let r = exec.exec_memory(&Op::I32Store(MemArg { offset: 0 }), &mut mem);
    assert_eq!(r, Err(Fault::Trap(Trap::MemoryOutOfBounds)));
    assert_eq!(exec.values, vec![Cell::from_u32(65_535), Cell::from_u32(7)]);
    assert_eq!(mem.bytes[0], 9);
    assert_eq!(mem.bytes.len(), 65_536);
}

#[test]
fn signed_division_and_remainder_fit_together() {
    let pair = |op: Op| {
        let mut exec = Execution::new();
        exec.push_scalar(Cell::from_u32(-7i32 as u32)).unwrap();
        exec.push_scalar(Cell::from_u32(2)).unwrap();
        exec.exec_numeric(&op).unwrap();
        exec.values[0].low32() as i32
    };
    let q = pair(Op::I32DivS);
    let r = pair(Op::I32RemS);
    assert_eq!((q, r), (-3, -1));
    assert_eq!(2 * q + r, -7);
}

#[test]
fn branches_land_past_the_end_of_their_blocks() {
    let none = BlockArity { params: 0, results: 0 };
    let body = [
        Instr::Block(BlockArity { params: 0, results: 1 }),
        Instr::Plain(Op::I32Const(1)),
        Instr::If(none),
        Instr::Br(1),
        Instr::Else,
        Instr::End,
        Instr::Plain(Op::I32Const(7)),
        Instr::End,
        Instr::End,
    ];
    let f = compile_function(0, 1, vec![], &body, &[(0, 1)], &[], &[]).unwrap();
    assert_eq!(f.ops, vec![
        Op::I32Const(1),
        Op::BrIfNot(BranchTarget { ip: 4, keep: 0, pop: 0 }),
        Op::Br(BranchTarget { ip: 5, keep: 1, pop: 0 }),
        Op::Br(BranchTarget { ip: 4, keep: 0, pop: 0 }),
        Op::I32Const(7),
    ]);
    assert!(f.br_tables.is_empty());
}

#[test]
fn table_entries_reach_a_block_end_and_a_loop_start() {
    let none = BlockArity { params: 0, results: 0 };
    let body = [
        Instr::Block(none),
        Instr::Loop(none),
        Instr::Plain(Op::I32Const(5)),
        Instr::Plain(Op::I32Const(0)),
        Instr::BrTable(vec![1], 0),
        Instr::End,
        Instr::End,
        Instr::End,
    ];
    let f = compile_function(0, 0, vec![], &body, &[(0, 0)], &[], &[]).unwrap();
    assert_eq!(f.ops, vec![Op::I32Const(5), Op::I32Const(0), Op::BrTable(TableRange { base: 0, len: 1 })]);
    assert_eq!(f.br_tables, vec![BranchTarget { ip: 3, keep: 0, pop: 1 }, BranchTarget { ip: 0, keep: 0, pop: 1 }]);
}

#[test]
fn a_load_reads_back_what_a_store_of_its_width_wrote() {
    let mut mem = Memory::new(1, 1);
    let mut exec = Execution::new();
    exec.push_scalar(Cell::from_u32(10)).unwrap();
    exec.push_scalar(Cell::from_u32(0x1234_5678)).unwrap();
    exec.exec_memory(&Op::I32Store8(MemArg { offset: 0 }), &mut mem).unwrap();
    assert_eq!((mem.bytes[9], mem.bytes[10], mem.bytes[11]), (0, 0x78, 0));
    exec.push_scalar(Cell::from_u32(10)).unwrap();
    exec.exec_memory(&Op::I32Load8U(MemArg { offset: 0 }), &mut mem).unwrap();
    assert_eq!(exec.values, vec![Cell::from_u32(0x78)]);

    let mut exec = Execution::new();
    exec.push_scalar(Cell::from_u32(16)).unwrap();
    exec.push_scalar(Cell::from_u64(0x0102_0304_0506_0708)).unwrap();
    exec.exec_memory(&Op::I64Store(MemArg { offset: 4 }), &mut mem).unwrap();
    exec.push_scalar(Cell::from_u32(20)).unwrap();
    exec.exec_memory(&Op::I64Load(MemArg { offset: 0 }), &mut mem).unwrap();
    assert_eq!(exec.values, vec![Cell::from_u64(0x0102_0304_0506_0708)]);
    assert_eq!(mem.bytes[10], 0x78);
}

#[test]
fn recursion_stops_at_the_first_call_over_the_budget() {
    let engine = new_engine();
    let f = compile_function(0, 1, vec![], &[Instr::Plain(Op::Call(0)), Instr::End], &[(0, 1)], &[], &[]).unwrap();
    let mut inst = bare_instance(vec![f], vec![]);
    inst.max_wasm_stack = 4096;
    let mut exec = Execution::new();
    let mut status = exec.enter_call(&inst, 0, &[]);
    while status == Status::Running {
        status = exec.run(&mut inst, &engine, 1_000_000);
    }
    assert_eq!(status, Status::Trapped(Trap::StackOverflow));
    assert_eq!(exec.frames.len(), 342);
    assert_eq!(exec.stack_bytes(), 342 * 12);
}
