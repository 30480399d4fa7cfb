use submilli_wasm::config::Config;
use submilli_wasm::engine::Engine;
use submilli_wasm::exec::machine::{Instance, Status};
use submilli_wasm::exec::memory::Memory;
use submilli_wasm::exec::op::{CompiledFunc, MemArg, Op};
use submilli_wasm::exec::simd::lane_ops::{LaneBin, LaneUn, ShiftKind};
use submilli_wasm::exec::simd::lanes::{join, split, Shape};
use submilli_wasm::exec::simd::vector::{map2_exec, shuffle_exec, SimdOp};
use submilli_wasm::exec::stack::Execution;
use submilli_wasm::trap::Trap;
use submilli_wasm::value::{Val, ValType};

/// The `v128` whose lanes of `bits` bits are `lanes` (lane 0 lowest), each reduced to the width.
fn pack(lanes: &[i128], bits: u32) -> u128 {
    let mask: u128 = if bits == 128 { u128::MAX } else { (1u128 << bits) - 1 };
    let mut v: u128 = 0;
    for (i, x) in lanes.iter().enumerate() {
        v |= ((*x as u128) & mask) << (bits as usize * i);
    }
    v
}

fn c(v: u128) -> Op {
    Op::Simd(SimdOp::Const(v))
}

fn simd(op: SimdOp) -> Op {
    Op::Simd(op)
}

fn instance(ops: Vec<Op>, n_results: u32, memory: Memory) -> Instance {
    let func = CompiledFunc { n_params: 0, n_results, local_types: vec![], ops, br_tables: vec![], handlers: vec![] };
    Instance {
        funcs: vec![func],
        host_funcs: vec![],
        func_type_ids: vec![],
        host_type_ids: vec![],
        type_ids: vec![],
        tags: vec![],
        globals: vec![],
        memory,
        tables: vec![],
        elems: vec![],
        datas: vec![],
        exns: vec![],
        max_wasm_stack: 524288,
        fuel: None,
        epoch_deadline: None,
    }
}

fn run_in(inst: &mut Instance, results: &[ValType]) -> Result<Vec<Val>, Trap> {
    let engine = Engine::new(&Config::new(), false, None).unwrap();
    let mut exec = Execution::new();
    let mut status = exec.enter_call(inst, 0, &[]);
    loop {
        match status {
            Status::Running => status = exec.run(inst, &engine, 1_000_000),
            Status::Finished => return Ok(exec.take_results(results).unwrap()),
            Status::Trapped(t) => return Err(t),
            other => panic!("unexpected status {other:?}"),
        }
    }
}

fn run_v128(ops: Vec<Op>) -> u128 {
    let mut inst = instance(ops, 1, Memory::new(0, 0));
    match run_in(&mut inst, &[ValType::V128]).unwrap()[0] {
        Val::V128(v) => v,
        ref other => panic!("not a v128: {other:?}"),
    }
}

fn run_i32(ops: Vec<Op>) -> i32 {
    let mut inst = instance(ops, 1, Memory::new(0, 0));
    run_in(&mut inst, &[ValType::I32]).unwrap()[0].unwrap_i32()
}

fn bin(shape: Shape, k: LaneBin, a: u128, b: u128) -> u128 {
    run_v128(vec![c(a), c(b), simd(SimdOp::Bin(shape, k))])
}

#[test]
fn lanes_split_and_join_round_trip() {
    let v: u128 = 0x0f0e_0d0c_0b0a_0908_0706_0504_0302_0100;
    let bytes = split(v, Shape::I8x16);
    assert_eq!(bytes, (0u64..16).collect::<Vec<u64>>());
    assert_eq!(join(&bytes, Shape::I8x16), v);
    let words = split(v, Shape::I32x4);
    assert_eq!(words, vec![0x0302_0100, 0x0706_0504, 0x0b0a_0908, 0x0f0e_0d0c]);
    assert_eq!(join(&words, Shape::I32x4), v);
    let halves = split(v, Shape::I64x2);
    assert_eq!(join(&halves, Shape::I64x2), v);
}

#[test]
fn lanewise_add_sub_mul_wrap() {
    let r = bin(Shape::I8x16, LaneBin::Add, pack(&[127; 16], 8), pack(&[1; 16], 8));
    assert_eq!(r, pack(&[0x80; 16], 8));
    let r = bin(Shape::I16x8, LaneBin::Sub, pack(&[0, 1, 2, 3, 4, 5, 6, 7], 16), pack(&[1; 8], 16));
    assert_eq!(r, pack(&[-1, 0, 1, 2, 3, 4, 5, 6], 16));
    let r = bin(Shape::I32x4, LaneBin::Mul, pack(&[0x10000, 2, 3, -1], 32), pack(&[0x10000, 3, 4, -1], 32));
    assert_eq!(r, pack(&[0, 6, 12, 1], 32));
    let r = bin(Shape::I64x2, LaneBin::Add, pack(&[-1, 5], 64), pack(&[1, 6], 64));
    assert_eq!(r, pack(&[0, 11], 64));
}

#[test]
fn signed_and_unsigned_min_max_differ() {
    let a = pack(&[-1; 16], 8);
    let b = pack(&[1; 16], 8);
    assert_eq!(bin(Shape::I8x16, LaneBin::MinS, a, b), a);
    assert_eq!(bin(Shape::I8x16, LaneBin::MinU, a, b), b);
    assert_eq!(bin(Shape::I8x16, LaneBin::MaxS, a, b), b);
    assert_eq!(bin(Shape::I8x16, LaneBin::MaxU, a, b), a);
    assert_eq!(bin(Shape::I8x16, LaneBin::AvgrU, pack(&[255, 3], 8), pack(&[0, 4], 8)), pack(&[128, 4], 8));
}

#[test]
fn saturating_arithmetic_clamps() {
    assert_eq!(bin(Shape::I8x16, LaneBin::AddSatS, pack(&[127, -128], 8), pack(&[1, -1], 8)), pack(&[127, -128], 8));
    assert_eq!(bin(Shape::I8x16, LaneBin::SubSatU, pack(&[0, 9], 8), pack(&[1, 4], 8)), pack(&[0, 5], 8));
    assert_eq!(bin(Shape::I16x8, LaneBin::AddSatU, pack(&[65535, 7], 16), pack(&[1, 1], 16)), pack(&[65535, 8], 16));
    assert_eq!(bin(Shape::I16x8, LaneBin::SubSatS, pack(&[-32768, 7], 16), pack(&[1, 1], 16)), pack(&[-32768, 6], 16));
}

#[test]
fn comparisons_give_lane_masks() {
    let a = pack(&[-1, 0, 1, 2], 32);
    let z = pack(&[0, 0, 0, 0], 32);
    assert_eq!(bin(Shape::I32x4, LaneBin::LtS, a, z), pack(&[-1, 0, 0, 0], 32));
    assert_eq!(bin(Shape::I32x4, LaneBin::LtU, a, z), 0);
    assert_eq!(bin(Shape::I32x4, LaneBin::Eq, a, z), pack(&[0, -1, 0, 0], 32));
    assert_eq!(bin(Shape::I32x4, LaneBin::GeU, a, z), u128::MAX);
    assert_eq!(bin(Shape::I64x2, LaneBin::GtS, pack(&[1, -1], 64), 0), pack(&[-1, 0], 64));
}

#[test]
fn unary_lane_operations() {
    let r = run_v128(vec![c(pack(&[-128, -5, 5, 0], 8)), simd(SimdOp::Un(Shape::I8x16, LaneUn::Abs))]);
    assert_eq!(r, pack(&[-128, 5, 5, 0], 8));
    let r = run_v128(vec![c(pack(&[1, -32768], 16)), simd(SimdOp::Un(Shape::I16x8, LaneUn::Neg))]);
    assert_eq!(r, pack(&[-1, -32768], 16));
    let r = run_v128(vec![c(pack(&[0xff, 0x0f, 0x80], 8)), simd(SimdOp::Un(Shape::I8x16, LaneUn::Popcnt))]);
    assert_eq!(r, pack(&[8, 4, 1], 8));
}

#[test]
fn shifts_take_the_count_modulo_the_lane_width() {
    let shift = |shape, k, v, n: i32| run_v128(vec![c(v), Op::I32Const(n), simd(SimdOp::Shift(shape, k))]);
    assert_eq!(shift(Shape::I8x16, ShiftKind::Shl, pack(&[0x81], 8), 9), pack(&[0x02], 8));
    assert_eq!(shift(Shape::I8x16, ShiftKind::ShrS, pack(&[0x80, 0x40], 8), 1), pack(&[0xc0, 0x20], 8));
    assert_eq!(shift(Shape::I8x16, ShiftKind::ShrU, pack(&[0x80], 8), 1), pack(&[0x40], 8));
    assert_eq!(shift(Shape::I32x4, ShiftKind::ShrS, pack(&[-8, 8], 32), 33), pack(&[-4, 4], 32));
    assert_eq!(shift(Shape::I64x2, ShiftKind::Shl, pack(&[1, 3], 64), 63), pack(&[i64::MIN as i128, i64::MIN as i128], 64));
}

#[test]
fn reductions_to_a_scalar() {
    assert_eq!(run_i32(vec![c(pack(&[1; 15], 8)), simd(SimdOp::AllTrue(Shape::I8x16))]), 0);
    assert_eq!(run_i32(vec![c(pack(&[1; 16], 8)), simd(SimdOp::AllTrue(Shape::I8x16))]), 1);
    assert_eq!(run_i32(vec![c(pack(&[-1, 0, -1, 0, 0, 0, 0, -1], 16)), simd(SimdOp::Bitmask(Shape::I16x8))]), 0b1000_0101);
    assert_eq!(run_i32(vec![c(0), simd(SimdOp::AnyTrue)]), 0);
    assert_eq!(run_i32(vec![c(1 << 100), simd(SimdOp::AnyTrue)]), 1);
}

#[test]
fn splat_extract_and_replace_lanes() {
    let splat = vec![Op::I32Const(0x1ff), simd(SimdOp::Splat(Shape::I8x16))];
    assert_eq!(run_v128(splat.clone()), pack(&[0xff; 16], 8));
    let mut signed = splat.clone();
    signed.push(simd(SimdOp::ExtractLane(Shape::I8x16, true, 3)));
    assert_eq!(run_i32(signed), -1);
    let mut unsigned = splat;
    unsigned.push(simd(SimdOp::ExtractLane(Shape::I8x16, false, 3)));
    assert_eq!(run_i32(unsigned), 255);
    let r = run_v128(vec![c(pack(&[1, 2, 3, 4], 32)), Op::I32Const(-7), simd(SimdOp::ReplaceLane(Shape::I32x4, 2))]);
    assert_eq!(r, pack(&[1, 2, -7, 4], 32));
    let mut inst = instance(vec![c(pack(&[5, -6], 64)), simd(SimdOp::ExtractLane(Shape::I64x2, false, 1))], 1, Memory::new(0, 0));
    assert_eq!(run_in(&mut inst, &[ValType::I64]).unwrap(), vec![Val::I64(-6)]);
}

#[test]
fn a_lane_index_out_of_range_is_invalid_code() {
    let mut inst = instance(vec![c(0), simd(SimdOp::ExtractLane(Shape::I32x4, false, 4))], 1, Memory::new(0, 0));
    let engine = Engine::new(&Config::new(), false, None).unwrap();
    let mut exec = Execution::new();
    assert_eq!(exec.enter_call(&inst, 0, &[]), Status::Running);
    assert_eq!(exec.run(&mut inst, &engine, 10), Status::Invalid);
}

#[test]
fn shuffle_and_swizzle_pick_bytes() {
    let a = pack(&(0..16).collect::<Vec<i128>>(), 8);
    let b = pack(&(16..32).collect::<Vec<i128>>(), 8);
    let idx = pack(&[16, 0, 17, 1, 31, 15, 2, 2, 3, 3, 4, 4, 5, 5, 6, 6], 8);
    let want = pack(&[16, 0, 17, 1, 31, 15, 2, 2, 3, 3, 4, 4, 5, 5, 6, 6], 8);
    assert_eq!(run_v128(vec![c(a), c(b), simd(SimdOp::Shuffle(idx))]), want);
    assert_eq!(shuffle_exec(a, b, pack(&[32], 8)), None);
    let sel = pack(&[0, 15, 16, 255, 1], 8);
    assert_eq!(run_v128(vec![c(a), c(sel), simd(SimdOp::Swizzle)]), pack(&[0, 15, 0, 0, 1], 8));
}

#[test]
fn narrowing_saturates() {
    let a = pack(&[300, -300, 5, -5, 127, 128, -128, -129], 16);
    let r = run_v128(vec![c(a), c(pack(&[1, 2], 16)), simd(SimdOp::Narrow(Shape::I8x16, true))]);
    assert_eq!(r, pack(&[127, -128, 5, -5, 127, 127, -128, -128, 1, 2], 8));
    let r = run_v128(vec![c(pack(&[300, -1, 200], 16)), c(0), simd(SimdOp::Narrow(Shape::I8x16, false))]);
    assert_eq!(r, pack(&[255, 0, 200], 8));
    let r = run_v128(vec![c(pack(&[70000, -70000], 32)), c(pack(&[65535], 32)), simd(SimdOp::Narrow(Shape::I16x8, false))]);
    assert_eq!(r, pack(&[65535, 0, 0, 0, 65535], 16));
}

#[test]
fn widening_extends_adds_and_multiplies() {
    let bytes = pack(&[0, 1, 2, 3, 4, 5, 6, 7, -1, -2, -3, -4, -5, -6, -7, -8], 8);
    let r = run_v128(vec![c(bytes), simd(SimdOp::Extend(Shape::I16x8, true, true))]);
    assert_eq!(r, pack(&[-1, -2, -3, -4, -5, -6, -7, -8], 16));
    let r = run_v128(vec![c(bytes), simd(SimdOp::Extend(Shape::I16x8, true, false))]);
    assert_eq!(r, pack(&[255, 254, 253, 252, 251, 250, 249, 248], 16));
    let r = run_v128(vec![c(pack(&[-1, -1, 127, 127], 8)), simd(SimdOp::ExtAddPairwise(Shape::I16x8, true))]);
    assert_eq!(r, pack(&[-2, 254], 16));
    let r = run_v128(vec![c(pack(&[-1, -1, 127, 127], 8)), simd(SimdOp::ExtAddPairwise(Shape::I16x8, false))]);
    assert_eq!(r, pack(&[510, 254], 16));
    let m = pack(&[-128, -1], 8);
    assert_eq!(run_v128(vec![c(m), c(m), simd(SimdOp::ExtMul(Shape::I16x8, false, true))]), pack(&[16384, 1], 16));
    assert_eq!(run_v128(vec![c(m), c(m), simd(SimdOp::ExtMul(Shape::I16x8, false, false))]), pack(&[16384, 65025], 16));
    let w = pack(&[0, 0, -3], 32);
    assert_eq!(run_v128(vec![c(w), c(w), simd(SimdOp::ExtMul(Shape::I64x2, true, true))]), pack(&[9, 0], 64));
}

#[test]
fn dot_products_and_q15_multiplication() {
    let a = pack(&[-32768, -32768, 1, 2], 16);
    assert_eq!(run_v128(vec![c(a), c(a), simd(SimdOp::Dot(Shape::I32x4))]), pack(&[i32::MIN as i128, 5, 0, 0], 32));
    let q = pack(&[-32768, 16384, -16384], 16);
    assert_eq!(run_v128(vec![c(q), c(q), simd(SimdOp::Q15MulrSat)]), pack(&[32767, 8192, 8192], 16));
    let b = pack(&[-128, 2, 3, 4], 8);
    let d = pack(&[127, 5, 6, 7], 8);
    assert_eq!(run_v128(vec![c(b), c(d), simd(SimdOp::Dot(Shape::I16x8))]), pack(&[-16256 + 10, 18 + 28], 16));
    let acc = pack(&[100, -100], 32);
    assert_eq!(run_v128(vec![c(b), c(d), c(acc), simd(SimdOp::DotAdd)]), pack(&[-16256 + 10 + 18 + 28 + 100, -100], 32));
}

#[test]
fn bitwise_operations_on_the_whole_vector() {
    let a: u128 = 0xff00_ff00_0000_0000_0000_0000_f0f0_f0f0;
    let b: u128 = 0x0ff0_0ff0_0000_0000_0000_0000_ffff_0000;
    assert_eq!(run_v128(vec![c(a), c(b), simd(SimdOp::And)]), a & b);
    assert_eq!(run_v128(vec![c(a), c(b), simd(SimdOp::Or)]), a | b);
    assert_eq!(run_v128(vec![c(a), c(b), simd(SimdOp::Xor)]), a ^ b);
    assert_eq!(run_v128(vec![c(a), c(b), simd(SimdOp::AndNot)]), a & !b);
    assert_eq!(run_v128(vec![c(a), simd(SimdOp::Not)]), !a);
    assert_eq!(run_v128(vec![c(a), c(b), c(u128::MAX >> 64), simd(SimdOp::Bitselect)]), (b & !(u128::MAX >> 64)) | (a & (u128::MAX >> 64)));
}

#[test]
fn lanewise_results_match_the_library_function() {
    let a = pack(&[1, -2, 3, -4], 32);
    let b = pack(&[5, 6, -7, 8], 32);
    assert_eq!(bin(Shape::I32x4, LaneBin::Mul, a, b), map2_exec(a, b, Shape::I32x4, LaneBin::Mul));
    assert_eq!(map2_exec(a, b, Shape::I32x4, LaneBin::Mul), pack(&[5, -12, -21, -32], 32));
}

fn mem_arg() -> MemArg {
    MemArg { offset: 0 }
}

#[test]
fn v128_store_then_load_gives_back_the_value() {
    let v: u128 = 0x0123_4567_89ab_cdef_fedc_ba98_7654_3210;
    let ops = vec![Op::I32Const(8), c(v), simd(SimdOp::Store(mem_arg())), Op::I32Const(8), simd(SimdOp::Load(mem_arg()))];
    let mut inst = instance(ops, 1, Memory::new(1, 1));
    assert_eq!(run_in(&mut inst, &[ValType::V128]).unwrap(), vec![Val::V128(v)]);
    assert_eq!(inst.memory.bytes[8], 0x10);
    assert_eq!(inst.memory.bytes[23], 0x01);
}

#[test]
fn widening_splatting_and_zeroing_loads() {
    let mut memory = Memory::new(1, 1);
    for (i, b) in [0x80u8, 0x01, 0xff, 0x7f, 0x10, 0x20, 0x30, 0x40].iter().enumerate() {
        memory.bytes[i] = *b;
    }
    let mut inst = instance(vec![Op::I32Const(0), simd(SimdOp::LoadExtend(Shape::I16x8, true, mem_arg()))], 1, memory.clone());
    assert_eq!(run_in(&mut inst, &[ValType::V128]).unwrap(), vec![Val::V128(pack(&[-128, 1, -1, 127, 16, 32, 48, 64], 16))]);
    let mut inst = instance(vec![Op::I32Const(0), simd(SimdOp::LoadSplat(Shape::I16x8, mem_arg()))], 1, memory.clone());
    assert_eq!(run_in(&mut inst, &[ValType::V128]).unwrap(), vec![Val::V128(pack(&[0x0180; 8], 16))]);
    let mut inst = instance(vec![Op::I32Const(0), simd(SimdOp::LoadZero(Shape::I32x4, mem_arg()))], 1, memory.clone());
    assert_eq!(run_in(&mut inst, &[ValType::V128]).unwrap(), vec![Val::V128(0x7fff_0180)]);
    let ops = vec![Op::I32Const(4), c(pack(&[9, 9, 9, 9], 32)), simd(SimdOp::LoadLane(Shape::I32x4, 1, mem_arg()))];
    let mut inst = instance(ops, 1, memory);
    assert_eq!(run_in(&mut inst, &[ValType::V128]).unwrap(), vec![Val::V128(pack(&[9, 0x4030_2010, 9, 9], 32))]);
}

#[test]
fn store_lane_writes_only_that_lane() {
    let ops = vec![Op::I32Const(2), c(pack(&[0x1111, 0x2222, 0x3333], 16)), simd(SimdOp::StoreLane(Shape::I16x8, 2, mem_arg()))];
    let mut inst = instance(ops, 0, Memory::new(1, 1));
    assert_eq!(run_in(&mut inst, &[]).unwrap(), vec![]);
    assert_eq!(&inst.memory.bytes[0..6], &[0, 0, 0x33, 0x33, 0, 0]);
}

#[test]
fn v128_access_out_of_bounds_traps() {
    let ops = vec![Op::I32Const(65530), simd(SimdOp::Load(mem_arg()))];
    let mut inst = instance(ops, 1, Memory::new(1, 1));
    assert_eq!(run_in(&mut inst, &[ValType::V128]), Err(Trap::MemoryOutOfBounds));
    let ops = vec![Op::I32Const(65535), c(0), simd(SimdOp::StoreLane(Shape::I16x8, 0, mem_arg()))];
    let mut inst = instance(ops, 0, Memory::new(1, 1));
    assert_eq!(run_in(&mut inst, &[]), Err(Trap::MemoryOutOfBounds));
}
