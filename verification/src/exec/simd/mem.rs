//! The `v128` memory instructions: whole-vector loads and stores, widening, splatting and
//! zero-extending loads, and single-lane loads and stores. Bounds are checked as for the scalar
//! accesses; an access out of bounds traps.
use vstd::prelude::*;
use crate::trap::Trap;
use crate::exec::cell::{Cell, RefTag, low32};
use crate::exec::stack::{Execution, Fault, popped_at_most_three};
use crate::exec::numeric::{NumEffect, pop_k};
use crate::exec::simd::compute::simd_effect;
use crate::exec::memory::{Memory, MemEffect, access, le_read, le_write, pow256, mem_ea, load_n, store_n, lemma_le_read_bound,
    lemma_le_read_split, lemma_le_write_split, lemma_le_write_mod};
use crate::exec::simd::lanes::{Shape, lane_count, lane, count};
use crate::exec::simd::vector::{SimdOp, narrower, extend, splat, replace_lane, lanes_of, extend_exec, splat_exec,
    replace_lane_exec};

verus! {

/// The bytes of one lane.
pub open spec fn lane_bytes(s: Shape) -> nat {
    match s {
        Shape::I8x16 => 1,
        Shape::I16x8 => 2,
        Shape::I32x4 => 4,
        Shape::I64x2 => 8,
    }
}

/// The effect of a SIMD memory instruction on operand stack `st` and memory `m`.
pub open spec fn simd_memory_effect(op: SimdOp, st: Seq<Cell>, m: Seq<u8>) -> MemEffect {
    let n = st.len();
    match op {
        SimdOp::Load(a) => if n < 1 {
            MemEffect::Fail(Fault::Invalid)
        } else {
            match access(m, low32(st[n - 1]), a, 16) {
                Some(ea) => MemEffect::Done(1, Some(Cell(le_read(m, ea as int, 16) as u128)), m),
                None => MemEffect::Fail(Fault::Trap(Trap::MemoryOutOfBounds)),
            }
        },
        SimdOp::Store(a) => if n < 2 {
            MemEffect::Fail(Fault::Invalid)
        } else {
            match access(m, low32(st[n - 2]), a, 16) {
                Some(ea) => MemEffect::Done(2, None, le_write(m, ea as int, 16, st[n - 1].0 as nat)),
                None => MemEffect::Fail(Fault::Trap(Trap::MemoryOutOfBounds)),
            }
        },
        SimdOp::LoadExtend(s, signed, a) => match narrower(s) {
            None => MemEffect::Fail(Fault::Invalid),
            Some(na) => if n < 1 {
                MemEffect::Fail(Fault::Invalid)
            } else {
                match access(m, low32(st[n - 1]), a, 8) {
                    Some(ea) => MemEffect::Done(1, Some(Cell(extend(le_read(m, ea as int, 8) as u128, s, na, false, signed))), m),
                    None => MemEffect::Fail(Fault::Trap(Trap::MemoryOutOfBounds)),
                }
            },
        },
        SimdOp::LoadSplat(s, a) => if n < 1 {
            MemEffect::Fail(Fault::Invalid)
        } else {
            match access(m, low32(st[n - 1]), a, lane_bytes(s)) {
                Some(ea) => MemEffect::Done(1, Some(Cell(splat(le_read(m, ea as int, lane_bytes(s)), s))), m),
                None => MemEffect::Fail(Fault::Trap(Trap::MemoryOutOfBounds)),
            }
        },
        SimdOp::LoadZero(s, a) => if n < 1 {
            MemEffect::Fail(Fault::Invalid)
        } else {
            match access(m, low32(st[n - 1]), a, lane_bytes(s)) {
                Some(ea) => MemEffect::Done(1, Some(Cell(le_read(m, ea as int, lane_bytes(s)) as u128)), m),
                None => MemEffect::Fail(Fault::Trap(Trap::MemoryOutOfBounds)),
            }
        },
        SimdOp::LoadLane(s, l, a) => if l >= lane_count(s) || n < 2 {
            MemEffect::Fail(Fault::Invalid)
        } else {
            match access(m, low32(st[n - 2]), a, lane_bytes(s)) {
                Some(ea) => MemEffect::Done(2, Some(Cell(replace_lane(st[n - 1].0, s, l as int, le_read(m, ea as int, lane_bytes(s))))), m),
                None => MemEffect::Fail(Fault::Trap(Trap::MemoryOutOfBounds)),
            }
        },
        SimdOp::StoreLane(s, l, a) => if l >= lane_count(s) || n < 2 {
            MemEffect::Fail(Fault::Invalid)
        } else {
            match access(m, low32(st[n - 2]), a, lane_bytes(s)) {
                Some(ea) => MemEffect::Done(2, None, le_write(m, ea as int, lane_bytes(s), lane(st[n - 1].0, s, l as int))),
                None => MemEffect::Fail(Fault::Trap(Trap::MemoryOutOfBounds)),
            }
        },
        _ => MemEffect::Fail(Fault::Invalid),
    }
}

/// A SIMD instruction never traps, except when its memory access is out of bounds.
pub proof fn lemma_simd_traps_only_out_of_bounds(op: SimdOp, st: Seq<Cell>, m: Seq<u8>)
    ensures
        !(simd_effect(op, st) matches NumEffect::Fail(Fault::Trap(_))),
        simd_memory_effect(op, st, m) matches MemEffect::Fail(Fault::Trap(t)) ==> t == Trap::MemoryOutOfBounds,
{
}

/// A `v128` stored and loaded again at the same place is the same value.
pub proof fn lemma_v128_store_then_load(m: Seq<u8>, ea: int, v: u128)
    requires
        0 <= ea,
        ea + 16 <= m.len(),
    ensures
        le_read(le_write(m, ea, 16, v as nat), ea, 16) == v,
{
    crate::exec::memory::lemma_read_after_write(m, ea, 16, v as nat);
    reveal_with_fuel(pow256, 17);
    assert(pow256(16) == 0x1_0000_0000_0000_0000_0000_0000_0000_0000);
    vstd::arithmetic::div_mod::lemma_small_mod(v as nat, pow256(16));
}

fn lane_width(s: Shape) -> (w: usize)
    ensures
        w == lane_bytes(s),
{
    match s {
        Shape::I8x16 => 1,
        Shape::I16x8 => 2,
        Shape::I32x4 => 4,
        Shape::I64x2 => 8,
    }
}

/// Reads 16 bytes little-endian at `ea`.
fn load16(mem: &Memory, ea: usize) -> (v: u128)
    requires
        ea + 16 <= mem.bytes@.len(),
    ensures
        v == le_read(mem.bytes@, ea as int, 16),
{
    let _len = mem.bytes.len();
    let lo = load_n(mem, ea, 8);
    let hi = load_n(mem, ea + 8, 8);
    proof {
        lemma_le_read_split(mem.bytes@, ea as int, 8, 8);
        reveal_with_fuel(pow256, 9);
        assert(pow256(8) == 0x1_0000_0000_0000_0000);
    }
    assert(hi as u128 * 0x1_0000_0000_0000_0000 <= 0xffff_ffff_ffff_ffff * 0x1_0000_0000_0000_0000) by (nonlinear_arith)
        requires hi <= 0xffff_ffff_ffff_ffff;
    lo as u128 + hi as u128 * 0x1_0000_0000_0000_0000
}

/// Writes `v` as 16 bytes little-endian at `ea`.
fn store16(mem: &mut Memory, ea: usize, v: u128)
    requires
        old(mem).wf(),
        ea + 16 <= old(mem).bytes@.len(),
    ensures
        final(mem).wf(),
        final(mem).max_pages == old(mem).max_pages,
        final(mem).bytes@ == le_write(old(mem).bytes@, ea as int, 16, v as nat),
{
    let lo = (v % 0x1_0000_0000_0000_0000) as u64;
    let hi = (v / 0x1_0000_0000_0000_0000) as u64;
    let ghost m0 = mem.bytes@;
    let _len = mem.bytes.len();
    store_n(mem, ea, 8, lo);
    proof { crate::exec::memory::lemma_le_write_len(m0, ea as int, 8, lo as nat); }
    store_n(mem, ea + 8, 8, hi);
    proof {
        reveal_with_fuel(pow256, 9);
        assert(pow256(8) == 0x1_0000_0000_0000_0000);
        lemma_le_write_split(m0, ea as int, 8, 8, v as nat);
        lemma_le_write_mod(m0, ea as int, 8, v as nat);
    }
}

impl Execution {
    /// Executes a SIMD memory instruction against `mem`.
    #[verifier::rlimit(80)]
    pub fn exec_simd_memory(&mut self, op: &SimdOp, mem: &mut Memory) -> (r: Result<(), Fault>)
        requires
            old(self).wf(),
            old(mem).wf(),
        ensures
            final(self).wf(),
            final(mem).wf(),
            final(mem).max_pages == old(mem).max_pages,
            final(self).frames@ == old(self).frames@,
            match simd_memory_effect(*op, old(self).values@, old(mem).bytes@) {
                MemEffect::Done(k, push, m) => r is Ok && final(mem).bytes@ == m && match push {
                    Some(c) => final(self).values@ == pop_k(old(self).values@, k).push(c)
                        && final(self).shadow@ == pop_k(old(self).shadow@, k).push(RefTag::NoRef),
                    None => final(self).values@ == pop_k(old(self).values@, k)
                        && final(self).shadow@ == pop_k(old(self).shadow@, k),
                },
                MemEffect::Fail(f) => r == Err::<(), Fault>(f) && (f is Trap ==> final(mem).bytes@ == old(mem).bytes@
                    && popped_at_most_three(final(self).values@, final(self).shadow@, old(self).values@, old(self).shadow@)),
            },
    {
        let ghost s0 = self.values@;
        let ghost t0 = self.shadow@;
        let ghost m0 = mem.bytes@;
        match op {
            SimdOp::Load(a) => {
                let base = self.pop_cell()?.low32();
                let ea = mem_ea(mem, base, a, 16)?;
                let v = load16(mem, ea);
                proof { lemma_le_read_bound(m0, ea as int, 16); reveal_with_fuel(pow256, 17); }
                self.push_scalar(Cell(v))
            },
            SimdOp::Store(a) => {
                let (addr, val) = self.pop2_cells()?;
                let ea = mem_ea(mem, addr.low32(), a, 16)?;
                store16(mem, ea, val.0);
                proof {
                    assert(self.values@ =~= pop_k(s0, 2));
                    assert(self.shadow@ =~= pop_k(t0, 2));
                }
                Ok(())
            },
            SimdOp::LoadExtend(s, signed, a) => {
                let na = match s {
                    Shape::I8x16 => { return Err(Fault::Invalid); },
                    Shape::I16x8 => Shape::I8x16,
                    Shape::I32x4 => Shape::I16x8,
                    Shape::I64x2 => Shape::I32x4,
                };
                let base = self.pop_cell()?.low32();
                let ea = mem_ea(mem, base, a, 8)?;
                let raw = load_n(mem, ea, 8);
                let v = extend_exec(raw as u128, *s, na, false, *signed);
                self.push_scalar(Cell(v))
            },
            SimdOp::LoadSplat(s, a) => {
                let w = lane_width(*s);
                let base = self.pop_cell()?.low32();
                let ea = mem_ea(mem, base, a, w as u64)?;
                let raw = load_n(mem, ea, w);
                let v = splat_exec(raw, *s);
                self.push_scalar(Cell(v))
            },
            SimdOp::LoadZero(s, a) => {
                let w = lane_width(*s);
                let base = self.pop_cell()?.low32();
                let ea = mem_ea(mem, base, a, w as u64)?;
                let raw = load_n(mem, ea, w);
                self.push_scalar(Cell(raw as u128))
            },
            SimdOp::LoadLane(s, l, a) => {
                if *l as usize >= count(*s) {
                    return Err(Fault::Invalid);
                }
                let w = lane_width(*s);
                let (addr, vec) = self.pop2_cells()?;
                proof {
                    assert(self.values@ =~= pop_k(s0, 2));
                    assert(self.shadow@ =~= pop_k(t0, 2));
                }
                let ea = mem_ea(mem, addr.low32(), a, w as u64)?;
                let raw = load_n(mem, ea, w);
                let v = replace_lane_exec(vec.0, *s, *l as usize, raw);
                self.push_scalar(Cell(v))
            },
            SimdOp::StoreLane(s, l, a) => {
                if *l as usize >= count(*s) {
                    return Err(Fault::Invalid);
                }
                let w = lane_width(*s);
                let (addr, vec) = self.pop2_cells()?;
                let ea = mem_ea(mem, addr.low32(), a, w as u64)?;
                let ls = lanes_of(vec.0, *s);
                store_n(mem, ea, w, ls[*l as usize]);
                proof {
                    assert(self.values@ =~= pop_k(s0, 2));
                    assert(self.shadow@ =~= pop_k(t0, 2));
                }
                Ok(())
            },
            _ => Err(Fault::Invalid),
        }
    }
}

} // verus!
