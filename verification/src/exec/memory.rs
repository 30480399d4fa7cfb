//! Linear memory and the memory instructions: bounds-checked little-endian loads and stores,
//! and `memory.size` / `memory.grow` / `memory.fill` / `memory.copy`.
use vstd::prelude::*;
use crate::trap::Trap;
use crate::exec::cell::{Cell, RefTag, low32, low64, cell32, cell64};
use crate::exec::op::{MemArg, Op};
use crate::exec::stack::{Execution, Fault, popped_at_most_three};
use crate::exec::numeric::pop_k;
use crate::exec::int32::{bits32, sext, i32_extend8_s, i32_extend16_s};
use crate::exec::int64::{bits64, i64_extend8_s, i64_extend16_s, i64_extend32_s};
use crate::exec::numeric::{lemma_bits32_signed32, lemma_bits64_signed64};
use crate::exec::simd::mem::simd_memory_effect;

verus! {

/// The size of a wasm page in bytes.
pub const PAGE_SIZE: usize = 65536;

/// A linear memory: its bytes (a whole number of pages) and its maximum size in pages.
#[derive(Clone, Debug)]
pub struct Memory {
    pub bytes: Vec<u8>,
    pub max_pages: u32,
}

impl Memory {
    pub open spec fn wf(&self) -> bool {
        &&& self.bytes@.len() % 65536 == 0
        &&& self.bytes@.len() <= self.max_pages as nat * 65536
        &&& self.max_pages <= 65536
        &&& self.max_pages as nat * 65536 <= usize::MAX
    }

    /// A zero-filled memory of `initial` pages that may grow to `max_pages`.
    pub fn new(initial: u32, max_pages: u32) -> (m: Memory)
        requires
            initial <= max_pages <= 65536,
            max_pages as nat * 65536 <= usize::MAX,
        ensures
            m.wf(),
            m.max_pages == max_pages,
            m.bytes@ == Seq::new(initial as nat * 65536, |i: int| 0u8),
    {
        let mut bytes: Vec<u8> = Vec::new();
        let total = initial as usize * PAGE_SIZE;
        for i in 0..total
            invariant
                bytes@ == Seq::new(i as nat, |k: int| 0u8),
        {
            bytes.push(0);
            proof { assert(bytes@ =~= Seq::new(i as nat + 1, |k: int| 0u8)); }
        }
        Memory { bytes, max_pages }
    }
}

impl Memory {
    /// Writes an active data segment `bytes` at byte offset `at`, as instantiation does; a
    /// segment that does not fit traps with `MemoryOutOfBounds` and writes nothing.
    pub fn init_active(&mut self, at: usize, bytes: &[u8]) -> (r: Result<(), Trap>)
        requires
            old(self).wf(),
        ensures
            final(self).wf(),
            final(self).max_pages == old(self).max_pages,
            r is Ok <==> at + bytes@.len() <= old(self).bytes@.len(),
            r is Ok ==> final(self).bytes@ == old(self).bytes@.subrange(0, at as int) + bytes@
                + old(self).bytes@.subrange(at + bytes@.len(), old(self).bytes@.len() as int),
            r is Err ==> r == Err::<(), Trap>(Trap::MemoryOutOfBounds) && final(self).bytes@ == old(self).bytes@,
    {
        if bytes.len() > self.bytes.len() || at > self.bytes.len() - bytes.len() {
            return Err(Trap::MemoryOutOfBounds);
        }
        let ghost m0 = self.bytes@;
        for i in 0..bytes.len()
            invariant
                self.bytes@.len() == m0.len(),
                m0 == old(self).bytes@,
                self.max_pages == old(self).max_pages,
                at + bytes@.len() <= m0.len(),
                old(self).wf(),
                forall|j: int| 0 <= j < m0.len() ==> #[trigger] self.bytes@[j] == if at <= j < at + i { bytes@[j - at] } else { m0[j] },
        {
            self.bytes.set(at + i, bytes[i]);
        }
        proof {
            assert(self.bytes@ =~= m0.subrange(0, at as int) + bytes@ + m0.subrange(at + bytes@.len(), m0.len() as int));
        }
        Ok(())
    }
}

/// The little-endian value of `n` bytes of `m` starting at `a`.
pub open spec fn le_read(m: Seq<u8>, a: int, n: nat) -> nat
    decreases n,
{
    if n == 0 { 0 } else { m[a] as nat + 256 * le_read(m, a + 1, (n - 1) as nat) }
}

/// `m` with the low `n` bytes of `v` written little-endian at `a`.
pub open spec fn le_write(m: Seq<u8>, a: int, n: nat, v: nat) -> Seq<u8>
    decreases n,
{
    if n == 0 { m } else { le_write(m.update(a, (v % 256) as u8), a + 1, (n - 1) as nat, v / 256) }
}

pub open spec fn pow256(n: nat) -> nat
    decreases n,
{
    if n == 0 { 1 } else { 256 * pow256((n - 1) as nat) }
}

pub proof fn lemma_le_read_bound(m: Seq<u8>, a: int, n: nat)
    ensures
        le_read(m, a, n) < pow256(n),
    decreases n,
{
    if n > 0 {
        lemma_le_read_bound(m, a + 1, (n - 1) as nat);
        assert(le_read(m, a, n) <= 255 + 256 * (pow256((n - 1) as nat) - 1)) by (nonlinear_arith)
            requires
                le_read(m, a, n) == m[a] as nat + 256 * le_read(m, a + 1, (n - 1) as nat),
                m[a] <= 255,
                le_read(m, a + 1, (n - 1) as nat) < pow256((n - 1) as nat);
    }
}

pub proof fn lemma_le_write_len(m: Seq<u8>, a: int, n: nat, v: nat)
    requires
        0 <= a,
        a + n <= m.len(),
    ensures
        le_write(m, a, n, v).len() == m.len(),
    decreases n,
{
    if n > 0 {
        lemma_le_write_len(m.update(a, (v % 256) as u8), a + 1, (n - 1) as nat, v / 256);
    }
}

/// Writing `n` bytes at `a` leaves every byte outside `[a, a + n)` as it was.
pub proof fn lemma_write_keeps_other_bytes(m: Seq<u8>, a: int, n: nat, v: nat, i: int)
    requires
        0 <= a,
        a + n <= m.len(),
        0 <= i < m.len(),
        i < a || i >= a + n,
    ensures
        le_write(m, a, n, v)[i] == m[i],
    decreases n,
{
    if n > 0 {
        let m1 = m.update(a, (v % 256) as u8);
        lemma_write_keeps_other_bytes(m1, a + 1, (n - 1) as nat, v / 256, i);
    }
}

/// A read of the `n` bytes just written at `a` gives back the written value, modulo the width.
pub proof fn lemma_read_after_write(m: Seq<u8>, a: int, n: nat, v: nat)
    requires
        0 <= a,
        a + n <= m.len(),
    ensures
        le_read(le_write(m, a, n, v), a, n) == v % pow256(n),
    decreases n,
{
    if n == 0 {
        assert(v % 1 == 0) by (nonlinear_arith);
    } else {
        let m1 = m.update(a, (v % 256) as u8);
        let w = le_write(m, a, n, v);
        assert(w == le_write(m1, a + 1, (n - 1) as nat, v / 256));
        lemma_le_write_len(m1, a + 1, (n - 1) as nat, v / 256);
        lemma_write_keeps_other_bytes(m1, a + 1, (n - 1) as nat, v / 256, a);
        lemma_read_after_write(m1, a + 1, (n - 1) as nat, v / 256);
        let p = pow256((n - 1) as nat);
        assert(p > 0) by { lemma_pow256_pos((n - 1) as nat); }
        vstd::arithmetic::div_mod::lemma_breakdown(v as int, 256, p as int);
        assert(le_read(w, a, n) == w[a] as nat + 256 * le_read(w, a + 1, (n - 1) as nat));
        assert(w[a] == (v % 256) as u8);
    }
}

pub proof fn lemma_pow256_pos(n: nat)
    ensures
        pow256(n) > 0,
    decreases n,
{
    if n > 0 {
        lemma_pow256_pos((n - 1) as nat);
    }
}

/// A little-endian read of `n1 + n2` bytes is the read of the first `n1` bytes plus the read of
/// the next `n2` bytes shifted up by `n1` bytes.
pub proof fn lemma_le_read_split(m: Seq<u8>, a: int, n1: nat, n2: nat)
    ensures
        le_read(m, a, n1 + n2) == le_read(m, a, n1) + pow256(n1) * le_read(m, a + n1, n2),
    decreases n1,
{
    if n1 > 0 {
        let k = (n1 - 1) as nat;
        lemma_le_read_split(m, a + 1, k, n2);
        let x = le_read(m, a + 1, k);
        let y = le_read(m, a + n1, n2);
        let p = pow256(k);
        assert(le_read(m, a + 1, k + n2) == x + p * y);
        assert(k + n2 == (n1 + n2 - 1) as nat);
        assert(le_read(m, a, n1 + n2) == m[a] as nat + 256 * le_read(m, a + 1, k + n2));
        assert(le_read(m, a, n1) == m[a] as nat + 256 * x);
        assert(pow256(n1) == 256 * p);
        assert(m[a] as nat + 256 * (x + p * y) == (m[a] as nat + 256 * x) + (256 * p) * y) by (nonlinear_arith);
    } else {
        assert(pow256(0) == 1);
        assert(le_read(m, a, 0) == 0);
        assert(a + n1 == a);
    }
}

/// Writing `n1 + n2` bytes is writing the first `n1` bytes, then the rest of the value at the
/// following `n2` bytes.
pub proof fn lemma_le_write_split(m: Seq<u8>, a: int, n1: nat, n2: nat, v: nat)
    ensures
        le_write(m, a, n1 + n2, v) == le_write(le_write(m, a, n1, v), a + n1, n2, v / pow256(n1)),
    decreases n1,
{
    if n1 == 0 {
        assert(v / 1 == v);
    } else {
        let m1 = m.update(a, (v % 256) as u8);
        lemma_le_write_split(m1, a + 1, (n1 - 1) as nat, n2, v / 256);
        assert((n1 - 1) as nat + n2 == (n1 + n2 - 1) as nat);
        lemma_pow256_pos((n1 - 1) as nat);
        vstd::arithmetic::div_mod::lemma_div_denominator(v as int, 256, pow256((n1 - 1) as nat) as int);
    }
}

/// Writing `n` bytes of `v` writes the same bytes as writing `v` modulo `256^n`.
pub proof fn lemma_le_write_mod(m: Seq<u8>, a: int, n: nat, v: nat)
    ensures
        le_write(m, a, n, v) == le_write(m, a, n, v % pow256(n)),
    decreases n,
{
    if n == 0 {
        assert(v % 1 == 0) by (nonlinear_arith);
    } else {
        let p = pow256((n - 1) as nat);
        lemma_pow256_pos((n - 1) as nat);
        let w = v % pow256(n);
        vstd::arithmetic::div_mod::lemma_mod_mod(v as int, 256, p as int);
        vstd::arithmetic::div_mod::lemma_breakdown(v as int, 256, p as int);
        vstd::arithmetic::div_mod::lemma_mod_pos_bound((v / 256) as int, p as int);
        vstd::arithmetic::div_mod::lemma_fundamental_div_mod_converse(w as int, 256, ((v / 256) % p) as int, (v % 256) as int);
        lemma_le_write_mod(m.update(a, (v % 256) as u8), a + 1, (n - 1) as nat, v / 256);
    }
}

/// The byte offset a memory instruction addresses, if `n` bytes from it fit in the memory.
pub open spec fn access(m: Seq<u8>, base: u32, arg: MemArg, n: nat) -> Option<nat> {
    if base + arg.offset + n <= m.len() { Some((base + arg.offset) as nat) } else { None }
}

/// What a memory instruction does: pop `k` operands, push an optional result, and leave the
/// given memory bytes; or fail.
pub ghost enum MemEffect {
    Done(nat, Option<Cell>, Seq<u8>),
    Fail(Fault),
}

/// The width in bytes and the result of a load from `raw` (the little-endian value read).
pub open spec fn load_width(op: Op) -> nat {
    match op {
        Op::I32Load8S(_) | Op::I32Load8U(_) | Op::I64Load8S(_) | Op::I64Load8U(_) => 1,
        Op::I32Load16S(_) | Op::I32Load16U(_) | Op::I64Load16S(_) | Op::I64Load16U(_) => 2,
        Op::I32Load(_) | Op::F32Load(_) | Op::I64Load32S(_) | Op::I64Load32U(_) => 4,
        _ => 8,
    }
}

pub open spec fn load_result(op: Op, raw: nat) -> Cell {
    match op {
        Op::I32Load(_) | Op::F32Load(_) | Op::I32Load8U(_) | Op::I32Load16U(_) => cell32(raw as u32),
        Op::I32Load8S(_) => cell32(bits32(sext(raw, 8))),
        Op::I32Load16S(_) => cell32(bits32(sext(raw, 16))),
        Op::I64Load8S(_) => cell64(bits64(sext(raw, 8))),
        Op::I64Load16S(_) => cell64(bits64(sext(raw, 16))),
        Op::I64Load32S(_) => cell64(bits64(sext(raw, 32))),
        _ => cell64(raw as u64),
    }
}

pub open spec fn store_width(op: Op) -> nat {
    match op {
        Op::I32Store8(_) | Op::I64Store8(_) => 1,
        Op::I32Store16(_) | Op::I64Store16(_) => 2,
        Op::I32Store(_) | Op::F32Store(_) | Op::I64Store32(_) => 4,
        _ => 8,
    }
}

pub open spec fn is_load(op: Op) -> bool {
    matches!(op, Op::I32Load(_) | Op::I64Load(_) | Op::F32Load(_) | Op::F64Load(_) | Op::I32Load8S(_)
        | Op::I32Load8U(_) | Op::I32Load16S(_) | Op::I32Load16U(_) | Op::I64Load8S(_) | Op::I64Load8U(_)
        | Op::I64Load16S(_) | Op::I64Load16U(_) | Op::I64Load32S(_) | Op::I64Load32U(_))
}

pub open spec fn is_store(op: Op) -> bool {
    matches!(op, Op::I32Store(_) | Op::I64Store(_) | Op::F32Store(_) | Op::F64Store(_) | Op::I32Store8(_)
        | Op::I32Store16(_) | Op::I64Store8(_) | Op::I64Store16(_) | Op::I64Store32(_))
}

pub open spec fn memarg_of(op: Op) -> MemArg {
    match op {
        Op::I32Load(a) | Op::I64Load(a) | Op::F32Load(a) | Op::F64Load(a) | Op::I32Load8S(a) | Op::I32Load8U(a)
        | Op::I32Load16S(a) | Op::I32Load16U(a) | Op::I64Load8S(a) | Op::I64Load8U(a) | Op::I64Load16S(a)
        | Op::I64Load16U(a) | Op::I64Load32S(a) | Op::I64Load32U(a) | Op::I32Store(a) | Op::I64Store(a)
        | Op::F32Store(a) | Op::F64Store(a) | Op::I32Store8(a) | Op::I32Store16(a) | Op::I64Store8(a)
        | Op::I64Store16(a) | Op::I64Store32(a) => a,
        _ => MemArg { offset: 0 },
    }
}

/// The memory after `memory.fill` of `[d, d + n)` with `v`.
pub open spec fn filled(m: Seq<u8>, d: nat, n: nat, v: u8) -> Seq<u8> {
    Seq::new(m.len(), |i: int| if d <= i < d + n { v } else { m[i] })
}

/// The memory after `memory.copy` of `[s, s + n)` to `[d, d + n)` (as if through a buffer).
pub open spec fn copied(m: Seq<u8>, d: nat, s: nat, n: nat) -> Seq<u8> {
    Seq::new(m.len(), |i: int| if d <= i < d + n { m[s + (i - d)] } else { m[i] })
}

/// The effect of a memory instruction on operand stack `s` and memory `m`. `memory.grow` pushes
/// the new page count, or `-1` when the maximum would be exceeded.
pub open spec fn memory_effect(op: Op, s: Seq<Cell>, m: Seq<u8>, max_pages: u32) -> MemEffect {
    let n = s.len();
    if let Op::Simd(v) = op {
        simd_memory_effect(v, s, m)
    } else if is_load(op) {
        if n < 1 {
            MemEffect::Fail(Fault::Invalid)
        } else {
            match access(m, low32(s[n - 1]), memarg_of(op), load_width(op)) {
                Some(ea) => MemEffect::Done(1, Some(load_result(op, le_read(m, ea as int, load_width(op)))), m),
                None => MemEffect::Fail(Fault::Trap(Trap::MemoryOutOfBounds)),
            }
        }
    } else if is_store(op) {
        if n < 2 {
            MemEffect::Fail(Fault::Invalid)
        } else {
            match access(m, low32(s[n - 2]), memarg_of(op), store_width(op)) {
                Some(ea) => MemEffect::Done(2, None, le_write(m, ea as int, store_width(op), low64(s[n - 1]) as nat)),
                None => MemEffect::Fail(Fault::Trap(Trap::MemoryOutOfBounds)),
            }
        }
    } else {
        match op {
            Op::MemorySize => if n >= u32::MAX {
                MemEffect::Fail(Fault::Invalid)
            } else {
                MemEffect::Done(0, Some(cell32((m.len() / 65536) as u32)), m)
            },
            Op::MemoryGrow => if n < 1 {
                MemEffect::Fail(Fault::Invalid)
            } else {
                let delta = low32(s[n - 1]);
                let pages = m.len() / 65536;
                if pages + delta > max_pages {
                    MemEffect::Done(1, Some(cell32(0xffff_ffff)), m)
                } else {
                    MemEffect::Done(1, Some(cell32((pages + delta) as u32)), m + Seq::new(delta as nat * 65536, |i: int| 0u8))
                }
            },
            Op::MemoryFill => if n < 3 {
                MemEffect::Fail(Fault::Invalid)
            } else {
                let d = low32(s[n - 3]);
                let len = low32(s[n - 1]);
                if d + len > m.len() {
                    MemEffect::Fail(Fault::Trap(Trap::MemoryOutOfBounds))
                } else {
                    MemEffect::Done(3, None, filled(m, d as nat, len as nat, (low32(s[n - 2]) % 256) as u8))
                }
            },
            Op::MemoryCopy => if n < 3 {
                MemEffect::Fail(Fault::Invalid)
            } else {
                let d = low32(s[n - 3]);
                let src = low32(s[n - 2]);
                let len = low32(s[n - 1]);
                if src + len > m.len() || d + len > m.len() {
                    MemEffect::Fail(Fault::Trap(Trap::MemoryOutOfBounds))
                } else {
                    MemEffect::Done(3, None, copied(m, d as nat, src as nat, len as nat))
                }
            },
            _ => MemEffect::Fail(Fault::Invalid),
        }
    }
}

/// A load of the width a store just wrote, at the same address, reads back the stored operand cut
/// to that width (with the load's own extension); the store leaves every other byte as it was.
pub proof fn lemma_store_then_load(st: Op, ld: Op, s: Seq<Cell>, a: Cell, v: Cell, m: Seq<u8>, max_pages: u32)
    requires
        is_store(st),
        is_load(ld),
        memarg_of(st) == memarg_of(ld),
        load_width(ld) == store_width(st),
        memory_effect(st, s.push(a).push(v), m, max_pages) is Done,
    ensures
        ({
            let w = store_width(st);
            let ea = access(m, low32(a), memarg_of(st), w)->Some_0;
            let m1 = le_write(m, ea as int, w, low64(v) as nat);
            &&& memory_effect(st, s.push(a).push(v), m, max_pages) == MemEffect::Done(2, None, m1)
            &&& memory_effect(ld, s.push(a), m1, max_pages)
                == MemEffect::Done(1, Some(load_result(ld, low64(v) as nat % pow256(w))), m1)
            &&& m1.len() == m.len()
            &&& forall|i: int| 0 <= i < m.len() && !(ea <= i < ea + w) ==> #[trigger] m1[i] == m[i]
        }),
{
    let s2 = s.push(a).push(v);
    assert(s2[s2.len() - 2] == a && s2[s2.len() - 1] == v);
    let w = store_width(st);
    let ea = access(m, low32(a), memarg_of(st), w)->Some_0;
    let m1 = le_write(m, ea as int, w, low64(v) as nat);
    lemma_le_write_len(m, ea as int, w, low64(v) as nat);
    lemma_read_after_write(m, ea as int, w, low64(v) as nat);
    let s1 = s.push(a);
    assert(s1[s1.len() - 1] == a);
    assert forall|i: int| 0 <= i < m.len() && !(ea <= i < ea + w) implies #[trigger] m1[i] == m[i] by {
        lemma_write_keeps_other_bytes(m, ea as int, w, low64(v) as nat, i);
    }
}

/// Loads read 1, 2, 4 or 8 bytes as their names say.
pub proof fn lemma_load_widths(a: MemArg)
    ensures
        load_width(Op::I32Load8U(a)) == 1 && load_width(Op::I32Load8S(a)) == 1 && load_width(Op::I64Load8U(a)) == 1
            && load_width(Op::I64Load8S(a)) == 1,
        load_width(Op::I32Load16U(a)) == 2 && load_width(Op::I32Load16S(a)) == 2 && load_width(Op::I64Load16U(a)) == 2
            && load_width(Op::I64Load16S(a)) == 2,
        load_width(Op::I32Load(a)) == 4 && load_width(Op::F32Load(a)) == 4 && load_width(Op::I64Load32U(a)) == 4
            && load_width(Op::I64Load32S(a)) == 4,
        load_width(Op::I64Load(a)) == 8 && load_width(Op::F64Load(a)) == 8,
{
}

/// A byte load extends what it reads: the `_u` forms with zeros, the `_s` forms by its top bit.
#[verifier::spinoff_prover]
pub proof fn lemma_load8_extension(a: MemArg, raw: nat)
    requires
        raw < 0x100,
    ensures
        load_result(Op::I32Load8U(a), raw) == cell32(raw as u32),
        load_result(Op::I64Load8U(a), raw) == cell64(raw as u64),
        load_result(Op::I32Load8S(a), raw) == cell32(if raw < 0x80 { raw as u32 } else { (raw + 0xffff_ff00) as u32 }),
        load_result(Op::I64Load8S(a), raw) == cell64(if raw < 0x80 { raw as u64 } else { (raw + 0xffff_ffff_ffff_ff00) as u64 }),
{
    vstd::arithmetic::power2::lemma2_to64();
    assert(sext(raw, 8) == if raw < 0x80 { raw as int } else { raw - 0x100 });
}

/// A 16-bit load extends what it reads: the `_u` forms with zeros, the `_s` forms by its top bit.
#[verifier::spinoff_prover]
pub proof fn lemma_load16_extension(a: MemArg, raw: nat)
    requires
        raw < 0x1_0000,
    ensures
        load_result(Op::I32Load16U(a), raw) == cell32(raw as u32),
        load_result(Op::I64Load16U(a), raw) == cell64(raw as u64),
        load_result(Op::I32Load16S(a), raw) == cell32(if raw < 0x8000 { raw as u32 } else { (raw + 0xffff_0000) as u32 }),
        load_result(Op::I64Load16S(a), raw) == cell64(if raw < 0x8000 { raw as u64 } else { (raw + 0xffff_ffff_ffff_0000) as u64 }),
{
    vstd::arithmetic::power2::lemma2_to64();
    assert(sext(raw, 16) == if raw < 0x8000 { raw as int } else { raw - 0x1_0000 });
}

/// A 32-bit load into an `i64` extends what it reads (with zeros, or by its top bit); full-width
/// loads read the pattern as it is.
#[verifier::spinoff_prover]
pub proof fn lemma_load32_64(a: MemArg, raw: nat)
    ensures
        raw < 0x1_0000_0000 ==> load_result(Op::I32Load(a), raw) == cell32(raw as u32)
            && load_result(Op::F32Load(a), raw) == cell32(raw as u32)
            && load_result(Op::I64Load32U(a), raw) == cell64(raw as u64)
            && load_result(Op::I64Load32S(a), raw) == cell64(if raw < 0x8000_0000 { raw as u64 } else { (raw + 0xffff_ffff_0000_0000) as u64 }),
        raw < 0x1_0000_0000_0000_0000 ==> load_result(Op::I64Load(a), raw) == cell64(raw as u64)
            && load_result(Op::F64Load(a), raw) == cell64(raw as u64),
{
    vstd::arithmetic::power2::lemma2_to64();
    if raw < 0x1_0000_0000 {
        assert(sext(raw, 32) == if raw < 0x8000_0000 { raw as int } else { raw - 0x1_0000_0000 });
    }
}

/// Stores write 1, 2, 4 or 8 bytes as their names say; a load reads at the address operand plus
/// the static offset and traps when the bytes it reads do not all lie in memory.
#[verifier::spinoff_prover]
pub proof fn lemma_store_width_and_address(a: MemArg, s: Seq<Cell>, addr: Cell, m: Seq<u8>, max_pages: u32, ld: Op)
    requires
        is_load(ld),
        memarg_of(ld) == a,
    ensures
        store_width(Op::I32Store8(a)) == 1 && store_width(Op::I64Store8(a)) == 1,
        store_width(Op::I32Store16(a)) == 2 && store_width(Op::I64Store16(a)) == 2,
        store_width(Op::I32Store(a)) == 4 && store_width(Op::F32Store(a)) == 4 && store_width(Op::I64Store32(a)) == 4,
        store_width(Op::I64Store(a)) == 8 && store_width(Op::F64Store(a)) == 8,
        ({
            let ea = low32(addr) + a.offset;
            let r = memory_effect(ld, s.push(addr), m, max_pages);
            &&& ea + load_width(ld) > m.len() ==> r == MemEffect::Fail(Fault::Trap(Trap::MemoryOutOfBounds))
            &&& ea + load_width(ld) <= m.len() ==> r == MemEffect::Done(1, Some(load_result(ld, le_read(m, ea, load_width(ld)))), m)
        }),
{
    let st = s.push(addr);
    assert(st[st.len() - 1] == addr);
}

/// Memory is little-endian: a multi-byte read takes its lowest byte from the lowest address, and a
/// write puts the value's lowest byte at the lowest address and its next byte after it.
#[verifier::spinoff_prover]
pub proof fn lemma_little_endian(m: Seq<u8>, a: int, n: nat, v: nat)
    requires
        n >= 2,
        0 <= a,
        a + n <= m.len(),
    ensures
        le_read(m, a, n) % 256 == m[a] as nat,
        (le_read(m, a, n) / 256) % 256 == m[a + 1] as nat,
        le_write(m, a, n, v)[a] == (v % 256) as u8,
        le_write(m, a, n, v)[a + 1] == ((v / 256) % 256) as u8,
{
    let r1 = le_read(m, a + 1, (n - 1) as nat);
    let r2 = le_read(m, a + 2, (n - 2) as nat);
    assert(le_read(m, a, n) == m[a] as nat + 256 * r1);
    assert(r1 == m[a + 1] as nat + 256 * r2);
    assert((m[a] as nat + 256 * r1) % 256 == m[a] as nat) by (nonlinear_arith) requires m[a] < 256;
    assert((m[a] as nat + 256 * r1) / 256 == r1) by (nonlinear_arith) requires m[a] < 256;
    assert((m[a + 1] as nat + 256 * r2) % 256 == m[a + 1] as nat) by (nonlinear_arith) requires m[a + 1] < 256;
    let m1 = m.update(a, (v % 256) as u8);
    let m2 = m1.update(a + 1, ((v / 256) % 256) as u8);
    assert(le_write(m, a, n, v) == le_write(m1, a + 1, (n - 1) as nat, v / 256));
    assert(le_write(m1, a + 1, (n - 1) as nat, v / 256) == le_write(m2, a + 2, (n - 2) as nat, v / 256 / 256));
    lemma_write_keeps_other_bytes(m2, a + 2, (n - 2) as nat, v / 256 / 256, a);
    lemma_write_keeps_other_bytes(m2, a + 2, (n - 2) as nat, v / 256 / 256, a + 1);
}

/// `memory.copy` with operands `dst src len` (pushed in that order) makes bytes
/// `[dst, dst + len)` the old bytes `[src, src + len)`, even when the ranges overlap, and leaves
/// every other byte and the memory's size as they were; either range past the end traps.
#[verifier::spinoff_prover]
pub proof fn lemma_memory_copy(s: Seq<Cell>, dst: Cell, src: Cell, len: Cell, m: Seq<u8>, max_pages: u32)
    ensures
        ({
            let d = low32(dst) as int;
            let a = low32(src) as int;
            let n = low32(len) as int;
            let r = memory_effect(Op::MemoryCopy, s.push(dst).push(src).push(len), m, max_pages);
            &&& (d + n > m.len() || a + n > m.len()) ==> r == MemEffect::Fail(Fault::Trap(Trap::MemoryOutOfBounds))
            &&& (d + n <= m.len() && a + n <= m.len()) ==> (r matches MemEffect::Done(k, push, m1) && k == 3 && push is None
                && m1.len() == m.len()
                && (forall|i: int| d <= i < d + n ==> #[trigger] m1[i] == m[a + (i - d)])
                && (forall|i: int| 0 <= i < m.len() && !(d <= i < d + n) ==> #[trigger] m1[i] == m[i]))
        }),
{
    let st = s.push(dst).push(src).push(len);
    assert(st[st.len() - 3] == dst && st[st.len() - 2] == src && st[st.len() - 1] == len);
}

/// `memory.fill` with operands `dst val len` sets bytes `[dst, dst + len)` to the low byte of
/// `val` and leaves every other byte as it was; a range past the end traps.
#[verifier::spinoff_prover]
pub proof fn lemma_memory_fill(s: Seq<Cell>, dst: Cell, val: Cell, len: Cell, m: Seq<u8>, max_pages: u32)
    ensures
        ({
            let d = low32(dst) as int;
            let n = low32(len) as int;
            let r = memory_effect(Op::MemoryFill, s.push(dst).push(val).push(len), m, max_pages);
            &&& d + n > m.len() ==> r == MemEffect::Fail(Fault::Trap(Trap::MemoryOutOfBounds))
            &&& d + n <= m.len() ==> (r matches MemEffect::Done(k, push, m1) && k == 3 && push is None
                && m1.len() == m.len()
                && (forall|i: int| d <= i < d + n ==> #[trigger] m1[i] == (low32(val) % 256) as u8)
                && (forall|i: int| 0 <= i < m.len() && !(d <= i < d + n) ==> #[trigger] m1[i] == m[i]))
        }),
{
    let st = s.push(dst).push(val).push(len);
    assert(st[st.len() - 3] == dst && st[st.len() - 2] == val && st[st.len() - 1] == len);
}

/// `memory.size` pushes the page count (64 KiB pages); `memory.grow` by `delta` pages appends
/// `delta` zeroed pages and pushes the new page count when that stays within the maximum, and
/// otherwise pushes `-1` and leaves the memory as it was.
#[verifier::spinoff_prover]
pub proof fn lemma_memory_size_grow(s: Seq<Cell>, delta: Cell, m: Seq<u8>, max_pages: u32)
    requires
        s.len() < u32::MAX,
        m.len() % 65536 == 0,
    ensures
        memory_effect(Op::MemorySize, s, m, max_pages) == MemEffect::Done(0, Some(cell32((m.len() / 65536) as u32)), m),
        ({
            let pages = m.len() / 65536;
            let k = low32(delta) as int;
            let r = memory_effect(Op::MemoryGrow, s.push(delta), m, max_pages);
            &&& pages + k <= max_pages ==> (r matches MemEffect::Done(kk, Some(v), m1) && kk == 1 && v == cell32((pages + k) as u32)
                && m1.len() == m.len() + k * 65536
                && (forall|i: int| 0 <= i < m.len() ==> #[trigger] m1[i] == m[i])
                && (forall|i: int| m.len() <= i < m1.len() ==> #[trigger] m1[i] == 0u8))
            &&& pages + k > max_pages ==> r == MemEffect::Done(1, Some(cell32(0xffff_ffff)), m)
        }),
{
    let st = s.push(delta);
    assert(st[st.len() - 1] == delta);
}

/// `start` if `[start, start + len)` lies inside `[0, total)`, else an out-of-bounds trap.
pub fn checked_range(start: u64, len: u64, total: u64) -> (r: Result<u64, Fault>)
    ensures
        start + len <= total ==> r == Ok::<u64, Fault>(start),
        start + len > total ==> r == Err::<u64, Fault>(Fault::Trap(Trap::MemoryOutOfBounds)),
{
    match start.checked_add(len) {
        Some(end) if end <= total => Ok(start),
        _ => Err(Fault::Trap(Trap::MemoryOutOfBounds)),
    }
}

/// The effective address of an `n`-byte access at `base + arg.offset`, if it is in bounds.
pub(crate) fn mem_ea(mem: &Memory, base: u32, arg: &MemArg, n: u64) -> (r: Result<usize, Fault>)
    requires
        mem.wf(),
        n <= 16,
    ensures
        match access(mem.bytes@, base, *arg, n as nat) {
            Some(ea) => r == Ok::<usize, Fault>(ea as usize) && ea + n <= mem.bytes@.len(),
            None => r == Err::<usize, Fault>(Fault::Trap(Trap::MemoryOutOfBounds)),
        },
{
    let start = match (base as u64).checked_add(arg.offset) {
        Some(s) => s,
        None => return Err(Fault::Trap(Trap::MemoryOutOfBounds)),
    };
    let ea = checked_range(start, n, mem.bytes.len() as u64)?;
    Ok(ea as usize)
}

/// Reads `n` bytes little-endian at `ea`.
pub(crate) fn load_n(mem: &Memory, ea: usize, n: usize) -> (v: u64)
    requires
        n <= 8,
        ea + n <= mem.bytes@.len(),
    ensures
        v == le_read(mem.bytes@, ea as int, n as nat),
{
    let mut acc: u64 = 0;
    let mut k = n;
    let total = mem.bytes.len();
    proof { lemma_le_read_bound(mem.bytes@, ea as int + n, 0); }
    while k > 0
        invariant
            k <= n <= 8,
            ea + n <= mem.bytes@.len(),
            total == mem.bytes@.len(),
            acc == le_read(mem.bytes@, ea + k, (n - k) as nat),
        decreases k,
    {
        k = k - 1;
        proof {
            lemma_le_read_bound(mem.bytes@, ea + k + 1, (n - k - 1) as nat);
            lemma_pow256_bound((n - k - 1) as nat);
            assert(256 * acc + 255 <= u64::MAX) by (nonlinear_arith)
                requires acc < pow256((n - k - 1) as nat), pow256((n - k - 1) as nat) <= 0x100_0000_0000_0000;
        }
        acc = mem.bytes[ea + k] as u64 + 256 * acc;
    }
    acc
}

proof fn lemma_pow256_bound(n: nat)
    requires
        n <= 7,
    ensures
        pow256(n) <= 0x100_0000_0000_0000,
{
    reveal_with_fuel(pow256, 8);
    if n == 0 {} else if n == 1 {} else if n == 2 {} else if n == 3 {} else if n == 4 {} else if n == 5 {} else if n == 6 {} else {}
}

/// Writes the low `n` bytes of `v` little-endian at `ea`.
pub(crate) fn store_n(mem: &mut Memory, ea: usize, n: usize, v: u64)
    requires
        old(mem).wf(),
        n <= 8,
        ea + n <= old(mem).bytes@.len(),
    ensures
        final(mem).wf(),
        final(mem).max_pages == old(mem).max_pages,
        final(mem).bytes@ == le_write(old(mem).bytes@, ea as int, n as nat, v as nat),
{
    let mut x = v;
    let mut k: usize = 0;
    while k < n
        invariant
            k <= n <= 8,
            ea + n <= old(mem).bytes@.len(),
            mem.bytes@.len() == old(mem).bytes@.len(),
            mem.max_pages == old(mem).max_pages,
            old(mem).wf(),
            le_write(mem.bytes@, ea + k, (n - k) as nat, x as nat) == le_write(old(mem).bytes@, ea as int, n as nat, v as nat),
        decreases n - k,
    {
        mem.bytes.set(ea + k, (x % 256) as u8);
        x = x / 256;
        k = k + 1;
    }
}

impl Execution {
    fn pop3_u32(&mut self) -> (r: Result<(u32, u32, u32), Fault>)
        requires
            old(self).wf(),
        ensures
            final(self).wf(),
            final(self).frames@ == old(self).frames@,
            old(self).values@.len() < 3 ==> r == Err::<(u32, u32, u32), Fault>(Fault::Invalid),
            old(self).values@.len() >= 3 ==> {
                let s = old(self).values@;
                let n = s.len();
                &&& r == Ok::<(u32, u32, u32), Fault>((low32(s[n - 3]), low32(s[n - 2]), low32(s[n - 1])))
                &&& final(self).values@ == pop_k(s, 3)
                &&& final(self).shadow@ == pop_k(old(self).shadow@, 3)
            },
    {
        if self.values.len() < 3 {
            return Err(Fault::Invalid);
        }
        let c = self.pop_cell()?;
        let (a, b) = self.pop2_cells()?;
        proof {
            assert(self.values@ =~= pop_k(old(self).values@, 3));
            assert(self.shadow@ =~= pop_k(old(self).shadow@, 3));
        }
        Ok((a.low32(), b.low32(), c.low32()))
    }

    fn push_mem_result(&mut self, c: Cell) -> (r: Result<(), Fault>)
        requires
            old(self).wf(),
            old(self).values@.len() < u32::MAX,
        ensures
            final(self).wf(),
            r is Ok,
            final(self).values@ == old(self).values@.push(c),
            final(self).shadow@ == old(self).shadow@.push(RefTag::NoRef),
            final(self).frames@ == old(self).frames@,
    {
        self.push_scalar(c)
    }

    /// Executes a memory instruction against `mem`. A trapping instruction changes no byte of
    /// the memory and leaves the operand stack as it found it.
    pub fn exec_memory(&mut self, op: &Op, mem: &mut Memory) -> (r: Result<(), Fault>)
        requires
            old(self).wf(),
            old(mem).wf(),
        ensures
            final(self).wf(),
            final(mem).wf(),
            final(mem).max_pages == old(mem).max_pages,
            final(self).frames@ == old(self).frames@,
            match memory_effect(*op, old(self).values@, old(mem).bytes@, old(mem).max_pages) {
                MemEffect::Done(k, push, m) => r is Ok && final(mem).bytes@ == m && match push {
                    Some(c) => final(self).values@ == pop_k(old(self).values@, k).push(c)
                        && final(self).shadow@ == pop_k(old(self).shadow@, k).push(RefTag::NoRef),
                    None => final(self).values@ == pop_k(old(self).values@, k)
                        && final(self).shadow@ == pop_k(old(self).shadow@, k),
                },
                MemEffect::Fail(f) => r == Err::<(), Fault>(f) && (f is Trap ==> final(mem).bytes@ == old(mem).bytes@
                    && final(self).values@ == old(self).values@ && final(self).shadow@ == old(self).shadow@),
            },
    {
        let n = self.values.len();
        let top = self.top_three();
        let ghost ov = self.values@;
        let ghost ot = self.shadow@;
        let r = self.memory_popping(op, mem);
        match r {
            Err(Fault::Trap(t)) => {
                self.restore_top(top, n, Ghost(ov), Ghost(ot));
                Err(Fault::Trap(t))
            },
            _ => r,
        }
    }

    /// [`Execution::exec_memory`], except that a trapping instruction leaves its operands popped.
    #[verifier::rlimit(100)]
    #[verifier::spinoff_prover]
    fn memory_popping(&mut self, op: &Op, mem: &mut Memory) -> (r: Result<(), Fault>)
        requires
            old(self).wf(),
            old(mem).wf(),
        ensures
            final(self).wf(),
            final(mem).wf(),
            final(mem).max_pages == old(mem).max_pages,
            final(self).frames@ == old(self).frames@,
            match memory_effect(*op, old(self).values@, old(mem).bytes@, old(mem).max_pages) {
                MemEffect::Done(k, push, m) => r is Ok && final(mem).bytes@ == m && match push {
                    Some(c) => final(self).values@ == pop_k(old(self).values@, k).push(c)
                        && final(self).shadow@ == pop_k(old(self).shadow@, k).push(RefTag::NoRef),
                    None => final(self).values@ == pop_k(old(self).values@, k)
                        && final(self).shadow@ == pop_k(old(self).shadow@, k),
                },
                MemEffect::Fail(f) => r == Err::<(), Fault>(f) && (f is Trap ==> final(mem).bytes@ == old(mem).bytes@
                    && popped_at_most_three(final(self).values@, final(self).shadow@, old(self).values@, old(self).shadow@)),
            },
    {
        let ghost s = self.values@;
        let ghost m0 = mem.bytes@;
        match op {
            Op::I32Load(a) | Op::F32Load(a) => {
                let base = self.pop_cell()?.low32();
                let ea = mem_ea(mem, base, a, 4)?;
                let v = load_n(mem, ea, 4);
                proof { lemma_le_read_bound(m0, ea as int, 4); reveal_with_fuel(pow256, 5); }
                self.push_mem_result(Cell::from_u32(v as u32))
            },
            Op::I64Load(a) | Op::F64Load(a) => {
                let base = self.pop_cell()?.low32();
                let ea = mem_ea(mem, base, a, 8)?;
                let v = load_n(mem, ea, 8);
                self.push_mem_result(Cell::from_u64(v))
            },
            Op::I32Load8U(a) | Op::I32Load16U(a) => {
                let w: u64 = match op { Op::I32Load8U(_) => 1, _ => 2 };
                let base = self.pop_cell()?.low32();
                let ea = mem_ea(mem, base, a, w)?;
                let v = load_n(mem, ea, w as usize);
                proof { lemma_le_read_bound(m0, ea as int, w as nat); reveal_with_fuel(pow256, 3); }
                self.push_mem_result(Cell::from_u32(v as u32))
            },
            Op::I32Load8S(a) | Op::I32Load16S(a) => {
                let w: u64 = match op { Op::I32Load8S(_) => 1, _ => 2 };
                let base = self.pop_cell()?.low32();
                let ea = mem_ea(mem, base, a, w)?;
                let v = load_n(mem, ea, w as usize);
                proof { lemma_le_read_bound(m0, ea as int, w as nat); reveal_with_fuel(pow256, 3); }
                let x = if w == 1 { i32_extend8_s(v as u32) } else { i32_extend16_s(v as u32) };
                proof { lemma_bits32_signed32(x); }
                self.push_mem_result(Cell::from_u32(x))
            },
            Op::I64Load8U(a) | Op::I64Load16U(a) | Op::I64Load32U(a) => {
                let w: u64 = match op { Op::I64Load8U(_) => 1, Op::I64Load16U(_) => 2, _ => 4 };
                let base = self.pop_cell()?.low32();
                let ea = mem_ea(mem, base, a, w)?;
                let v = load_n(mem, ea, w as usize);
                self.push_mem_result(Cell::from_u64(v))
            },
            Op::I64Load8S(a) | Op::I64Load16S(a) | Op::I64Load32S(a) => {
                let w: u64 = match op { Op::I64Load8S(_) => 1, Op::I64Load16S(_) => 2, _ => 4 };
                let base = self.pop_cell()?.low32();
                let ea = mem_ea(mem, base, a, w)?;
                let v = load_n(mem, ea, w as usize);
                proof { lemma_le_read_bound(m0, ea as int, w as nat); reveal_with_fuel(pow256, 5); }
                let x = if w == 1 { i64_extend8_s(v) } else if w == 2 { i64_extend16_s(v) } else { i64_extend32_s(v) };
                proof { lemma_bits64_signed64(x); }
                self.push_mem_result(Cell::from_u64(x))
            },
            Op::I32Store(a) | Op::I64Store(a) | Op::F32Store(a) | Op::F64Store(a) | Op::I32Store8(a)
            | Op::I32Store16(a) | Op::I64Store8(a) | Op::I64Store16(a) | Op::I64Store32(a) => {
                let w: u64 = match op {
                    Op::I32Store8(_) | Op::I64Store8(_) => 1,
                    Op::I32Store16(_) | Op::I64Store16(_) => 2,
                    Op::I32Store(_) | Op::F32Store(_) | Op::I64Store32(_) => 4,
                    _ => 8,
                };
                let (addr, val) = self.pop2_cells()?;
                let ea = mem_ea(mem, addr.low32(), a, w)?;
                store_n(mem, ea, w as usize, val.low64());
                proof {
                    assert(self.values@ =~= pop_k(s, 2));
                    assert(self.shadow@ =~= pop_k(old(self).shadow@, 2));
                }
                Ok(())
            },
            Op::MemorySize => {
                if self.values.len() >= 0xffff_ffff {
                    return Err(Fault::Invalid);
                }
                let pages = mem.bytes.len() / PAGE_SIZE;
                proof { assert(pop_k(s, 0) =~= s); assert(pop_k(old(self).shadow@, 0) =~= old(self).shadow@); }
                self.push_mem_result(Cell::from_u32(pages as u32))
            },
            Op::MemoryGrow => {
                let delta = self.pop_cell()?.low32();
                let pages = mem.bytes.len() / PAGE_SIZE;
                if pages as u64 + delta as u64 > mem.max_pages as u64 {
                    return self.push_mem_result(Cell::from_u32(0xffff_ffff));
                }
                let extra = delta as usize * PAGE_SIZE;
                let ghost before = mem.bytes@;
                for i in 0..extra
                    invariant
                        mem.bytes@ == before + Seq::new(i as nat, |k: int| 0u8),
                        mem.max_pages == old(mem).max_pages,
                        before.len() + extra <= mem.max_pages as nat * 65536,
                        mem.max_pages as nat * 65536 <= usize::MAX,
                {
                    mem.bytes.push(0);
                    proof { assert(mem.bytes@ =~= before + Seq::new(i as nat + 1, |k: int| 0u8)); }
                }
                self.push_mem_result(Cell::from_u32((pages as u64 + delta as u64) as u32))
            },
            Op::MemoryFill => {
                let (d, v, n) = self.pop3_u32()?;
                let len = mem.bytes.len();
                if d as u64 + n as u64 > len as u64 {
                    return Err(Fault::Trap(Trap::MemoryOutOfBounds));
                }
                let byte = (v % 256) as u8;
                let ghost before = mem.bytes@;
                let mut i: usize = 0;
                while i < n as usize
                    invariant
                        i <= n,
                        d + n <= before.len(),
                        before.len() <= usize::MAX,
                        mem.bytes@.len() == before.len(),
                        mem.max_pages == old(mem).max_pages,
                        forall|k: int| 0 <= k < before.len() ==> #[trigger] mem.bytes@[k]
                            == if d <= k < d + i { byte } else { before[k] },
                    decreases n - i,
                {
                    mem.bytes.set(d as usize + i, byte);
                    i = i + 1;
                }
                proof { assert(mem.bytes@ =~= filled(before, d as nat, n as nat, byte)); }
                Ok(())
            },
            Op::MemoryCopy => {
                let (d, src, n) = self.pop3_u32()?;
                let len = mem.bytes.len();
                if src as u64 + n as u64 > len as u64 || d as u64 + n as u64 > len as u64 {
                    return Err(Fault::Trap(Trap::MemoryOutOfBounds));
                }
                let ghost before = mem.bytes@;
                let mut buf: Vec<u8> = Vec::new();
                let mut i: usize = 0;
                while i < n as usize
                    invariant
                        i <= n,
                        src + n <= before.len(),
                        before.len() <= usize::MAX,
                        mem.bytes@ == before,
                        buf@.len() == i,
                        forall|k: int| 0 <= k < i ==> #[trigger] buf@[k] == before[src + k],
                    decreases n - i,
                {
                    buf.push(mem.bytes[src as usize + i]);
                    i = i + 1;
                }
                let mut j: usize = 0;
                while j < n as usize
                    invariant
                        j <= n,
                        d + n <= before.len(),
                        src + n <= before.len(),
                        before.len() <= usize::MAX,
                        buf@.len() == n,
                        forall|k: int| 0 <= k < n ==> #[trigger] buf@[k] == before[src + k],
                        mem.bytes@.len() == before.len(),
                        mem.max_pages == old(mem).max_pages,
                        forall|k: int| 0 <= k < before.len() ==> #[trigger] mem.bytes@[k]
                            == if d <= k < d + j { before[src + (k - d)] } else { before[k] },
                    decreases n - j,
                {
                    mem.bytes.set(d as usize + j, buf[j]);
                    j = j + 1;
                }
                proof { assert(mem.bytes@ =~= copied(before, d as nat, src as nat, n as nat)); }
                Ok(())
            },
            Op::Simd(v) => self.exec_simd_memory(v, mem),
            _ => Err(Fault::Invalid),
        }
    }
}

} // verus!
