//! Whole-vector SIMD instructions: what each computes from its `v128` and scalar operands.
//! Lanewise instructions apply one lane operation to every lane; the widening, narrowing and
//! dot-product instructions combine lanes of a narrower shape into lanes of a wider one.
use vstd::prelude::*;
use vstd::arithmetic::power2::{pow2, lemma_pow2_unfold, lemma2_to64};
use vstd::arithmetic::div_mod::lemma_fundamental_div_mod_converse;
use crate::exec::op::MemArg;
use crate::exec::simd::lanes::{Shape, lane_mod, lane_count, lane, lanes, pack, nat_lanes, count, modulus, split, join};
use crate::exec::simd::lane_ops::{LaneBin, LaneUn, ShiftKind, lane_bin, lane_un, lane_shift, signed_lane, wrap_lane, sat_s,
    sat_u, lane_bin_exec, lane_un_exec, lane_shift_exec, to_signed, wrap, saturate_s, saturate_u};

verus! {

/// A SIMD instruction. Shapes name the lane layout of the result unless said otherwise; the
/// widening and narrowing instructions read lanes of the neighbouring shape.
#[derive(Copy, Clone, PartialEq, Eq, Structural, Debug)]
pub enum SimdOp {
    /// A constant vector.
    Const(u128),
    Not,
    And,
    Or,
    Xor,
    AndNot,
    /// Bits of the first operand where the third has ones, of the second where it has zeros.
    Bitselect,
    /// Whether any bit is set.
    AnyTrue,
    /// A lanewise instruction of two vectors.
    Bin(Shape, LaneBin),
    /// A lanewise instruction of one vector.
    Un(Shape, LaneUn),
    /// Every lane shifted by an `i32` count.
    Shift(Shape, ShiftKind),
    /// Whether every lane is non-zero.
    AllTrue(Shape),
    /// The lanes' sign bits gathered into an `i32`, lane 0 in bit 0.
    Bitmask(Shape),
    /// A vector with every lane set from a scalar.
    Splat(Shape),
    /// A lane as a scalar, sign-extended when the flag is set: `(shape, signed, lane)`.
    ExtractLane(Shape, bool, u8),
    /// The vector with one lane set from a scalar.
    ReplaceLane(Shape, u8),
    /// Bytes picked from the two operands by the 16 byte indices of the immediate (below 32).
    Shuffle(u128),
    /// Bytes of the first operand picked by the bytes of the second; indices from 16 up give 0.
    Swizzle,
    /// Two vectors' lanes saturated into lanes of half the width: `(result shape, signed)`.
    Narrow(Shape, bool),
    /// The low or high half of the lanes widened: `(result shape, high, signed)`.
    Extend(Shape, bool, bool),
    /// Adjacent lane pairs added into lanes of twice the width: `(result shape, signed)`.
    ExtAddPairwise(Shape, bool),
    /// The low or high halves multiplied into lanes of twice the width: `(result shape, high, signed)`.
    ExtMul(Shape, bool, bool),
    /// `i16x8` fixed-point multiplication, rounded and saturated.
    Q15MulrSat,
    /// Signed products of adjacent lane pairs summed into lanes of twice the width.
    Dot(Shape),
    /// The `i8x16` pair dot product summed again in pairs and added to an `i32x4` accumulator.
    DotAdd,
    Load(MemArg),
    Store(MemArg),
    /// Eight bytes loaded as lanes of half the width and widened: `(result shape, signed, arg)`.
    LoadExtend(Shape, bool, MemArg),
    /// One lane loaded into every lane.
    LoadSplat(Shape, MemArg),
    /// One lane loaded into lane 0, the rest zero.
    LoadZero(Shape, MemArg),
    /// One lane of a vector operand loaded from memory: `(shape, lane, arg)`.
    LoadLane(Shape, u8, MemArg),
    /// One lane of a vector operand stored to memory: `(shape, lane, arg)`.
    StoreLane(Shape, u8, MemArg),
}

/// Whether a SIMD instruction accesses memory.
pub open spec fn is_simd_memory(op: SimdOp) -> bool {
    matches!(op, SimdOp::Load(_) | SimdOp::Store(_) | SimdOp::LoadExtend(_, _, _) | SimdOp::LoadSplat(_, _)
        | SimdOp::LoadZero(_, _) | SimdOp::LoadLane(_, _, _) | SimdOp::StoreLane(_, _, _))
}

/// The shape with lanes of half the width (and twice as many).
pub open spec fn narrower(s: Shape) -> Option<Shape> {
    match s {
        Shape::I8x16 => None,
        Shape::I16x8 => Some(Shape::I8x16),
        Shape::I32x4 => Some(Shape::I16x8),
        Shape::I64x2 => Some(Shape::I32x4),
    }
}

/// The shape with lanes of twice the width (and half as many).
pub open spec fn wider(s: Shape) -> Option<Shape> {
    match s {
        Shape::I8x16 => Some(Shape::I16x8),
        Shape::I16x8 => Some(Shape::I32x4),
        Shape::I32x4 => Some(Shape::I64x2),
        Shape::I64x2 => None,
    }
}

/// The `v128` of shape `s` whose lane `j` is `f(j)`.
pub open spec fn pack_with(s: Shape, f: spec_fn(int) -> nat) -> u128 {
    pack(Seq::new(lane_count(s), f), s)
}

/// A lane read signed or unsigned.
pub open spec fn ext(x: nat, s: Shape, signed: bool) -> int {
    if signed { signed_lane(x, s) } else { x as int }
}

pub open spec fn map2(a: u128, b: u128, s: Shape, k: LaneBin) -> u128 {
    pack_with(s, |j: int| lane_bin(k, s, lane(a, s, j), lane(b, s, j)))
}

pub open spec fn map1(a: u128, s: Shape, k: LaneUn) -> u128 {
    pack_with(s, |j: int| lane_un(k, s, lane(a, s, j)))
}

pub open spec fn shift_lanes(a: u128, s: Shape, k: ShiftKind, c: u32) -> u128 {
    pack_with(s, |j: int| lane_shift(k, s, lane(a, s, j), c))
}

/// Every lane set to `x` reduced to the lane width.
pub open spec fn splat(x: nat, s: Shape) -> u128 {
    pack_with(s, |j: int| x % lane_mod(s))
}

/// `v` with lane `l` set to `x` reduced to the lane width.
pub open spec fn replace_lane(v: u128, s: Shape, l: int, x: nat) -> u128 {
    pack(lanes(v, s).update(l, x % lane_mod(s)), s)
}

pub open spec fn all_true(v: u128, s: Shape) -> bool {
    forall|j: int| 0 <= j < lane_count(s) ==> lane(v, s, j) != 0
}

/// The sign bits of lanes `0..n` gathered, lane `j` in bit `j`.
pub open spec fn bitmask_upto(v: u128, s: Shape, n: nat) -> nat
    decreases n,
{
    if n == 0 {
        0
    } else {
        bitmask_upto(v, s, (n - 1) as nat) + if lane(v, s, n - 1) >= lane_mod(s) / 2 { pow2((n - 1) as nat) } else { 0 }
    }
}

pub open spec fn shuffle_ok(idx: u128) -> bool {
    forall|j: int| 0 <= j < 16 ==> lane(idx, Shape::I8x16, j) < 32
}

pub open spec fn shuffle(a: u128, b: u128, idx: u128) -> u128 {
    pack_with(Shape::I8x16, |j: int| {
        let i = lane(idx, Shape::I8x16, j);
        if i < 16 { lane(a, Shape::I8x16, i as int) } else { lane(b, Shape::I8x16, i - 16) }
    })
}

pub open spec fn swizzle(a: u128, sel: u128) -> u128 {
    pack_with(Shape::I8x16, |j: int| {
        let i = lane(sel, Shape::I8x16, j);
        if i < 16 { lane(a, Shape::I8x16, i as int) } else { 0 }
    })
}

/// Lanes of `a` then of `b` (of shape `wi`) saturated into the lanes of shape `s`.
pub open spec fn narrow(a: u128, b: u128, s: Shape, wi: Shape, signed: bool) -> u128 {
    pack_with(s, |j: int| {
        let n = lane_count(wi) as int;
        let x = signed_lane(if j < n { lane(a, wi, j) } else { lane(b, wi, j - n) }, wi);
        if signed { sat_s(x, s) } else { sat_u(x, s) }
    })
}

/// The low (or high) lanes of `a` (of shape `na`) widened into the lanes of shape `s`.
pub open spec fn extend(a: u128, s: Shape, na: Shape, high: bool, signed: bool) -> u128 {
    pack_with(s, |j: int| {
        let off = if high { lane_count(s) as int } else { 0 };
        wrap_lane(ext(lane(a, na, off + j), na, signed), s)
    })
}

pub open spec fn ext_add_pairwise(a: u128, s: Shape, na: Shape, signed: bool) -> u128 {
    pack_with(s, |j: int| wrap_lane(ext(lane(a, na, 2 * j), na, signed) + ext(lane(a, na, 2 * j + 1), na, signed), s))
}

pub open spec fn ext_mul(a: u128, b: u128, s: Shape, na: Shape, high: bool, signed: bool) -> u128 {
    pack_with(s, |j: int| {
        let off = if high { lane_count(s) as int } else { 0 };
        wrap_lane(ext(lane(a, na, off + j), na, signed) * ext(lane(b, na, off + j), na, signed), s)
    })
}

pub open spec fn dot(a: u128, b: u128, s: Shape, na: Shape) -> u128 {
    pack_with(s, |j: int| wrap_lane(
        signed_lane(lane(a, na, 2 * j), na) * signed_lane(lane(b, na, 2 * j), na)
            + signed_lane(lane(a, na, 2 * j + 1), na) * signed_lane(lane(b, na, 2 * j + 1), na), s))
}

pub open spec fn dot_add(a: u128, b: u128, c: u128) -> u128 {
    let d = dot(a, b, Shape::I16x8, Shape::I8x16);
    pack_with(Shape::I32x4, |j: int| wrap_lane(
        signed_lane(lane(d, Shape::I16x8, 2 * j), Shape::I16x8) + signed_lane(lane(d, Shape::I16x8, 2 * j + 1), Shape::I16x8)
            + signed_lane(lane(c, Shape::I32x4, j), Shape::I32x4), Shape::I32x4))
}

pub open spec fn q15mulr(a: u128, b: u128) -> u128 {
    pack_with(Shape::I16x8, |j: int| sat_s(
        (signed_lane(lane(a, Shape::I16x8, j), Shape::I16x8) * signed_lane(lane(b, Shape::I16x8, j), Shape::I16x8) + 0x4000) / 0x8000,
        Shape::I16x8))
}

/// The lanes of `v`, each below the lane modulus.
pub fn lanes_of(v: u128, s: Shape) -> (ls: Vec<u64>)
    ensures
        ls@.len() == lane_count(s),
        forall|j: int| 0 <= j < lane_count(s) ==> #[trigger] ls@[j] as nat == lane(v, s, j) && ls@[j] < lane_mod(s),
{
    let ls = split(v, s);
    proof {
        assert forall|j: int| 0 <= j < lane_count(s) implies #[trigger] ls@[j] as nat == lane(v, s, j) && ls@[j] < lane_mod(s) by {
            assert(nat_lanes(ls@)[j] == lanes(v, s)[j]);
        }
    }
    ls
}

/// The `v128` of shape `s` with lanes `out`, known to be `f` lane by lane.
fn pack_lanes(out: &Vec<u64>, s: Shape, Ghost(f): Ghost<spec_fn(int) -> nat>) -> (v: u128)
    requires
        out@.len() == lane_count(s),
        forall|j: int| 0 <= j < lane_count(s) ==> #[trigger] out@[j] as nat == f(j) && out@[j] < lane_mod(s),
    ensures
        v == pack_with(s, f),
{
    let v = join(out, s);
    proof { assert(nat_lanes(out@) =~= Seq::new(lane_count(s), f)); }
    v
}

pub fn map2_exec(a: u128, b: u128, s: Shape, k: LaneBin) -> (r: u128)
    ensures
        r == map2(a, b, s, k),
{
    let la = lanes_of(a, s);
    let lb = lanes_of(b, s);
    let n = count(s);
    let ghost f = |j: int| lane_bin(k, s, lane(a, s, j), lane(b, s, j));
    let mut out: Vec<u64> = Vec::new();
    let mut j: usize = 0;
    while j < n
        invariant
            j <= n == lane_count(s),
            la@.len() == n && lb@.len() == n,
            forall|i: int| 0 <= i < n ==> #[trigger] la@[i] as nat == lane(a, s, i) && la@[i] < lane_mod(s),
            forall|i: int| 0 <= i < n ==> #[trigger] lb@[i] as nat == lane(b, s, i) && lb@[i] < lane_mod(s),
            out@.len() == j,
            forall|i: int| 0 <= i < j ==> #[trigger] out@[i] as nat == lane_bin(k, s, lane(a, s, i), lane(b, s, i)) && out@[i] < lane_mod(s),
        decreases n - j,
    {
        out.push(lane_bin_exec(k, s, la[j], lb[j]));
        j = j + 1;
    }
    pack_lanes(&out, s, Ghost(f))
}

pub fn map1_exec(a: u128, s: Shape, k: LaneUn) -> (r: u128)
    ensures
        r == map1(a, s, k),
{
    let la = lanes_of(a, s);
    let n = count(s);
    let ghost f = |j: int| lane_un(k, s, lane(a, s, j));
    let mut out: Vec<u64> = Vec::new();
    let mut j: usize = 0;
    while j < n
        invariant
            j <= n == lane_count(s),
            la@.len() == n,
            forall|i: int| 0 <= i < n ==> #[trigger] la@[i] as nat == lane(a, s, i) && la@[i] < lane_mod(s),
            out@.len() == j,
            forall|i: int| 0 <= i < j ==> #[trigger] out@[i] as nat == lane_un(k, s, lane(a, s, i)) && out@[i] < lane_mod(s),
        decreases n - j,
    {
        out.push(lane_un_exec(k, s, la[j]));
        j = j + 1;
    }
    pack_lanes(&out, s, Ghost(f))
}

pub fn shift_exec(a: u128, s: Shape, k: ShiftKind, c: u32) -> (r: u128)
    ensures
        r == shift_lanes(a, s, k, c),
{
    let la = lanes_of(a, s);
    let n = count(s);
    let ghost f = |j: int| lane_shift(k, s, lane(a, s, j), c);
    let mut out: Vec<u64> = Vec::new();
    let mut j: usize = 0;
    while j < n
        invariant
            j <= n == lane_count(s),
            la@.len() == n,
            forall|i: int| 0 <= i < n ==> #[trigger] la@[i] as nat == lane(a, s, i) && la@[i] < lane_mod(s),
            out@.len() == j,
            forall|i: int| 0 <= i < j ==> #[trigger] out@[i] as nat == lane_shift(k, s, lane(a, s, i), c) && out@[i] < lane_mod(s),
        decreases n - j,
    {
        out.push(lane_shift_exec(k, s, la[j], c));
        j = j + 1;
    }
    pack_lanes(&out, s, Ghost(f))
}

pub fn splat_exec(x: u64, s: Shape) -> (r: u128)
    ensures
        r == splat(x as nat, s),
{
    let m = modulus(s);
    let n = count(s);
    let lx = (x as u128 % m) as u64;
    let ghost f = |j: int| x as nat % lane_mod(s);
    let mut out: Vec<u64> = Vec::new();
    let mut j: usize = 0;
    while j < n
        invariant
            j <= n == lane_count(s),
            m == lane_mod(s),
            lx as nat == x as nat % lane_mod(s),
            out@.len() == j,
            forall|i: int| 0 <= i < j ==> #[trigger] out@[i] as nat == x as nat % lane_mod(s) && out@[i] < lane_mod(s),
        decreases n - j,
    {
        out.push(lx);
        j = j + 1;
    }
    pack_lanes(&out, s, Ghost(f))
}

pub fn replace_lane_exec(v: u128, s: Shape, l: usize, x: u64) -> (r: u128)
    requires
        l < lane_count(s),
    ensures
        r == replace_lane(v, s, l as int, x as nat),
{
    let mut ls = lanes_of(v, s);
    let m = modulus(s);
    ls.set(l, (x as u128 % m) as u64);
    let r = join(&ls, s);
    proof { assert(nat_lanes(ls@) =~= lanes(v, s).update(l as int, x as nat % lane_mod(s))); }
    r
}

pub fn all_true_exec(v: u128, s: Shape) -> (b: bool)
    ensures
        b == all_true(v, s),
{
    let ls = lanes_of(v, s);
    let n = count(s);
    let mut j: usize = 0;
    while j < n
        invariant
            j <= n == lane_count(s),
            ls@.len() == n,
            forall|i: int| 0 <= i < n ==> #[trigger] ls@[i] as nat == lane(v, s, i),
            forall|i: int| 0 <= i < j ==> lane(v, s, i) != 0,
        decreases n - j,
    {
        if ls[j] == 0 {
            assert(ls@[j as int] as nat == lane(v, s, j as int));
            return false;
        }
        j = j + 1;
    }
    true
}

pub fn bitmask_exec(v: u128, s: Shape) -> (r: u32)
    ensures
        r == bitmask_upto(v, s, lane_count(s)),
{
    let ls = lanes_of(v, s);
    let n = count(s);
    let h = (modulus(s) / 2) as u64;
    let mut acc: u32 = 0;
    let mut bit: u32 = 1;
    let mut j: usize = 0;
    proof { lemma2_to64(); }
    while j < n
        invariant
            j <= n == lane_count(s),
            n <= 16,
            ls@.len() == n,
            h == lane_mod(s) / 2,
            forall|i: int| 0 <= i < n ==> #[trigger] ls@[i] as nat == lane(v, s, i),
            bit == pow2(j as nat),
            acc == bitmask_upto(v, s, j as nat),
            acc < bit,
            bit <= 0x1_0000,
            pow2(16) == 0x1_0000,
        decreases n - j,
    {
        proof {
            lemma_pow2_unfold((j + 1) as nat);
            assert(ls@[j as int] as nat == lane(v, s, j as int));
        }
        if ls[j] >= h {
            acc = acc + bit;
        }
        proof {
            if j + 1 < 16 { vstd::arithmetic::power2::lemma_pow2_strictly_increases((j + 1) as nat, 16); }
        }
        bit = bit * 2;
        j = j + 1;
    }
    acc
}

pub fn shuffle_exec(a: u128, b: u128, idx: u128) -> (r: Option<u128>)
    ensures
        shuffle_ok(idx) ==> r == Some(shuffle(a, b, idx)),
        !shuffle_ok(idx) ==> r is None,
{
    let la = lanes_of(a, Shape::I8x16);
    let lb = lanes_of(b, Shape::I8x16);
    let li = lanes_of(idx, Shape::I8x16);
    let ghost f = |j: int| {
        let i = lane(idx, Shape::I8x16, j);
        if i < 16 { lane(a, Shape::I8x16, i as int) } else { lane(b, Shape::I8x16, i - 16) }
    };
    let mut out: Vec<u64> = Vec::new();
    let mut j: usize = 0;
    while j < 16
        invariant
            j <= 16,
            la@.len() == 16 && lb@.len() == 16 && li@.len() == 16,
            forall|i: int| 0 <= i < 16 ==> #[trigger] la@[i] as nat == lane(a, Shape::I8x16, i) && la@[i] < 256,
            forall|i: int| 0 <= i < 16 ==> #[trigger] lb@[i] as nat == lane(b, Shape::I8x16, i) && lb@[i] < 256,
            forall|i: int| 0 <= i < 16 ==> #[trigger] li@[i] as nat == lane(idx, Shape::I8x16, i),
            forall|i: int| 0 <= i < j ==> lane(idx, Shape::I8x16, i) < 32,
            out@.len() == j,
            forall|i: int| 0 <= i < j ==> #[trigger] out@[i] as nat == (if lane(idx, Shape::I8x16, i) < 16 {
                lane(a, Shape::I8x16, lane(idx, Shape::I8x16, i) as int) } else { lane(b, Shape::I8x16, lane(idx, Shape::I8x16, i) - 16) })
                && out@[i] < 256,
        decreases 16 - j,
    {
        let i = li[j];
        assert(li@[j as int] as nat == lane(idx, Shape::I8x16, j as int));
        if i >= 32 {
            return None;
        }
        if i < 16 {
            out.push(la[i as usize]);
        } else {
            out.push(lb[(i - 16) as usize]);
        }
        j = j + 1;
    }
    Some(pack_lanes(&out, Shape::I8x16, Ghost(f)))
}

pub fn swizzle_exec(a: u128, sel: u128) -> (r: u128)
    ensures
        r == swizzle(a, sel),
{
    let la = lanes_of(a, Shape::I8x16);
    let ls = lanes_of(sel, Shape::I8x16);
    let ghost f = |j: int| {
        let i = lane(sel, Shape::I8x16, j);
        if i < 16 { lane(a, Shape::I8x16, i as int) } else { 0 }
    };
    let mut out: Vec<u64> = Vec::new();
    let mut j: usize = 0;
    while j < 16
        invariant
            j <= 16,
            la@.len() == 16 && ls@.len() == 16,
            forall|i: int| 0 <= i < 16 ==> #[trigger] la@[i] as nat == lane(a, Shape::I8x16, i) && la@[i] < 256,
            forall|i: int| 0 <= i < 16 ==> #[trigger] ls@[i] as nat == lane(sel, Shape::I8x16, i),
            out@.len() == j,
            forall|i: int| 0 <= i < j ==> #[trigger] out@[i] as nat == (if lane(sel, Shape::I8x16, i) < 16 {
                lane(a, Shape::I8x16, lane(sel, Shape::I8x16, i) as int) } else { 0 }) && out@[i] < 256,
        decreases 16 - j,
    {
        let i = ls[j];
        assert(ls@[j as int] as nat == lane(sel, Shape::I8x16, j as int));
        if i < 16 {
            out.push(la[i as usize]);
        } else {
            out.push(0);
        }
        j = j + 1;
    }
    pack_lanes(&out, Shape::I8x16, Ghost(f))
}

/// The neighbouring shapes: lanes of half the width are twice as many, and the wide modulus is
/// the square of the narrow one.
pub proof fn lemma_narrower(s: Shape, na: Shape)
    requires
        narrower(s) == Some(na),
    ensures
        lane_mod(s) == lane_mod(na) * lane_mod(na),
        lane_count(na) == 2 * lane_count(s),
        lane_mod(na) >= 256,
        wider(na) == Some(s),
{
}

proof fn lemma_product_bound(x: int, y: int, h: int)
    requires
        -h <= x <= h,
        -h <= y <= h,
    ensures
        -(h * h) <= x * y <= h * h,
{
    if x >= 0 && y >= 0 {
        assert(x * y <= h * h) by (nonlinear_arith) requires 0 <= x <= h, 0 <= y <= h;
        assert(x * y >= 0) by (nonlinear_arith) requires 0 <= x, 0 <= y;
    } else if x < 0 && y < 0 {
        assert(x * y <= h * h) by (nonlinear_arith) requires -h <= x < 0, -h <= y < 0;
        assert(x * y >= 0) by (nonlinear_arith) requires x < 0, y < 0;
    } else if x < 0 {
        assert(x * y >= -(h * h)) by (nonlinear_arith) requires -h <= x < 0, 0 <= y <= h;
        assert(x * y <= 0) by (nonlinear_arith) requires x < 0, 0 <= y;
    } else {
        assert(x * y >= -(h * h)) by (nonlinear_arith) requires 0 <= x <= h, -h <= y < 0;
        assert(x * y <= 0) by (nonlinear_arith) requires 0 <= x, y < 0;
    }
}

/// A lane read signed or unsigned.
pub fn ext_exec(x: u64, s: Shape, signed: bool) -> (i: i128)
    requires
        x < lane_mod(s),
    ensures
        i == ext(x as nat, s, signed),
        -(lane_mod(s) as int / 2) <= i < lane_mod(s),
        signed ==> i < lane_mod(s) as int / 2,
        !signed ==> i >= 0,
{
    if signed { to_signed(x, s) } else { x as i128 }
}

pub fn narrow_exec(a: u128, b: u128, s: Shape, wi: Shape, signed: bool) -> (r: u128)
    requires
        wider(s) == Some(wi),
    ensures
        r == narrow(a, b, s, wi, signed),
{
    proof { lemma_narrower(wi, s); }
    let la = lanes_of(a, wi);
    let lb = lanes_of(b, wi);
    let n = count(wi);
    let total = count(s);
    let ghost f = |j: int| {
        let n = lane_count(wi) as int;
        let x = signed_lane(if j < n { lane(a, wi, j) } else { lane(b, wi, j - n) }, wi);
        if signed { sat_s(x, s) } else { sat_u(x, s) }
    };
    let mut out: Vec<u64> = Vec::new();
    let mut j: usize = 0;
    while j < total
        invariant
            j <= total == lane_count(s),
            n == lane_count(wi),
            total == 2 * n,
            la@.len() == n && lb@.len() == n,
            forall|i: int| 0 <= i < n ==> #[trigger] la@[i] as nat == lane(a, wi, i) && la@[i] < lane_mod(wi),
            forall|i: int| 0 <= i < n ==> #[trigger] lb@[i] as nat == lane(b, wi, i) && lb@[i] < lane_mod(wi),
            out@.len() == j,
            forall|i: int| 0 <= i < j ==> #[trigger] out@[i] as nat == ({
                let x = signed_lane(if i < n { lane(a, wi, i) } else { lane(b, wi, i - n) }, wi);
                if signed { sat_s(x, s) } else { sat_u(x, s) }
            }) && out@[i] < lane_mod(s),
        decreases total - j,
    {
        let x = if j < n { la[j] } else { lb[j - n] };
        let sx = to_signed(x, wi);
        let y = if signed { saturate_s(sx, s) } else { saturate_u(sx, s) };
        out.push(y);
        j = j + 1;
    }
    pack_lanes(&out, s, Ghost(f))
}

pub fn extend_exec(a: u128, s: Shape, na: Shape, high: bool, signed: bool) -> (r: u128)
    requires
        narrower(s) == Some(na),
    ensures
        r == extend(a, s, na, high, signed),
{
    proof { lemma_narrower(s, na); }
    let la = lanes_of(a, na);
    let n = count(s);
    let off: usize = if high { n } else { 0 };
    let ghost f = |j: int| {
        let off = if high { lane_count(s) as int } else { 0 };
        wrap_lane(ext(lane(a, na, off + j), na, signed), s)
    };
    let mut out: Vec<u64> = Vec::new();
    let mut j: usize = 0;
    while j < n
        invariant
            j <= n == lane_count(s),
            la@.len() == 2 * n,
            off as int == if high { n as int } else { 0 },
            lane_mod(s) == lane_mod(na) * lane_mod(na),
            lane_mod(na) >= 256,
            forall|i: int| 0 <= i < 2 * n ==> #[trigger] la@[i] as nat == lane(a, na, i) && la@[i] < lane_mod(na),
            out@.len() == j,
            forall|i: int| 0 <= i < j ==> #[trigger] out@[i] as nat == wrap_lane(ext(lane(a, na, off + i), na, signed), s)
                && out@[i] < lane_mod(s),
        decreases n - j,
    {
        let x = ext_exec(la[off + j], na, signed);
        assert(lane_mod(na) <= lane_mod(s)) by (nonlinear_arith)
            requires lane_mod(s) == lane_mod(na) * lane_mod(na), lane_mod(na) >= 256;
        out.push(wrap(x, s));
        j = j + 1;
    }
    pack_lanes(&out, s, Ghost(f))
}

pub fn ext_add_pairwise_exec(a: u128, s: Shape, na: Shape, signed: bool) -> (r: u128)
    requires
        narrower(s) == Some(na),
    ensures
        r == ext_add_pairwise(a, s, na, signed),
{
    proof { lemma_narrower(s, na); }
    let la = lanes_of(a, na);
    let n = count(s);
    let ghost f = |j: int| wrap_lane(ext(lane(a, na, 2 * j), na, signed) + ext(lane(a, na, 2 * j + 1), na, signed), s);
    let mut out: Vec<u64> = Vec::new();
    let mut j: usize = 0;
    while j < n
        invariant
            j <= n == lane_count(s),
            la@.len() == 2 * n,
            lane_mod(s) == lane_mod(na) * lane_mod(na),
            lane_mod(na) >= 256,
            forall|i: int| 0 <= i < 2 * n ==> #[trigger] la@[i] as nat == lane(a, na, i) && la@[i] < lane_mod(na),
            out@.len() == j,
            forall|i: int| 0 <= i < j ==> #[trigger] out@[i] as nat
                == wrap_lane(ext(lane(a, na, 2 * i), na, signed) + ext(lane(a, na, 2 * i + 1), na, signed), s)
                && out@[i] < lane_mod(s),
        decreases n - j,
    {
        let x = ext_exec(la[2 * j], na, signed);
        let y = ext_exec(la[2 * j + 1], na, signed);
        assert(2 * lane_mod(na) <= lane_mod(s)) by (nonlinear_arith)
            requires lane_mod(s) == lane_mod(na) * lane_mod(na), lane_mod(na) >= 256;
        out.push(wrap(x + y, s));
        j = j + 1;
    }
    pack_lanes(&out, s, Ghost(f))
}

pub fn ext_mul_exec(a: u128, b: u128, s: Shape, na: Shape, high: bool, signed: bool) -> (r: u128)
    requires
        narrower(s) == Some(na),
    ensures
        r == ext_mul(a, b, s, na, high, signed),
{
    proof { lemma_narrower(s, na); }
    let la = lanes_of(a, na);
    let lb = lanes_of(b, na);
    let n = count(s);
    let off: usize = if high { n } else { 0 };
    let ghost f = |j: int| {
        let off = if high { lane_count(s) as int } else { 0 };
        wrap_lane(ext(lane(a, na, off + j), na, signed) * ext(lane(b, na, off + j), na, signed), s)
    };
    let mut out: Vec<u64> = Vec::new();
    let mut j: usize = 0;
    while j < n
        invariant
            j <= n == lane_count(s),
            la@.len() == 2 * n && lb@.len() == 2 * n,
            off as int == if high { n as int } else { 0 },
            lane_mod(s) == lane_mod(na) * lane_mod(na),
            lane_mod(na) >= 256,
            lane_mod(na) <= 0x1_0000_0000,
            forall|i: int| 0 <= i < 2 * n ==> #[trigger] la@[i] as nat == lane(a, na, i) && la@[i] < lane_mod(na),
            forall|i: int| 0 <= i < 2 * n ==> #[trigger] lb@[i] as nat == lane(b, na, i) && lb@[i] < lane_mod(na),
            out@.len() == j,
            forall|i: int| 0 <= i < j ==> #[trigger] out@[i] as nat
                == wrap_lane(ext(lane(a, na, off + i), na, signed) * ext(lane(b, na, off + i), na, signed), s)
                && out@[i] < lane_mod(s),
        decreases n - j,
    {
        let x = ext_exec(la[off + j], na, signed);
        let y = ext_exec(lb[off + j], na, signed);
        let ghost mm = lane_mod(na) as int;
        proof { lemma_product_bound(x as int, y as int, mm); }
        assert(mm * mm <= 0x1_0000_0000_0000_0000) by (nonlinear_arith) requires 0 < mm <= 0x1_0000_0000;
        out.push(wrap(x * y, s));
        j = j + 1;
    }
    pack_lanes(&out, s, Ghost(f))
}

pub fn dot_exec(a: u128, b: u128, s: Shape, na: Shape) -> (r: u128)
    requires
        narrower(s) == Some(na),
    ensures
        r == dot(a, b, s, na),
{
    proof { lemma_narrower(s, na); }
    let la = lanes_of(a, na);
    let lb = lanes_of(b, na);
    let n = count(s);
    let ghost f = |j: int| wrap_lane(
        signed_lane(lane(a, na, 2 * j), na) * signed_lane(lane(b, na, 2 * j), na)
            + signed_lane(lane(a, na, 2 * j + 1), na) * signed_lane(lane(b, na, 2 * j + 1), na), s);
    let mut out: Vec<u64> = Vec::new();
    let mut j: usize = 0;
    while j < n
        invariant
            j <= n == lane_count(s),
            la@.len() == 2 * n && lb@.len() == 2 * n,
            lane_mod(s) == lane_mod(na) * lane_mod(na),
            lane_mod(na) >= 256,
            lane_mod(na) <= 0x1_0000_0000,
            forall|i: int| 0 <= i < 2 * n ==> #[trigger] la@[i] as nat == lane(a, na, i) && la@[i] < lane_mod(na),
            forall|i: int| 0 <= i < 2 * n ==> #[trigger] lb@[i] as nat == lane(b, na, i) && lb@[i] < lane_mod(na),
            out@.len() == j,
            forall|i: int| 0 <= i < j ==> #[trigger] out@[i] as nat == wrap_lane(
                signed_lane(lane(a, na, 2 * i), na) * signed_lane(lane(b, na, 2 * i), na)
                    + signed_lane(lane(a, na, 2 * i + 1), na) * signed_lane(lane(b, na, 2 * i + 1), na), s)
                && out@[i] < lane_mod(s),
        decreases n - j,
    {
        let x0 = to_signed(la[2 * j], na);
        let y0 = to_signed(lb[2 * j], na);
        let x1 = to_signed(la[2 * j + 1], na);
        let y1 = to_signed(lb[2 * j + 1], na);
        let ghost h = lane_mod(na) as int / 2;
        proof {
            lemma_product_bound(x0 as int, y0 as int, h);
            lemma_product_bound(x1 as int, y1 as int, h);
            assert(2 * (h * h) <= lane_mod(s)) by (nonlinear_arith)
                requires lane_mod(s) == lane_mod(na) * lane_mod(na), h == lane_mod(na) as int / 2, lane_mod(na) >= 256;
            assert(h * h <= 0x4000_0000_0000_0000) by (nonlinear_arith) requires 0 <= h <= 0x8000_0000;
        }
        out.push(wrap(x0 * y0 + x1 * y1, s));
        j = j + 1;
    }
    pack_lanes(&out, s, Ghost(f))
}

pub fn q15mulr_exec(a: u128, b: u128) -> (r: u128)
    ensures
        r == q15mulr(a, b),
{
    let la = lanes_of(a, Shape::I16x8);
    let lb = lanes_of(b, Shape::I16x8);
    let ghost f = |j: int| sat_s(
        (signed_lane(lane(a, Shape::I16x8, j), Shape::I16x8) * signed_lane(lane(b, Shape::I16x8, j), Shape::I16x8) + 0x4000) / 0x8000,
        Shape::I16x8);
    let mut out: Vec<u64> = Vec::new();
    let mut j: usize = 0;
    while j < 8
        invariant
            j <= 8,
            la@.len() == 8 && lb@.len() == 8,
            forall|i: int| 0 <= i < 8 ==> #[trigger] la@[i] as nat == lane(a, Shape::I16x8, i) && la@[i] < 0x1_0000,
            forall|i: int| 0 <= i < 8 ==> #[trigger] lb@[i] as nat == lane(b, Shape::I16x8, i) && lb@[i] < 0x1_0000,
            out@.len() == j,
            forall|i: int| 0 <= i < j ==> #[trigger] out@[i] as nat == sat_s(
                (signed_lane(lane(a, Shape::I16x8, i), Shape::I16x8) * signed_lane(lane(b, Shape::I16x8, i), Shape::I16x8) + 0x4000) / 0x8000,
                Shape::I16x8) && out@[i] < 0x1_0000,
        decreases 8 - j,
    {
        let x = to_signed(la[j], Shape::I16x8);
        let y = to_signed(lb[j], Shape::I16x8);
        proof { lemma_product_bound(x as int, y as int, 0x8000); }
        let p = x * y + 0x4000;
        let u = (p + 0x8000_0000) as u128;
        let q = (u / 0x8000) as i128 - 0x1_0000;
        proof {
            let pq = p as int / 0x8000;
            let pr = p as int % 0x8000;
            assert(p as int == pq * 0x8000 + pr);
            lemma_fundamental_div_mod_converse(u as int, 0x8000, pq + 0x1_0000, pr);
        }
        out.push(saturate_s(q, Shape::I16x8));
        j = j + 1;
    }
    pack_lanes(&out, Shape::I16x8, Ghost(f))
}

pub fn dot_add_exec(a: u128, b: u128, c: u128) -> (r: u128)
    ensures
        r == dot_add(a, b, c),
{
    let d = dot_exec(a, b, Shape::I16x8, Shape::I8x16);
    let ld = lanes_of(d, Shape::I16x8);
    let lc = lanes_of(c, Shape::I32x4);
    let ghost f = |j: int| wrap_lane(
        signed_lane(lane(d, Shape::I16x8, 2 * j), Shape::I16x8) + signed_lane(lane(d, Shape::I16x8, 2 * j + 1), Shape::I16x8)
            + signed_lane(lane(c, Shape::I32x4, j), Shape::I32x4), Shape::I32x4);
    let mut out: Vec<u64> = Vec::new();
    let mut j: usize = 0;
    while j < 4
        invariant
            j <= 4,
            ld@.len() == 8 && lc@.len() == 4,
            forall|i: int| 0 <= i < 8 ==> #[trigger] ld@[i] as nat == lane(d, Shape::I16x8, i) && ld@[i] < 0x1_0000,
            forall|i: int| 0 <= i < 4 ==> #[trigger] lc@[i] as nat == lane(c, Shape::I32x4, i) && lc@[i] < 0x1_0000_0000,
            out@.len() == j,
            forall|i: int| 0 <= i < j ==> #[trigger] out@[i] as nat == wrap_lane(
                signed_lane(lane(d, Shape::I16x8, 2 * i), Shape::I16x8) + signed_lane(lane(d, Shape::I16x8, 2 * i + 1), Shape::I16x8)
                    + signed_lane(lane(c, Shape::I32x4, i), Shape::I32x4), Shape::I32x4) && out@[i] < 0x1_0000_0000,
        decreases 4 - j,
    {
        let x = to_signed(ld[2 * j], Shape::I16x8);
        let y = to_signed(ld[2 * j + 1], Shape::I16x8);
        let z = to_signed(lc[j], Shape::I32x4);
        out.push(wrap(x + y + z, Shape::I32x4));
        j = j + 1;
    }
    proof { assert(d == dot(a, b, Shape::I16x8, Shape::I8x16)); }
    pack_lanes(&out, Shape::I32x4, Ghost(f))
}

} // verus!
