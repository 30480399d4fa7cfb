//! Lane arithmetic: what one lane of a lanewise SIMD instruction computes from the operands' lanes.
//! Lanes are raw bit patterns (`0 <= x < 2^bits`); the signed instructions read them as two's
//! complement, and every result is reduced back to the lane's width.
use vstd::prelude::*;
use vstd::arithmetic::power2::{pow2, lemma_pow2_unfold, lemma_pow2_adds, lemma_pow2_pos, lemma_pow2_strictly_increases, lemma2_to64};
use vstd::arithmetic::div_mod::{lemma_fundamental_div_mod, lemma_fundamental_div_mod_converse};
use crate::exec::int32::popcount;
use crate::exec::simd::lanes::{Shape, lane_mod, lane_bits, modulus, lemma_shape_total};

verus! {

/// A lanewise instruction of two operands.
#[derive(Copy, Clone, PartialEq, Eq, Structural, Debug)]
pub enum LaneBin {
    Add,
    Sub,
    Mul,
    MinS,
    MinU,
    MaxS,
    MaxU,
    /// Unsigned rounding average.
    AvgrU,
    AddSatS,
    AddSatU,
    SubSatS,
    SubSatU,
    /// The comparisons give an all-ones lane when they hold and a zero lane otherwise.
    Eq,
    Ne,
    LtS,
    LtU,
    GtS,
    GtU,
    LeS,
    LeU,
    GeS,
    GeU,
}

/// A lanewise instruction of one operand.
#[derive(Copy, Clone, PartialEq, Eq, Structural, Debug)]
pub enum LaneUn {
    Neg,
    Abs,
    Popcnt,
}

/// A lanewise shift by a scalar count, taken modulo the lane width.
#[derive(Copy, Clone, PartialEq, Eq, Structural, Debug)]
pub enum ShiftKind {
    Shl,
    ShrS,
    ShrU,
}

/// The two's-complement value of lane bits `x`.
pub open spec fn signed_lane(x: nat, s: Shape) -> int {
    if x < lane_mod(s) / 2 { x as int } else { x - lane_mod(s) }
}

/// The lane bits of an integer: the integer modulo `2^bits`.
pub open spec fn wrap_lane(i: int, s: Shape) -> nat {
    (i % (lane_mod(s) as int)) as nat
}

pub open spec fn clamp(i: int, lo: int, hi: int) -> int {
    if i < lo { lo } else if i > hi { hi } else { i }
}

/// `i` saturated to the signed range of the lane, as lane bits.
pub open spec fn sat_s(i: int, s: Shape) -> nat {
    wrap_lane(clamp(i, -(lane_mod(s) as int / 2), lane_mod(s) as int / 2 - 1), s)
}

/// `i` saturated to the unsigned range of the lane.
pub open spec fn sat_u(i: int, s: Shape) -> nat {
    clamp(i, 0, lane_mod(s) - 1) as nat
}

/// An all-ones lane for `true`, a zero lane for `false`.
pub open spec fn lane_mask(b: bool, s: Shape) -> nat {
    if b { (lane_mod(s) - 1) as nat } else { 0 }
}

/// One result lane of a lanewise instruction of two operands.
pub open spec fn lane_bin(k: LaneBin, s: Shape, x: nat, y: nat) -> nat {
    let sx = signed_lane(x, s);
    let sy = signed_lane(y, s);
    match k {
        LaneBin::Add => wrap_lane((x + y) as int, s),
        LaneBin::Sub => wrap_lane(x - y, s),
        LaneBin::Mul => wrap_lane((x * y) as int, s),
        LaneBin::MinS => if sx <= sy { x } else { y },
        LaneBin::MinU => if x <= y { x } else { y },
        LaneBin::MaxS => if sx >= sy { x } else { y },
        LaneBin::MaxU => if x >= y { x } else { y },
        LaneBin::AvgrU => (x + y + 1) / 2,
        LaneBin::AddSatS => sat_s(sx + sy, s),
        LaneBin::AddSatU => sat_u((x + y) as int, s),
        LaneBin::SubSatS => sat_s(sx - sy, s),
        LaneBin::SubSatU => sat_u(x - y, s),
        LaneBin::Eq => lane_mask(x == y, s),
        LaneBin::Ne => lane_mask(x != y, s),
        LaneBin::LtS => lane_mask(sx < sy, s),
        LaneBin::LtU => lane_mask(x < y, s),
        LaneBin::GtS => lane_mask(sx > sy, s),
        LaneBin::GtU => lane_mask(x > y, s),
        LaneBin::LeS => lane_mask(sx <= sy, s),
        LaneBin::LeU => lane_mask(x <= y, s),
        LaneBin::GeS => lane_mask(sx >= sy, s),
        LaneBin::GeU => lane_mask(x >= y, s),
    }
}

/// One result lane of a lanewise instruction of one operand.
pub open spec fn lane_un(k: LaneUn, s: Shape, x: nat) -> nat {
    match k {
        LaneUn::Neg => wrap_lane(-x, s),
        LaneUn::Abs => if signed_lane(x, s) < 0 { wrap_lane(-signed_lane(x, s), s) } else { x },
        LaneUn::Popcnt => popcount(x),
    }
}

/// The shift distance of a count: the count modulo the lane width.
pub open spec fn shift_distance(c: u32, s: Shape) -> nat {
    c as nat % lane_bits(s)
}

/// One result lane of a shift by count `c`.
pub open spec fn lane_shift(k: ShiftKind, s: Shape, x: nat, c: u32) -> nat {
    let p = pow2(shift_distance(c, s));
    match k {
        ShiftKind::Shl => (x * p) % lane_mod(s),
        ShiftKind::ShrU => x / p,
        ShiftKind::ShrS => wrap_lane(signed_lane(x, s) / (p as int), s),
    }
}

/// Lanewise arithmetic on lane values `x y`: subtracting `y` undoes adding it; `min` and `max`
/// (signed or unsigned) pick one operand each, together the pair; the saturating forms give the
/// exact result when it fits and the nearest bound otherwise; each comparison gives an all-ones
/// or a zero lane, the strict ones mirror each other when the operands swap, and `le` is the
/// complement of `gt`.
#[verifier::spinoff_prover]
pub proof fn lemma_lane_arith(s: Shape, x: nat, y: nat)
    requires
        x < lane_mod(s),
        y < lane_mod(s),
    ensures
        lane_bin(LaneBin::Sub, s, lane_bin(LaneBin::Add, s, x, y), y) == x,
        lane_bin(LaneBin::Add, s, x, y) < lane_mod(s),
        lane_bin(LaneBin::MinU, s, x, y) <= x && lane_bin(LaneBin::MinU, s, x, y) <= y,
        lane_bin(LaneBin::MinU, s, x, y) + lane_bin(LaneBin::MaxU, s, x, y) == x + y,
        lane_bin(LaneBin::MinS, s, x, y) + lane_bin(LaneBin::MaxS, s, x, y) == x + y,
        signed_lane(lane_bin(LaneBin::MinS, s, x, y), s) <= signed_lane(x, s)
            && signed_lane(lane_bin(LaneBin::MinS, s, x, y), s) <= signed_lane(y, s),
        x + y < lane_mod(s) ==> lane_bin(LaneBin::AddSatU, s, x, y) == x + y,
        x + y >= lane_mod(s) ==> lane_bin(LaneBin::AddSatU, s, x, y) == lane_mod(s) - 1,
        x >= y ==> lane_bin(LaneBin::SubSatU, s, x, y) == x - y,
        x < y ==> lane_bin(LaneBin::SubSatU, s, x, y) == 0,
        lane_bin(LaneBin::LtS, s, x, y) == lane_bin(LaneBin::GtS, s, y, x),
        lane_bin(LaneBin::LtU, s, x, y) == lane_bin(LaneBin::GtU, s, y, x),
        lane_bin(LaneBin::LeS, s, x, y) + lane_bin(LaneBin::GtS, s, x, y) == lane_mod(s) - 1,
        lane_bin(LaneBin::LeU, s, x, y) + lane_bin(LaneBin::GtU, s, x, y) == lane_mod(s) - 1,
        lane_bin(LaneBin::Eq, s, x, y) == (if x == y { (lane_mod(s) - 1) as nat } else { 0 }),
        lane_bin(LaneBin::LtU, s, x, y) == (if x < y { (lane_mod(s) - 1) as nat } else { 0 }),
        lane_bin(LaneBin::AvgrU, s, x, y) == (x + y + 1) / 2,
{
    let m = lane_mod(s) as int;
    let a = lane_bin(LaneBin::Add, s, x, y);
    assert(a == (x as int + y as int) % m);
    assert(((x as int + y as int) % m - y) % m == x) by (nonlinear_arith)
        requires 0 <= x < m, 0 <= y < m, m > 0;
}

/// A lane of one operand: `neg` added to the lane gives zero, and `abs` gives the lane's
/// magnitude (the most negative lane value stays as it is).
#[verifier::spinoff_prover]
pub proof fn lemma_lane_neg_abs(s: Shape, x: nat)
    requires
        x < lane_mod(s),
    ensures
        (lane_un(LaneUn::Neg, s, x) + x) % lane_mod(s) == 0,
        signed_lane(x, s) >= 0 ==> lane_un(LaneUn::Abs, s, x) == x,
        signed_lane(x, s) < 0 ==> lane_un(LaneUn::Abs, s, x) == lane_mod(s) - x,
{
    let m = lane_mod(s) as int;
    assert(((-(x as int)) % m + x) % m == 0) by (nonlinear_arith) requires 0 <= x < m, m > 0;
}

/// Lane shifts use the count modulo the lane width; a left shift by one doubles the lane
/// (wrapping), and an unsigned right shift by one halves it.
#[verifier::spinoff_prover]
pub proof fn lemma_lane_shift_count(k: ShiftKind, s: Shape, x: nat, c: u32)
    requires
        x < lane_mod(s),
    ensures
        lane_shift(k, s, x, c) == lane_shift(k, s, x, (c as nat % lane_bits(s)) as u32),
        lane_shift(ShiftKind::Shl, s, x, 1) == (2 * x) % lane_mod(s),
        lane_shift(ShiftKind::ShrU, s, x, 1) == x / 2,
{
    assert((c as nat % lane_bits(s)) % lane_bits(s) == c as nat % lane_bits(s)) by (nonlinear_arith)
        requires lane_bits(s) > 0;
    assert(1nat % lane_bits(s) == 1);
    vstd::arithmetic::power2::lemma2_to64();
    assert(shift_distance(1, s) == 1);
    assert(pow2(1) == 2);
    assert(x * 2 == 2 * x);
}

pub proof fn lemma_popcount_le(x: nat)
    ensures
        popcount(x) <= x,
    decreases x,
{
    if x > 0 {
        lemma_popcount_le(x / 2);
    }
}

/// The two's-complement value of lane bits `x`.
pub fn to_signed(x: u64, s: Shape) -> (i: i128)
    requires
        x < lane_mod(s),
    ensures
        i == signed_lane(x as nat, s),
        -(lane_mod(s) as int / 2) <= i < lane_mod(s) as int / 2,
{
    let m = modulus(s);
    if (x as u128) < m / 2 {
        x as i128
    } else {
        x as i128 - m as i128
    }
}

/// The lane bits of an integer within one modulus of the lane range.
pub fn wrap(i: i128, s: Shape) -> (r: u64)
    requires
        -(lane_mod(s) as int) <= i < 2 * lane_mod(s),
    ensures
        r == wrap_lane(i as int, s),
        r < lane_mod(s),
{
    let m = modulus(s) as i128;
    let (q, r): (i128, i128) = if i < 0 { (-1, i + m) } else if i >= m { (1, i - m) } else { (0, i) };
    proof { lemma_fundamental_div_mod_converse(i as int, m as int, q as int, r as int); }
    r as u64
}

pub fn saturate_s(i: i128, s: Shape) -> (r: u64)
    ensures
        r == sat_s(i as int, s),
        r < lane_mod(s),
{
    let h = (modulus(s) / 2) as i128;
    let c = if i < -h { -h } else if i > h - 1 { h - 1 } else { i };
    wrap(c, s)
}

pub fn saturate_u(i: i128, s: Shape) -> (r: u64)
    ensures
        r == sat_u(i as int, s),
        r < lane_mod(s),
{
    let m = modulus(s) as i128;
    let c = if i < 0 { 0 } else if i > m - 1 { m - 1 } else { i };
    c as u64
}

fn mask(b: bool, s: Shape) -> (r: u64)
    ensures
        r == lane_mask(b, s),
        r < lane_mod(s),
{
    if b { (modulus(s) - 1) as u64 } else { 0 }
}

/// One result lane of a lanewise instruction of two operands.
pub fn lane_bin_exec(k: LaneBin, s: Shape, x: u64, y: u64) -> (r: u64)
    requires
        x < lane_mod(s),
        y < lane_mod(s),
    ensures
        r == lane_bin(k, s, x as nat, y as nat),
        r < lane_mod(s),
{
    let m = modulus(s);
    match k {
        LaneBin::Add => wrap(x as i128 + y as i128, s),
        LaneBin::Sub => wrap(x as i128 - y as i128, s),
        LaneBin::Mul => {
            assert((x as u128) * (y as u128) <= 0xffff_ffff_ffff_ffff * 0xffff_ffff_ffff_ffff) by (nonlinear_arith)
                requires x <= 0xffff_ffff_ffff_ffff, y <= 0xffff_ffff_ffff_ffff;
            let p = (x as u128) * (y as u128);
            (p % m) as u64
        },
        LaneBin::MinS => if to_signed(x, s) <= to_signed(y, s) { x } else { y },
        LaneBin::MinU => if x <= y { x } else { y },
        LaneBin::MaxS => if to_signed(x, s) >= to_signed(y, s) { x } else { y },
        LaneBin::MaxU => if x >= y { x } else { y },
        LaneBin::AvgrU => ((x as u128 + y as u128 + 1) / 2) as u64,
        LaneBin::AddSatS => saturate_s(to_signed(x, s) + to_signed(y, s), s),
        LaneBin::AddSatU => saturate_u(x as i128 + y as i128, s),
        LaneBin::SubSatS => saturate_s(to_signed(x, s) - to_signed(y, s), s),
        LaneBin::SubSatU => saturate_u(x as i128 - y as i128, s),
        LaneBin::Eq => mask(x == y, s),
        LaneBin::Ne => mask(x != y, s),
        LaneBin::LtS => mask(to_signed(x, s) < to_signed(y, s), s),
        LaneBin::LtU => mask(x < y, s),
        LaneBin::GtS => mask(to_signed(x, s) > to_signed(y, s), s),
        LaneBin::GtU => mask(x > y, s),
        LaneBin::LeS => mask(to_signed(x, s) <= to_signed(y, s), s),
        LaneBin::LeU => mask(x <= y, s),
        LaneBin::GeS => mask(to_signed(x, s) >= to_signed(y, s), s),
        LaneBin::GeU => mask(x >= y, s),
    }
}

/// One result lane of a lanewise instruction of one operand.
pub fn lane_un_exec(k: LaneUn, s: Shape, x: u64) -> (r: u64)
    requires
        x < lane_mod(s),
    ensures
        r == lane_un(k, s, x as nat),
        r < lane_mod(s),
{
    match k {
        LaneUn::Neg => wrap(-(x as i128), s),
        LaneUn::Abs => {
            let sx = to_signed(x, s);
            if sx < 0 { wrap(-sx, s) } else { x }
        },
        LaneUn::Popcnt => {
            let mut y = x;
            let mut n: u64 = 0;
            while y != 0
                invariant
                    popcount(y as nat) + n == popcount(x as nat),
                    n + y <= x,
                decreases y,
            {
                n = n + y % 2;
                y = y / 2;
            }
            n
        },
    }
}

/// `2^t` for a shift distance `t`.
fn pow2_exec(t: u32) -> (p: u128)
    requires
        t < 64,
    ensures
        p == pow2(t as nat),
        0 < p <= 0x8000_0000_0000_0000,
{
    let mut p: u128 = 1;
    let mut i: u32 = 0;
    proof { lemma2_to64(); vstd::arithmetic::power2::lemma2_to64_rest(); }
    while i < t
        invariant
            i <= t < 64,
            p == pow2(i as nat),
            pow2(63) == 0x8000_0000_0000_0000,
        decreases t - i,
    {
        proof {
            lemma_pow2_strictly_increases(i as nat, 63);
            lemma_pow2_unfold((i + 1) as nat);
        }
        p = p * 2;
        i = i + 1;
    }
    proof {
        lemma_pow2_pos(t as nat);
        if t < 63 { lemma_pow2_strictly_increases(t as nat, 63); }
    }
    p
}

/// For `p = 2^t` with `t` below the lane width, `p` divides the lane modulus.
proof fn lemma_pow2_divides_mod(t: nat, s: Shape)
    requires
        t < lane_bits(s),
    ensures
        lane_mod(s) as int == pow2(t) * pow2((lane_bits(s) - t) as nat),
{
    lemma_shape_total(s);
    lemma_pow2_adds(t, (lane_bits(s) - t) as nat);
}

/// One result lane of a shift of lane `x` by count `c`.
pub fn lane_shift_exec(k: ShiftKind, s: Shape, x: u64, c: u32) -> (r: u64)
    requires
        x < lane_mod(s),
    ensures
        r == lane_shift(k, s, x as nat, c),
        r < lane_mod(s),
{
    let bits: u32 = match s { Shape::I8x16 => 8, Shape::I16x8 => 16, Shape::I32x4 => 32, Shape::I64x2 => 64 };
    let t = c % bits;
    let p = pow2_exec(t);
    let m = modulus(s);
    proof { lemma_pow2_divides_mod(t as nat, s); }
    match k {
        ShiftKind::Shl => {
            assert((x as u128) * p <= 0xffff_ffff_ffff_ffff * 0x8000_0000_0000_0000) by (nonlinear_arith)
                requires x <= 0xffff_ffff_ffff_ffff, p <= 0x8000_0000_0000_0000;
            ((x as u128 * p) % m) as u64
        },
        ShiftKind::ShrU => {
            assert(x as u128 / p <= x) by (nonlinear_arith) requires p >= 1;
            (x as u128 / p) as u64
        },
        ShiftKind::ShrS => {
            let q = x as u128 / p;
            assert(q <= x) by (nonlinear_arith) requires p >= 1, q == x as u128 / p;
            if (x as u128) < m / 2 {
                q as u64
            } else {
                let mq = m / p;
                let ghost e = pow2((lane_bits(s) - t) as nat);
                proof {
                    lemma_pow2_pos((lane_bits(s) - t) as nat);
                    assert(m as int == pow2(t as nat) * e);
                    assert(m as int == e * p) by (nonlinear_arith)
                        requires m as int == pow2(t as nat) * e, p == pow2(t as nat);
                    lemma_fundamental_div_mod_converse(m as int, p as int, e as int, 0);
                    assert(mq == e);
                    lemma_fundamental_div_mod(x as int, p as int);
                    let sx = x as int - m as int;
                    assert(sx == (q as int - mq as int) * (p as int) + (x as int % p as int)) by (nonlinear_arith)
                        requires x as int == p * (x as int / p as int) + x as int % p as int, q == x as int / p as int,
                            m as int == mq * p, sx == x as int - m as int;
                    lemma_fundamental_div_mod_converse(sx, p as int, q as int - mq as int, x as int % p as int);
                    assert(q * p <= x) by (nonlinear_arith)
                        requires x as int == p * (x as int / p as int) + x as int % p as int, q == x as int / p as int,
                            x as int % p as int >= 0;
                    assert(q < mq) by (nonlinear_arith) requires q * p <= x, x < m, m == mq * p, p > 0;
                    lemma_fundamental_div_mod_converse(q as int - mq as int, m as int, -1, q as int - mq as int + m as int);
                }
                (q + (m - mq)) as u64
            }
        },
    }
}

} // verus!
