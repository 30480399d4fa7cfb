//! A `v128` seen as lanes: 16, 8, 4 or 2 unsigned integers of 8, 16, 32 or 64 bits, lane 0 in
//! the low-order bits (the little-endian byte order of the value). Splitting a value into its
//! lanes and joining lanes back into a value are inverse to each other.
use vstd::prelude::*;
use vstd::arithmetic::div_mod::{lemma_fundamental_div_mod, lemma_fundamental_div_mod_converse};

verus! {

/// The lane layout of a `v128`.
#[derive(Copy, Clone, PartialEq, Eq, Structural, Debug)]
pub enum Shape {
    I8x16,
    I16x8,
    I32x4,
    I64x2,
}

/// One more than the largest lane value: `2^bits`.
pub open spec fn lane_mod(s: Shape) -> nat {
    match s {
        Shape::I8x16 => 0x100,
        Shape::I16x8 => 0x1_0000,
        Shape::I32x4 => 0x1_0000_0000,
        Shape::I64x2 => 0x1_0000_0000_0000_0000,
    }
}

pub open spec fn lane_count(s: Shape) -> nat {
    match s {
        Shape::I8x16 => 16,
        Shape::I16x8 => 8,
        Shape::I32x4 => 4,
        Shape::I64x2 => 2,
    }
}

pub open spec fn lane_bits(s: Shape) -> nat {
    match s {
        Shape::I8x16 => 8,
        Shape::I16x8 => 16,
        Shape::I32x4 => 32,
        Shape::I64x2 => 64,
    }
}

/// `m` to the power `n`.
pub open spec fn pown(m: nat, n: nat) -> nat
    decreases n,
{
    if n == 0 { 1 } else { m * pown(m, (n - 1) as nat) }
}

/// `v` with its `j` lowest lanes of modulus `m` shifted out.
pub open spec fn drop_lanes(v: nat, m: nat, j: nat) -> nat
    decreases j,
{
    if j == 0 { v } else { drop_lanes(v, m, (j - 1) as nat) / m }
}

/// Lane `j` of `v` for lanes of modulus `m`.
pub open spec fn lane_of(v: nat, m: nat, j: nat) -> nat {
    drop_lanes(v, m, j) % m
}

/// Lane `j` of `v` in shape `s`.
pub open spec fn lane(v: u128, s: Shape, j: int) -> nat {
    lane_of(v as nat, lane_mod(s), j as nat)
}

/// All lanes of `v` in shape `s`, lane 0 first.
pub open spec fn lanes(v: u128, s: Shape) -> Seq<nat> {
    Seq::new(lane_count(s), |j: int| lane(v, s, j))
}

/// The number whose lanes of modulus `m` are `ls`, lane 0 lowest.
pub open spec fn join_lanes(ls: Seq<nat>, m: nat) -> nat
    decreases ls.len(),
{
    if ls.len() == 0 { 0 } else { ls[0] + m * join_lanes(ls.drop_first(), m) }
}

pub open spec fn lanes_below(ls: Seq<nat>, m: nat) -> bool {
    forall|j: int| 0 <= j < ls.len() ==> #[trigger] ls[j] < m
}

/// Lanes that make a `v128` of shape `s`: as many as the shape has, each below the modulus.
pub open spec fn lanes_fit(ls: Seq<nat>, s: Shape) -> bool {
    ls.len() == lane_count(s) && lanes_below(ls, lane_mod(s))
}

/// The `v128` whose lanes of shape `s` are `ls`.
pub open spec fn pack(ls: Seq<nat>, s: Shape) -> u128 {
    join_lanes(ls, lane_mod(s)) as u128
}

/// The lane values of a vector of `u64` lanes.
pub open spec fn nat_lanes(ls: Seq<u64>) -> Seq<nat> {
    ls.map_values(|x: u64| x as nat)
}

/// Every shape's lanes fill exactly 128 bits.
pub proof fn lemma_shape_total(s: Shape)
    ensures
        pown(lane_mod(s), lane_count(s)) == 0x1_0000_0000_0000_0000_0000_0000_0000_0000,
        lane_mod(s) == vstd::arithmetic::power2::pow2(lane_bits(s)),
{
    vstd::arithmetic::power2::lemma2_to64();
    reveal_with_fuel(pown, 17);
    match s {
        Shape::I8x16 => {
            assert(pown(0x100, 16) == 0x1_0000_0000_0000_0000_0000_0000_0000_0000);
        },
        Shape::I16x8 => {
            assert(pown(0x1_0000, 8) == 0x1_0000_0000_0000_0000_0000_0000_0000_0000);
        },
        Shape::I32x4 => {
            assert(pown(0x1_0000_0000, 4) == 0x1_0000_0000_0000_0000_0000_0000_0000_0000);
        },
        Shape::I64x2 => {
            assert(pown(0x1_0000_0000_0000_0000, 2) == 0x1_0000_0000_0000_0000_0000_0000_0000_0000);
            vstd::arithmetic::power2::lemma_pow2_adds(32, 32);
        },
    }
}

proof fn lemma_pown_pos(m: nat, n: nat)
    requires
        m > 0,
    ensures
        pown(m, n) > 0,
    decreases n,
{
    if n > 0 {
        lemma_pown_pos(m, (n - 1) as nat);
        assert(m * pown(m, (n - 1) as nat) > 0) by (nonlinear_arith)
            requires m > 0, pown(m, (n - 1) as nat) > 0;
    }
}

proof fn lemma_pown_mono(m: nat, a: nat, b: nat)
    requires
        m > 0,
        a <= b,
    ensures
        pown(m, a) <= pown(m, b),
    decreases b,
{
    if a < b {
        lemma_pown_mono(m, a, (b - 1) as nat);
        lemma_pown_pos(m, (b - 1) as nat);
        assert(pown(m, (b - 1) as nat) <= m * pown(m, (b - 1) as nat)) by (nonlinear_arith)
            requires m > 0, pown(m, (b - 1) as nat) > 0;
    }
}

/// Lanes below `m` join to a number below `m^len`.
pub proof fn lemma_join_bound(ls: Seq<nat>, m: nat)
    requires
        m > 0,
        lanes_below(ls, m),
    ensures
        join_lanes(ls, m) < pown(m, ls.len()),
    decreases ls.len(),
{
    if ls.len() > 0 {
        let rest = ls.drop_first();
        assert(lanes_below(rest, m)) by {
            assert forall|j: int| 0 <= j < rest.len() implies #[trigger] rest[j] < m by {
                assert(rest[j] == ls[j + 1]);
            }
        }
        lemma_join_bound(rest, m);
        let p = pown(m, rest.len());
        let r = join_lanes(rest, m);
        assert(ls[0] < m);
        assert(ls[0] + m * r < m * p) by (nonlinear_arith)
            requires ls[0] < m, r < p, m > 0;
    }
}

/// Shifting out `j` lanes, then one more, is shifting out the lowest lane, then `j` more.
proof fn lemma_drop_lanes_shift(v: nat, m: nat, j: nat)
    requires
        m > 0,
    ensures
        drop_lanes(v, m, j + 1) == drop_lanes(v / m, m, j),
    decreases j,
{
    if j == 0 {
        assert(drop_lanes(v, m, 1) == drop_lanes(v, m, 0) / m);
    } else {
        lemma_drop_lanes_shift(v, m, (j - 1) as nat);
        assert(drop_lanes(v, m, j + 1) == drop_lanes(v, m, j) / m);
        assert(drop_lanes(v / m, m, j) == drop_lanes(v / m, m, (j - 1) as nat) / m);
    }
}

/// Shifting `j` lanes out of a joined number leaves the join of the remaining lanes.
proof fn lemma_drop_join(ls: Seq<nat>, m: nat, j: nat)
    requires
        m > 0,
        lanes_below(ls, m),
        j <= ls.len(),
    ensures
        drop_lanes(join_lanes(ls, m), m, j) == join_lanes(ls.subrange(j as int, ls.len() as int), m),
    decreases j,
{
    if j == 0 {
        assert(ls.subrange(0, ls.len() as int) =~= ls);
    } else {
        lemma_drop_join(ls, m, (j - 1) as nat);
        let tail = ls.subrange(j - 1, ls.len() as int);
        assert(tail.drop_first() =~= ls.subrange(j as int, ls.len() as int));
        let r = join_lanes(tail.drop_first(), m);
        assert(tail[0] < m);
        lemma_fundamental_div_mod_converse((tail[0] + m * r) as int, m as int, r as int, tail[0] as int);
        assert(join_lanes(tail, m) == tail[0] + m * r);
        assert((tail[0] + m * r) as int == r * m + tail[0]) by (nonlinear_arith);
    }
}

/// Lane `j` of the join of `ls` is `ls[j]`.
pub proof fn lemma_lane_of_join(ls: Seq<nat>, m: nat, j: nat)
    requires
        m > 0,
        lanes_below(ls, m),
        j < ls.len(),
    ensures
        lane_of(join_lanes(ls, m), m, j) == ls[j as int],
{
    lemma_drop_join(ls, m, j);
    let tail = ls.subrange(j as int, ls.len() as int);
    let r = join_lanes(tail.drop_first(), m);
    assert(tail[0] == ls[j as int]);
    assert(tail[0] < m);
    assert((tail[0] + m * r) as int == r * m + tail[0]) by (nonlinear_arith);
    lemma_fundamental_div_mod_converse((tail[0] + m * r) as int, m as int, r as int, tail[0] as int);
}

/// Two numbers below `m^n` with the same `n` lanes are equal.
pub proof fn lemma_lanes_determine(v: nat, w: nat, m: nat, n: nat)
    requires
        m > 0,
        v < pown(m, n),
        w < pown(m, n),
        forall|j: nat| j < n ==> #[trigger] lane_of(v, m, j) == lane_of(w, m, j),
    ensures
        v == w,
    decreases n,
{
    if n > 0 {
        let p = pown(m, (n - 1) as nat);
        assert(lane_of(v, m, 0) == lane_of(w, m, 0));
        lemma_fundamental_div_mod(v as int, m as int);
        lemma_fundamental_div_mod(w as int, m as int);
        assert(v / m < p) by (nonlinear_arith)
            requires v < m * p, m > 0, v == m * (v / m) + v % m, v % m >= 0;
        assert(w / m < p) by (nonlinear_arith)
            requires w < m * p, m > 0, w == m * (w / m) + w % m, w % m >= 0;
        assert forall|j: nat| j < (n - 1) as nat implies #[trigger] lane_of(v / m, m, j) == lane_of(w / m, m, j) by {
            lemma_drop_lanes_shift(v, m, j);
            lemma_drop_lanes_shift(w, m, j);
            assert(lane_of(v, m, j + 1) == lane_of(w, m, j + 1));
        }
        lemma_lanes_determine(v / m, w / m, m, (n - 1) as nat);
    }
}

/// Lane `j` of the `v128` packed from lanes `ls` is `ls[j]`.
pub proof fn lemma_lane_of_pack(ls: Seq<nat>, s: Shape, j: int)
    requires
        lanes_fit(ls, s),
        0 <= j < lane_count(s),
    ensures
        lane(pack(ls, s), s, j) == ls[j],
{
    lemma_shape_total(s);
    lemma_join_bound(ls, lane_mod(s));
    lemma_lane_of_join(ls, lane_mod(s), j as nat);
}

/// Every lane of a `v128` is below the lane modulus.
pub proof fn lemma_lanes_fit(v: u128, s: Shape)
    ensures
        lanes_fit(lanes(v, s), s),
{
}

/// Two `v128`s with the same lanes are the same value.
pub proof fn lemma_same_lanes_same_value(v: u128, w: u128, s: Shape)
    requires
        lanes(v, s) == lanes(w, s),
    ensures
        v == w,
{
    lemma_shape_total(s);
    assert forall|j: nat| j < lane_count(s) implies #[trigger] lane_of(v as nat, lane_mod(s), j) == lane_of(w as nat, lane_mod(s), j) by {
        assert(lanes(v, s)[j as int] == lanes(w, s)[j as int]);
        assert(lanes(v, s)[j as int] == lane(v, s, j as int));
        assert(lanes(w, s)[j as int] == lane(w, s, j as int));
    }
    lemma_lanes_determine(v as nat, w as nat, lane_mod(s), lane_count(s));
}

/// Splitting a `v128` into lanes and packing them again gives back the value.
pub proof fn lemma_pack_lanes(v: u128, s: Shape)
    ensures
        pack(lanes(v, s), s) == v,
{
    let ls = lanes(v, s);
    lemma_shape_total(s);
    lemma_join_bound(ls, lane_mod(s));
    let w = pack(ls, s);
    assert forall|j: int| 0 <= j < lane_count(s) implies lanes(w, s)[j] == lanes(v, s)[j] by {
        lemma_lane_of_pack(ls, s, j);
    }
    assert(lanes(w, s) =~= lanes(v, s));
    lemma_same_lanes_same_value(w, v, s);
}

/// The lane modulus of a shape.
pub fn modulus(s: Shape) -> (m: u128)
    ensures
        m == lane_mod(s),
{
    match s {
        Shape::I8x16 => 0x100,
        Shape::I16x8 => 0x1_0000,
        Shape::I32x4 => 0x1_0000_0000,
        Shape::I64x2 => 0x1_0000_0000_0000_0000,
    }
}

/// The lane count of a shape.
pub fn count(s: Shape) -> (n: usize)
    ensures
        n == lane_count(s),
{
    match s {
        Shape::I8x16 => 16,
        Shape::I16x8 => 8,
        Shape::I32x4 => 4,
        Shape::I64x2 => 2,
    }
}

/// The lanes of `v` in shape `s`, lane 0 first.
pub fn split(v: u128, s: Shape) -> (ls: Vec<u64>)
    ensures
        nat_lanes(ls@) == lanes(v, s),
        ls@.len() == lane_count(s),
{
    let m = modulus(s);
    let n = count(s);
    let mut x = v;
    let mut ls: Vec<u64> = Vec::new();
    let mut j: usize = 0;
    while j < n
        invariant
            j <= n,
            n == lane_count(s),
            m == lane_mod(s),
            x as nat == drop_lanes(v as nat, m as nat, j as nat),
            ls@.len() == j,
            forall|i: int| 0 <= i < j ==> #[trigger] ls@[i] as nat == lane(v, s, i),
        decreases n - j,
    {
        ls.push((x % m) as u64);
        x = x / m;
        j = j + 1;
    }
    assert(nat_lanes(ls@) =~= lanes(v, s));
    ls
}

/// The `v128` whose lanes in shape `s` are `ls`.
pub fn join(ls: &Vec<u64>, s: Shape) -> (v: u128)
    requires
        ls@.len() == lane_count(s),
        forall|j: int| 0 <= j < ls@.len() ==> #[trigger] ls@[j] < lane_mod(s),
    ensures
        v == pack(nat_lanes(ls@), s),
{
    let m = modulus(s);
    let n = count(s);
    let ghost nl = nat_lanes(ls@);
    proof {
        lemma_shape_total(s);
        assert(lanes_below(nl, m as nat));
    }
    let mut r: u128 = 0;
    let mut j: usize = n;
    while j > 0
        invariant
            j <= n,
            n == lane_count(s),
            m == lane_mod(s),
            nl == nat_lanes(ls@),
            nl.len() == n,
            lanes_below(nl, m as nat),
            pown(m as nat, n as nat) == 0x1_0000_0000_0000_0000_0000_0000_0000_0000,
            r as nat == join_lanes(nl.subrange(j as int, n as int), m as nat),
            r < pown(m as nat, (n - j) as nat),
        decreases j,
    {
        j = j - 1;
        proof {
            let tail = nl.subrange(j as int, n as int);
            assert(tail.drop_first() =~= nl.subrange(j + 1, n as int));
            assert(tail[0] == nl[j as int]);
            let p = pown(m as nat, (n - j - 1) as nat);
            assert(nl[j as int] < m);
            assert(r * m + nl[j as int] < m * p) by (nonlinear_arith)
                requires r < p, nl[j as int] < m, m > 0;
            lemma_pown_mono(m as nat, (n - j) as nat, n as nat);
            assert(join_lanes(tail, m as nat) == nl[j as int] + m * r);
        }
        r = r * m + ls[j] as u128;
    }
    proof {
        assert(nl.subrange(0, n as int) =~= nl);
    }
    r
}

} // verus!
