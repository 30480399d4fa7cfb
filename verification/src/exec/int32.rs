//! 32-bit integer instructions over raw bit patterns (`u32`): wasm values carry no signedness,
//! the signed instructions interpret the bits as two's complement.
use vstd::prelude::*;
use vstd::bits::{lemma_u32_shr_is_div, lemma_u64_shl_is_mul, lemma_u32_pow2_no_overflow};
use vstd::arithmetic::power2::{pow2, lemma_pow2_pos, lemma2_to64};
use vstd::std_specs::bits::{u32_leading_zeros, u32_trailing_zeros};
use crate::trap::Trap;

verus! {


/// The two's-complement value of a 32-bit pattern.
pub open spec fn signed32(x: u32) -> int {
    if x < 0x8000_0000 { x as int } else { x as int - 0x1_0000_0000 }
}

/// The 32-bit pattern of an integer, reduced modulo 2^32.
pub open spec fn bits32(v: int) -> u32 {
    (v % 0x1_0000_0000) as u32
}

/// Division truncated toward zero (wasm `div_s`).
pub open spec fn tdiv(a: int, b: int) -> int {
    let q: int = (vstd::math::abs(a) / vstd::math::abs(b)) as int;
    if (a < 0) != (b < 0) { -q } else { q }
}

/// Remainder of division truncated toward zero: it takes the sign of the dividend.
pub open spec fn trem(a: int, b: int) -> int {
    a - b * tdiv(a, b)
}

/// The number of set bits of a natural number.
pub open spec fn popcount(x: nat) -> nat
    decreases x,
{
    if x == 0 { 0 } else { (x % 2) + popcount(x / 2) }
}

/// Truncated division agrees with the sign-case formulation of `checked_div`/`checked_rem`.
pub proof fn lemma_tdiv_cases(x: int, d: int)
    requires
        d != 0,
    ensures
        tdiv(x, d) == (if x == 0 {
            0
        } else if x > 0 && d > 0 {
            x / d
        } else if x < 0 && d < 0 {
            (x * -1) / (d * -1)
        } else if x < 0 {
            ((x * -1) / d) * -1
        } else {
            (x / (d * -1)) * -1
        }),
        vstd::math::abs(x) / vstd::math::abs(d) <= vstd::math::abs(x),
        vstd::math::abs(d) >= 2 ==> vstd::math::abs(x) / vstd::math::abs(d) <= vstd::math::abs(x) / 2,
        trem(x, d) == (if x == 0 {
            0
        } else if x > 0 && d > 0 {
            x % d
        } else if x < 0 && d < 0 {
            ((x * -1) % (d * -1)) * -1
        } else if x < 0 {
            ((x * -1) % d) * -1
        } else {
            x % (d * -1)
        }),
{
    let ax = vstd::math::abs(x) as int;
    let ad = vstd::math::abs(d) as int;
    assert(ax >= 0 && ad > 0);
    assert(ax / ad <= ax) by (nonlinear_arith) requires ad > 0, ax >= 0;
    assert(ad >= 2 ==> ax / ad <= ax / 2) by (nonlinear_arith) requires ad > 0, ax >= 0;
    assert(ax == ad * (ax / ad) + ax % ad) by (nonlinear_arith)
        requires ad > 0, ax >= 0;
    if x == 0 {
        assert(ax / ad == 0) by (nonlinear_arith) requires ax == 0, ad > 0;
    }
    if x > 0 && d < 0 {
        assert(d * -(ax / ad) == ad * (ax / ad)) by (nonlinear_arith) requires d == -ad;
    }
    if x < 0 && d > 0 {
        assert(d * -(ax / ad) == -(ad * (ax / ad))) by (nonlinear_arith) requires d == ad;
    }
    if x < 0 && d < 0 {
        assert(d * (ax / ad) == -(ad * (ax / ad))) by (nonlinear_arith) requires d == -ad;
    }
    if x > 0 && d > 0 {
        assert(d * (ax / ad) == ad * (ax / ad)) by (nonlinear_arith) requires d == ad;
    }
}

/// Truncated division and its remainder fit together: `a == b * tdiv(a, b) + trem(a, b)`, the
/// remainder is smaller than the divisor in magnitude, and it is zero or has the dividend's sign.
pub proof fn lemma_tdiv_trem(a: int, b: int)
    requires
        b != 0,
    ensures
        a == b * tdiv(a, b) + trem(a, b),
        vstd::math::abs(trem(a, b)) < vstd::math::abs(b),
        trem(a, b) == 0 || (trem(a, b) < 0) == (a < 0),
        vstd::math::abs(tdiv(a, b)) <= vstd::math::abs(a),
{
    let ax = vstd::math::abs(a) as int;
    let ad = vstd::math::abs(b) as int;
    let q0 = ax / ad;
    let r0 = ax % ad;
    assert(ax == ad * q0 + r0 && 0 <= r0 < ad) by (nonlinear_arith) requires ad > 0, ax >= 0, q0 == ax / ad, r0 == ax % ad;
    assert(q0 <= ax) by (nonlinear_arith) requires ad > 0, ax >= 0, q0 == ax / ad;
    assert(q0 >= 0) by (nonlinear_arith) requires ad > 0, ax >= 0, q0 == ax / ad;
    let q = tdiv(a, b);
    if (a < 0) != (b < 0) {
        assert(q == -q0);
        if a < 0 {
            assert(b * q == -(ad * q0)) by (nonlinear_arith) requires b == ad, q == -q0;
            assert(trem(a, b) == -r0);
        } else {
            assert(b * q == ad * q0) by (nonlinear_arith) requires b == -ad, q == -q0;
            assert(trem(a, b) == r0);
        }
    } else {
        assert(q == q0);
        if a < 0 {
            assert(b * q == -(ad * q0)) by (nonlinear_arith) requires b == -ad, q == q0;
            assert(trem(a, b) == -r0);
        } else {
            assert(b * q == ad * q0) by (nonlinear_arith) requires b == ad, q == q0;
            assert(trem(a, b) == r0);
        }
    }
}

/// An integer in the signed 32-bit range reads back from its bit pattern.
pub proof fn lemma_signed32_bits32(v: int)
    requires
        -0x8000_0000 <= v < 0x8000_0000,
    ensures
        signed32(bits32(v)) == v,
{
}

pub proof fn lemma_signed32_of_cast(x: u32)
    ensures
        (x as i32) as int == signed32(x),
{
    assert((x as i32) as int == (if x < 0x8000_0000 { x as int } else { x as int - 0x1_0000_0000 })) by (bit_vector);
}

pub proof fn lemma_bits32_of_cast(v: i32)
    ensures
        (v as u32) == bits32(v as int),
        signed32(v as u32) == v as int,
{
    assert((v as u32) as int == (if v < 0 { v as int + 0x1_0000_0000 } else { v as int })) by (bit_vector);
}

/// `i32.eqz`.
pub fn i32_eqz(a: u32) -> (r: u32)
    ensures
        r == (if a == 0 { 1u32 } else { 0u32 }),
{
    if a == 0 { 1 } else { 0 }
}

/// `i32.add`: the sum modulo 2^32.
pub fn i32_add(a: u32, b: u32) -> (r: u32)
    ensures
        r == bits32(a + b),
{
    a.wrapping_add(b)
}

/// `i32.sub`: the difference modulo 2^32.
pub fn i32_sub(a: u32, b: u32) -> (r: u32)
    ensures
        r == bits32(a - b),
{
    a.wrapping_sub(b)
}

/// `i32.mul`: the product modulo 2^32.
pub fn i32_mul(a: u32, b: u32) -> (r: u32)
    ensures
        r == bits32(a * b),
{
    a.wrapping_mul(b)
}

/// `i32.div_u`: traps on a zero divisor.
pub fn i32_div_u(a: u32, b: u32) -> (r: Result<u32, Trap>)
    ensures
        b == 0 ==> r == Err::<u32, Trap>(Trap::IntegerDivisionByZero),
        b != 0 ==> r == Ok::<u32, Trap>((a / b) as u32),
{
    if b == 0 { Err(Trap::IntegerDivisionByZero) } else { Ok(a / b) }
}

/// `i32.rem_u`: traps on a zero divisor.
pub fn i32_rem_u(a: u32, b: u32) -> (r: Result<u32, Trap>)
    ensures
        b == 0 ==> r == Err::<u32, Trap>(Trap::IntegerDivisionByZero),
        b != 0 ==> r == Ok::<u32, Trap>((a % b) as u32),
{
    if b == 0 { Err(Trap::IntegerDivisionByZero) } else { Ok(a % b) }
}

/// `i32.div_s`: truncating signed division; traps on a zero divisor and on the one overflowing
/// quotient (`i32::MIN / -1`).
pub fn i32_div_s(a: u32, b: u32) -> (r: Result<u32, Trap>)
    ensures
        b == 0 ==> r == Err::<u32, Trap>(Trap::IntegerDivisionByZero),
        b != 0 && a == 0x8000_0000 && b == 0xffff_ffff ==> r == Err::<u32, Trap>(Trap::IntegerOverflow),
        b != 0 && !(a == 0x8000_0000 && b == 0xffff_ffff) ==> r == Ok::<u32, Trap>(bits32(tdiv(signed32(a), signed32(b)))),
{
    if b == 0 {
        return Err(Trap::IntegerDivisionByZero);
    }
    if a == 0x8000_0000 && b == 0xffff_ffff {
        return Err(Trap::IntegerOverflow);
    }
    let x = a as i32;
    let y = b as i32;
    proof {
        lemma_signed32_of_cast(a);
        lemma_signed32_of_cast(b);
        lemma_tdiv_cases(x as int, y as int);
    }
    match x.checked_div(y) {
        Some(q) => {
            proof { lemma_bits32_of_cast(q); }
            Ok(q as u32)
        },
        None => Err(Trap::IntegerOverflow),
    }
}

/// `i32.rem_s`: remainder of truncating division (sign of the dividend); traps only on a zero
/// divisor (`i32::MIN % -1` is 0).
pub fn i32_rem_s(a: u32, b: u32) -> (r: Result<u32, Trap>)
    ensures
        b == 0 ==> r == Err::<u32, Trap>(Trap::IntegerDivisionByZero),
        b != 0 ==> r == Ok::<u32, Trap>(bits32(trem(signed32(a), signed32(b)))),
{
    if b == 0 {
        return Err(Trap::IntegerDivisionByZero);
    }
    proof {
        lemma_signed32_of_cast(a);
        lemma_signed32_of_cast(b);
    }
    if b == 0xffff_ffff {
        assert(signed32(b) == -1);
        proof { lemma_tdiv_cases(signed32(a), -1); }
        assert(signed32(a) % 1 == 0);
        assert((signed32(a) * -1) % 1 == 0);
        return Ok(0);
    }
    let x = a as i32;
    let y = b as i32;
    proof { lemma_tdiv_cases(x as int, y as int); }
    match x.checked_rem(y) {
        Some(m) => {
            proof { lemma_bits32_of_cast(m); }
            Ok(m as u32)
        },
        None => Err(Trap::IntegerOverflow),
    }
}


/// `i32.and`.
pub fn i32_and(a: u32, b: u32) -> (r: u32)
    ensures
        r == a & b,
{
    a & b
}

/// `i32.or`.
pub fn i32_or(a: u32, b: u32) -> (r: u32)
    ensures
        r == a | b,
{
    a | b
}

/// `i32.xor`.
pub fn i32_xor(a: u32, b: u32) -> (r: u32)
    ensures
        r == a ^ b,
{
    a ^ b
}

/// The shift amount of a 32-bit shift or rotate: the count taken modulo the width.
pub open spec fn shift32(b: u32) -> nat {
    (b % 32) as nat
}

/// `i32.shl`: `a * 2^(b mod 32)` modulo 2^32.
pub fn i32_shl(a: u32, b: u32) -> (r: u32)
    ensures
        r == bits32(a * pow2(shift32(b))),
{
    let k = b % 32;
    let wide = (a as u64) << (k as u64);
    proof {
        lemma_u32_pow2_no_overflow(k as nat);
        assert(a * pow2(k as nat) <= u64::MAX) by (nonlinear_arith)
            requires a <= u32::MAX, pow2(k as nat) < u32::MAX;
        lemma_u64_shl_is_mul(a as u64, k as u64);
        assert((wide as u32) as int == (wide as int) % 0x1_0000_0000) by (bit_vector);
    }
    wide as u32
}

/// `i32.shr_u`: logical shift right, `a / 2^(b mod 32)`.
pub fn i32_shr_u(a: u32, b: u32) -> (r: u32)
    ensures
        r == a as nat / pow2(shift32(b)),
        r == a >> (b % 32),
{
    let k = b % 32;
    proof { lemma_u32_shr_is_div(a, k); }
    a >> k
}

/// `i32.shr_s`: arithmetic shift right, the floor of `signed(a) / 2^(b mod 32)`.
pub fn i32_shr_s(a: u32, b: u32) -> (r: u32)
    ensures
        signed32(r) == signed32(a) / (pow2(shift32(b)) as int),
{
    let k = b % 32;
    proof {
        lemma_u32_pow2_no_overflow(k as nat);
        lemma_pow2_pos(k as nat);
    }
    if a < 0x8000_0000 {
        proof { lemma_u32_shr_is_div(a, k); }
        let r = a >> k;
        assert(r <= a) by (nonlinear_arith) requires r == a as nat / pow2(k as nat), pow2(k as nat) > 0;
        r
    } else {
        let na = !a;
        assert(na as int == 0xffff_ffff - a) by (bit_vector) requires na == !a;
        proof { lemma_u32_shr_is_div(na, k); }
        let q = na >> k;
        let r = !q;
        assert(r as int == 0xffff_ffff - q) by (bit_vector) requires r == !q;
        let ghost p = pow2(k as nat) as int;
        let ghost m = 0xffff_ffff - a as int;
        assert(q <= m) by (nonlinear_arith) requires q == m / p, p > 0, m >= 0;
        assert(p * q <= m < p * q + p) by (nonlinear_arith) requires q == m / p, p > 0, m >= 0;
        assert(signed32(a) == -m - 1);
        assert(signed32(r) == -(q as int) - 1);
        assert((-m - 1) / p == -(q as int) - 1) by (nonlinear_arith)
            requires p * q <= m < p * q + p, p > 0;
        r
    }
}

/// `i32.rotl`: the bits of `a` rotated left by `b mod 32`.
pub fn i32_rotl(a: u32, b: u32) -> (r: u32)
    ensures
        r == bits32(a * pow2(shift32(b))) + a as nat / pow2((32 - shift32(b)) as nat),
{
    let k = b % 32;
    if k == 0 {
        proof {
            vstd::arithmetic::power2::lemma2_to64();
            assert(pow2(32) == 0x1_0000_0000);
            assert(a as nat / pow2(32) == 0);
        }
        assert(pow2(0) == 1) by { vstd::arithmetic::power2::lemma2_to64(); }
        assert(shift32(b) == 0);
        assert(a * pow2(0) == a);
        assert(bits32(a as int) == a);
        return a;
    }
    let hi = i32_shl(a, k);
    let lo = i32_shr_u(a, 32 - k);
    proof {
        let kk = k as u32;
        assert(hi == ((a as u64) << (kk as u64)) as u32) by {
            lemma_u32_pow2_no_overflow(kk as nat);
            assert(a * pow2(kk as nat) <= u64::MAX) by (nonlinear_arith)
                requires a <= u32::MAX, pow2(kk as nat) < u32::MAX;
            lemma_u64_shl_is_mul(a as u64, kk as u64);
            assert(((a as u64) << (kk as u64)) as u32 as int == (((a as u64) << (kk as u64)) as int) % 0x1_0000_0000) by (bit_vector);
        }
        lemma_u32_shr_is_div(a, (32 - kk) as u32);
        assert(((a as u64) << (kk as u64)) as u32 & (a >> ((32 - kk) as u32)) == 0) by (bit_vector)
            requires 0 < kk < 32;
        assert((((a as u64) << (kk as u64)) as u32 | (a >> ((32 - kk) as u32))) as int
            == (((a as u64) << (kk as u64)) as u32) as int + (a >> ((32 - kk) as u32)) as int) by (bit_vector)
            requires 0 < kk < 32;
    }
    hi | lo
}

/// `i32.rotr`: the bits of `a` rotated right by `b mod 32`, i.e. rotated left by the complement.
pub fn i32_rotr(a: u32, b: u32) -> (r: u32)
    ensures
        r == bits32(a * pow2(((32 - shift32(b)) % 32) as nat)) + a as nat / pow2((32 - (32 - shift32(b)) % 32) as nat),
{
    let k = b % 32;
    i32_rotl(a, (32 - k) % 32)
}

/// `i32.clz`: the number of leading zero bits.
pub fn i32_clz(a: u32) -> (r: u32)
    ensures
        r == u32_leading_zeros(a),
{
    a.leading_zeros()
}

/// `i32.ctz`: the number of trailing zero bits.
pub fn i32_ctz(a: u32) -> (r: u32)
    ensures
        r == u32_trailing_zeros(a),
{
    a.trailing_zeros()
}

/// `i32.popcnt`: the number of set bits.
pub fn i32_popcnt(a: u32) -> (r: u32)
    ensures
        r == popcount(a as nat),
{
    let mut x = a;
    let mut n: u32 = 0;
    while x != 0
        invariant
            popcount(x as nat) + n == popcount(a as nat),
            n + x <= a,
        decreases x,
    {
        n = n + x % 2;
        x = x / 2;
    }
    n
}

/// A comparison result as a wasm boolean.
pub open spec fn bool32(b: bool) -> u32 {
    if b { 1 } else { 0 }
}

/// `i32.eq`.
pub fn i32_eq(a: u32, b: u32) -> (r: u32)
    ensures
        r == bool32(a == b),
{
    if a == b { 1 } else { 0 }
}

/// `i32.ne`.
pub fn i32_ne(a: u32, b: u32) -> (r: u32)
    ensures
        r == bool32(a != b),
{
    if a != b { 1 } else { 0 }
}

/// `i32.lt_u`.
pub fn i32_lt_u(a: u32, b: u32) -> (r: u32)
    ensures
        r == bool32(a < b),
{
    if a < b { 1 } else { 0 }
}

/// `i32.gt_u`.
pub fn i32_gt_u(a: u32, b: u32) -> (r: u32)
    ensures
        r == bool32(a > b),
{
    if a > b { 1 } else { 0 }
}

/// `i32.le_u`.
pub fn i32_le_u(a: u32, b: u32) -> (r: u32)
    ensures
        r == bool32(a <= b),
{
    if a <= b { 1 } else { 0 }
}

/// `i32.ge_u`.
pub fn i32_ge_u(a: u32, b: u32) -> (r: u32)
    ensures
        r == bool32(a >= b),
{
    if a >= b { 1 } else { 0 }
}

/// `i32.lt_s`.
pub fn i32_lt_s(a: u32, b: u32) -> (r: u32)
    ensures
        r == bool32(signed32(a) < signed32(b)),
{
    proof {
        lemma_signed32_of_cast(a);
        lemma_signed32_of_cast(b);
    }
    if (a as i32) < (b as i32) { 1 } else { 0 }
}

/// `i32.gt_s`.
pub fn i32_gt_s(a: u32, b: u32) -> (r: u32)
    ensures
        r == bool32(signed32(a) > signed32(b)),
{
    proof {
        lemma_signed32_of_cast(a);
        lemma_signed32_of_cast(b);
    }
    if (a as i32) > (b as i32) { 1 } else { 0 }
}

/// `i32.le_s`.
pub fn i32_le_s(a: u32, b: u32) -> (r: u32)
    ensures
        r == bool32(signed32(a) <= signed32(b)),
{
    proof {
        lemma_signed32_of_cast(a);
        lemma_signed32_of_cast(b);
    }
    if (a as i32) <= (b as i32) { 1 } else { 0 }
}

/// `i32.ge_s`.
pub fn i32_ge_s(a: u32, b: u32) -> (r: u32)
    ensures
        r == bool32(signed32(a) >= signed32(b)),
{
    proof {
        lemma_signed32_of_cast(a);
        lemma_signed32_of_cast(b);
    }
    if (a as i32) >= (b as i32) { 1 } else { 0 }
}

/// The sign extension of the low `n` bits of `x` (`n` = 8 or 16).
pub open spec fn sext(x: nat, n: nat) -> int {
    let low = x % pow2(n);
    if low >= pow2((n - 1) as nat) { low - pow2(n) } else { low as int }
}

/// `i32.extend8_s`: sign-extends the low byte.
pub fn i32_extend8_s(a: u32) -> (r: u32)
    ensures
        signed32(r) == sext(a as nat, 8),
{
    let r = ((a as u8) as i8) as i32 as u32;
    proof {
        lemma2_to64();
        assert(signed32(r) == (if a % 256 >= 128 { a % 256 - 256 } else { (a % 256) as int })) by (bit_vector)
            requires r == ((a as u8) as i8) as i32 as u32;
    }
    r
}

/// `i32.extend16_s`: sign-extends the low 16 bits.
pub fn i32_extend16_s(a: u32) -> (r: u32)
    ensures
        signed32(r) == sext(a as nat, 16),
{
    let r = ((a as u16) as i16) as i32 as u32;
    proof {
        lemma2_to64();
        assert(signed32(r) == (if a % 65536 >= 32768 { a % 65536 - 65536 } else { (a % 65536) as int })) by (bit_vector)
            requires r == ((a as u16) as i16) as i32 as u32;
    }
    r
}

} // verus!
