//! 64-bit integer instructions over raw bit patterns (`u64`).
use vstd::prelude::*;
use vstd::bits::{lemma_u64_shr_is_div, lemma_u64_shl_is_mul, lemma_u64_pow2_no_overflow};
use vstd::arithmetic::power2::{pow2, lemma_pow2_pos, lemma2_to64, lemma_pow2_adds};
use vstd::std_specs::bits::{u64_leading_zeros, u64_trailing_zeros};
use crate::trap::Trap;
use crate::exec::int32::{tdiv, trem, popcount, bool32, sext, lemma_tdiv_cases};

verus! {

/// The two's-complement value of a 64-bit pattern.
pub open spec fn signed64(x: u64) -> int {
    if x < 0x8000_0000_0000_0000 { x as int } else { x as int - 0x1_0000_0000_0000_0000 }
}

/// The 64-bit pattern of an integer, reduced modulo 2^64.
pub open spec fn bits64(v: int) -> u64 {
    (v % 0x1_0000_0000_0000_0000) as u64
}

pub proof fn lemma_signed64_of_cast(x: u64)
    ensures
        (x as i64) as int == signed64(x),
{
    assert((x as i64) as int == (if x < 0x8000_0000_0000_0000 { x as int } else { x as int - 0x1_0000_0000_0000_0000 })) by (bit_vector);
}

pub proof fn lemma_bits64_of_cast(v: i64)
    ensures
        (v as u64) == bits64(v as int),
        signed64(v as u64) == v as int,
{
    assert((v as u64) as int == (if v < 0 { v as int + 0x1_0000_0000_0000_0000 } else { v as int })) by (bit_vector);
}

/// Shifting left by `k` keeps the product with `2^k` modulo 2^64.
proof fn lemma_shl64(a: u64, k: u64)
    requires
        k < 64,
    ensures
        (a << k) == bits64(a * pow2(k as nat)),
{
    if k == 0 {
        assert(a << 0 == a) by (bit_vector);
        assert(pow2(0) == 1) by { lemma2_to64(); }
        return;
    }
    let j = (64 - k) as u64;
    lemma_u64_pow2_no_overflow(j as nat);
    lemma_u64_pow2_no_overflow(k as nat);
    lemma_pow2_pos(j as nat);
    lemma_u64_shl_is_mul(1, j);
    let m = (1u64 << j);
    assert(m == pow2(j as nat));
    let lo = a & ((m - 1) as u64);
    assert(a << k == lo << k) by (bit_vector)
        requires 0 < k < 64, j == 64 - k, m == 1u64 << j, lo == a & ((m - 1) as u64);
    vstd::bits::lemma_u64_low_bits_mask_is_mod(a, j as nat);
    assert(lo == a % m);
    lemma_pow2_adds(j as nat, k as nat);
    vstd::arithmetic::power2::lemma2_to64_rest();
    assert(pow2(64) == 0x1_0000_0000_0000_0000);
    let pj = pow2(j as nat) as int;
    let pk = pow2(k as nat) as int;
    assert(pj * pk == 0x1_0000_0000_0000_0000);
    assert(lo < pj);
    assert(lo * pk < 0x1_0000_0000_0000_0000) by (nonlinear_arith)
        requires lo < pj, pj * pk == 0x1_0000_0000_0000_0000, pk > 0, lo >= 0;
    lemma_u64_shl_is_mul(lo as u64, k);
    let q = a as int / pj;
    assert(a == q * pj + lo) by (nonlinear_arith) requires pj > 0, lo == a as int % pj, q == a as int / pj;
    assert(a * pk == q * 0x1_0000_0000_0000_0000 + lo * pk) by (nonlinear_arith)
        requires a == q * pj + lo, pj * pk == 0x1_0000_0000_0000_0000;
    assert((q * 0x1_0000_0000_0000_0000 + lo * pk) % 0x1_0000_0000_0000_0000 == lo * pk) by (nonlinear_arith)
        requires 0 <= lo * pk < 0x1_0000_0000_0000_0000, q >= 0;
}

/// `i64.eqz`.
pub fn i64_eqz(a: u64) -> (r: u32)
    ensures
        r == (if a == 0 { 1u32 } else { 0u32 }),
{
    if a == 0 { 1 } else { 0 }
}

/// `i64.add`: the sum modulo 2^32.
pub fn i64_add(a: u64, b: u64) -> (r: u64)
    ensures
        r == bits64(a + b),
{
    a.wrapping_add(b)
}

/// `i64.sub`: the difference modulo 2^32.
pub fn i64_sub(a: u64, b: u64) -> (r: u64)
    ensures
        r == bits64(a - b),
{
    a.wrapping_sub(b)
}

/// `i64.mul`: the product modulo 2^32.
pub fn i64_mul(a: u64, b: u64) -> (r: u64)
    ensures
        r == bits64(a * b),
{
    a.wrapping_mul(b)
}

/// `i64.div_u`: traps on a zero divisor.
pub fn i64_div_u(a: u64, b: u64) -> (r: Result<u64, Trap>)
    ensures
        b == 0 ==> r == Err::<u64, Trap>(Trap::IntegerDivisionByZero),
        b != 0 ==> r == Ok::<u64, Trap>((a / b) as u64),
{
    if b == 0 { Err(Trap::IntegerDivisionByZero) } else { Ok(a / b) }
}

/// `i64.rem_u`: traps on a zero divisor.
pub fn i64_rem_u(a: u64, b: u64) -> (r: Result<u64, Trap>)
    ensures
        b == 0 ==> r == Err::<u64, Trap>(Trap::IntegerDivisionByZero),
        b != 0 ==> r == Ok::<u64, Trap>((a % b) as u64),
{
    if b == 0 { Err(Trap::IntegerDivisionByZero) } else { Ok(a % b) }
}

/// `i64.div_s`: truncating signed division; traps on a zero divisor and on the one overflowing
/// quotient (`i64::MIN / -1`).
pub fn i64_div_s(a: u64, b: u64) -> (r: Result<u64, Trap>)
    ensures
        b == 0 ==> r == Err::<u64, Trap>(Trap::IntegerDivisionByZero),
        b != 0 && a == 0x8000_0000_0000_0000 && b == 0xffff_ffff_ffff_ffff ==> r == Err::<u64, Trap>(Trap::IntegerOverflow),
        b != 0 && !(a == 0x8000_0000_0000_0000 && b == 0xffff_ffff_ffff_ffff) ==> r == Ok::<u64, Trap>(bits64(tdiv(signed64(a), signed64(b)))),
{
    if b == 0 {
        return Err(Trap::IntegerDivisionByZero);
    }
    if a == 0x8000_0000_0000_0000 && b == 0xffff_ffff_ffff_ffff {
        return Err(Trap::IntegerOverflow);
    }
    let x = a as i64;
    let y = b as i64;
    proof {
        lemma_signed64_of_cast(a);
        lemma_signed64_of_cast(b);
        lemma_tdiv_cases(x as int, y as int);
    }
    match x.checked_div(y) {
        Some(q) => {
            proof { lemma_bits64_of_cast(q); }
            Ok(q as u64)
        },
        None => Err(Trap::IntegerOverflow),
    }
}

/// `i64.rem_s`: remainder of truncating division (sign of the dividend); traps only on a zero
/// divisor (`i64::MIN % -1` is 0).
pub fn i64_rem_s(a: u64, b: u64) -> (r: Result<u64, Trap>)
    ensures
        b == 0 ==> r == Err::<u64, Trap>(Trap::IntegerDivisionByZero),
        b != 0 ==> r == Ok::<u64, Trap>(bits64(trem(signed64(a), signed64(b)))),
{
    if b == 0 {
        return Err(Trap::IntegerDivisionByZero);
    }
    proof {
        lemma_signed64_of_cast(a);
        lemma_signed64_of_cast(b);
    }
    if b == 0xffff_ffff_ffff_ffff {
        assert(signed64(b) == -1);
        proof { lemma_tdiv_cases(signed64(a), -1); }
        assert(signed64(a) % 1 == 0);
        assert((signed64(a) * -1) % 1 == 0);
        return Ok(0);
    }
    let x = a as i64;
    let y = b as i64;
    proof { lemma_tdiv_cases(x as int, y as int); }
    match x.checked_rem(y) {
        Some(m) => {
            proof { lemma_bits64_of_cast(m); }
            Ok(m as u64)
        },
        None => Err(Trap::IntegerOverflow),
    }
}


/// `i64.and`.
pub fn i64_and(a: u64, b: u64) -> (r: u64)
    ensures
        r == a & b,
{
    a & b
}

/// `i64.or`.
pub fn i64_or(a: u64, b: u64) -> (r: u64)
    ensures
        r == a | b,
{
    a | b
}

/// `i64.xor`.
pub fn i64_xor(a: u64, b: u64) -> (r: u64)
    ensures
        r == a ^ b,
{
    a ^ b
}

/// The shift amount of a 64-bit shift or rotate: the count taken modulo the width.
pub open spec fn shift64(b: u64) -> nat {
    (b % 64) as nat
}

/// `i64.shr_u`: logical shift right, `a / 2^(b mod 32)`.
pub fn i64_shr_u(a: u64, b: u64) -> (r: u64)
    ensures
        r == a as nat / pow2(shift64(b)),
        r == a >> (b % 64),
{
    let k = b % 64;
    proof { lemma_u64_shr_is_div(a, k); }
    a >> k
}

/// `i64.shr_s`: arithmetic shift right, the floor of `signed(a) / 2^(b mod 32)`.
pub fn i64_shr_s(a: u64, b: u64) -> (r: u64)
    ensures
        signed64(r) == signed64(a) / (pow2(shift64(b)) as int),
{
    let k = b % 64;
    proof {
        lemma_u64_pow2_no_overflow(k as nat);
        lemma_pow2_pos(k as nat);
    }
    if a < 0x8000_0000_0000_0000 {
        proof { lemma_u64_shr_is_div(a, k); }
        let r = a >> k;
        assert(r <= a) by (nonlinear_arith) requires r == a as nat / pow2(k as nat), pow2(k as nat) > 0;
        r
    } else {
        let na = !a;
        assert(na as int == 0xffff_ffff_ffff_ffff - a) by (bit_vector) requires na == !a;
        proof { lemma_u64_shr_is_div(na, k); }
        let q = na >> k;
        let r = !q;
        assert(r as int == 0xffff_ffff_ffff_ffff - q) by (bit_vector) requires r == !q;
        let ghost p = pow2(k as nat) as int;
        let ghost m = 0xffff_ffff_ffff_ffff - a as int;
        assert(q <= m) by (nonlinear_arith) requires q == m / p, p > 0, m >= 0;
        assert(p * q <= m < p * q + p) by (nonlinear_arith) requires q == m / p, p > 0, m >= 0;
        assert(signed64(a) == -m - 1);
        assert(signed64(r) == -(q as int) - 1);
        assert((-m - 1) / p == -(q as int) - 1) by (nonlinear_arith)
            requires p * q <= m < p * q + p, p > 0;
        r
    }
}

/// `i64.rotr`: the bits of `a` rotated right by `b mod 32`, i.e. rotated left by the complement.
pub fn i64_rotr(a: u64, b: u64) -> (r: u64)
    ensures
        r == bits64(a * pow2(((64 - shift64(b)) % 64) as nat)) + a as nat / pow2((64 - (64 - shift64(b)) % 64) as nat),
{
    let k = b % 64;
    i64_rotl(a, (64 - k) % 64)
}

/// `i64.clz`: the number of leading zero bits.
pub fn i64_clz(a: u64) -> (r: u64)
    ensures
        r == u64_leading_zeros(a) as u64,
{
    a.leading_zeros() as u64
}

/// `i64.ctz`: the number of trailing zero bits.
pub fn i64_ctz(a: u64) -> (r: u64)
    ensures
        r == u64_trailing_zeros(a) as u64,
{
    a.trailing_zeros() as u64
}

/// `i64.popcnt`: the number of set bits.
pub fn i64_popcnt(a: u64) -> (r: u64)
    ensures
        r == popcount(a as nat),
{
    let mut x = a;
    let mut n: u64 = 0;
    while x != 0
        invariant
            popcount(x as nat) + n == popcount(a as nat),
            n + x <= a,
        decreases x,
    {
        n = n + x % 2;
        x = x / 2;
    }
    n
}


/// `i64.eq`.
pub fn i64_eq(a: u64, b: u64) -> (r: u32)
    ensures
        r == bool32(a == b),
{
    if a == b { 1 } else { 0 }
}

/// `i64.ne`.
pub fn i64_ne(a: u64, b: u64) -> (r: u32)
    ensures
        r == bool32(a != b),
{
    if a != b { 1 } else { 0 }
}

/// `i64.lt_u`.
pub fn i64_lt_u(a: u64, b: u64) -> (r: u32)
    ensures
        r == bool32(a < b),
{
    if a < b { 1 } else { 0 }
}

/// `i64.gt_u`.
pub fn i64_gt_u(a: u64, b: u64) -> (r: u32)
    ensures
        r == bool32(a > b),
{
    if a > b { 1 } else { 0 }
}

/// `i64.le_u`.
pub fn i64_le_u(a: u64, b: u64) -> (r: u32)
    ensures
        r == bool32(a <= b),
{
    if a <= b { 1 } else { 0 }
}

/// `i64.ge_u`.
pub fn i64_ge_u(a: u64, b: u64) -> (r: u32)
    ensures
        r == bool32(a >= b),
{
    if a >= b { 1 } else { 0 }
}

/// `i64.lt_s`.
pub fn i64_lt_s(a: u64, b: u64) -> (r: u32)
    ensures
        r == bool32(signed64(a) < signed64(b)),
{
    proof {
        lemma_signed64_of_cast(a);
        lemma_signed64_of_cast(b);
    }
    if (a as i64) < (b as i64) { 1 } else { 0 }
}

/// `i64.gt_s`.
pub fn i64_gt_s(a: u64, b: u64) -> (r: u32)
    ensures
        r == bool32(signed64(a) > signed64(b)),
{
    proof {
        lemma_signed64_of_cast(a);
        lemma_signed64_of_cast(b);
    }
    if (a as i64) > (b as i64) { 1 } else { 0 }
}

/// `i64.le_s`.
pub fn i64_le_s(a: u64, b: u64) -> (r: u32)
    ensures
        r == bool32(signed64(a) <= signed64(b)),
{
    proof {
        lemma_signed64_of_cast(a);
        lemma_signed64_of_cast(b);
    }
    if (a as i64) <= (b as i64) { 1 } else { 0 }
}

/// `i64.ge_s`.
pub fn i64_ge_s(a: u64, b: u64) -> (r: u32)
    ensures
        r == bool32(signed64(a) >= signed64(b)),
{
    proof {
        lemma_signed64_of_cast(a);
        lemma_signed64_of_cast(b);
    }
    if (a as i64) >= (b as i64) { 1 } else { 0 }
}



/// `i64.shl`: `a * 2^(b mod 64)` modulo 2^64.
pub fn i64_shl(a: u64, b: u64) -> (r: u64)
    ensures
        r == bits64(a * pow2(shift64(b))),
        r == a << (b % 64),
{
    let k = b % 64;
    proof { lemma_shl64(a, k); }
    a << k
}

/// `i64.rotl`: the bits of `a` rotated left by `b mod 64`.
pub fn i64_rotl(a: u64, b: u64) -> (r: u64)
    ensures
        r == bits64(a * pow2(shift64(b))) + a as nat / pow2((64 - shift64(b)) as nat),
{
    let k = b % 64;
    if k == 0 {
        proof {
            vstd::arithmetic::power2::lemma2_to64_rest();
            assert(pow2(64) == 0x1_0000_0000_0000_0000);
            assert(a as nat / pow2(64) == 0);
        }
        assert(pow2(0) == 1) by { lemma2_to64(); }
        assert(shift64(b) == 0);
        assert(a * pow2(0) == a);
        assert(bits64(a as int) == a);
        return a;
    }
    let hi = i64_shl(a, k);
    let lo = i64_shr_u(a, 64 - k);
    proof {
        let j = (64 - k) as u64;
        assert(hi & lo == 0) by (bit_vector)
            requires 0 < k < 64, j == 64 - k, hi == a << k, lo == a >> j;
        assert((hi | lo) as int == hi as int + lo as int) by (bit_vector)
            requires hi & lo == 0;
        assert((64 - k) % 64 == 64 - k);
    }
    hi | lo
}

/// `i64.extend8_s`: sign-extends the low byte.
pub fn i64_extend8_s(a: u64) -> (r: u64)
    ensures
        signed64(r) == sext(a as nat, 8),
{
    let r = ((a as u8) as i8) as i64 as u64;
    proof {
        lemma2_to64();
        assert(signed64(r) == (if a % 256 >= 128 { a % 256 - 256 } else { (a % 256) as int })) by (bit_vector)
            requires r == ((a as u8) as i8) as i64 as u64;
    }
    r
}

/// `i64.extend16_s`: sign-extends the low 16 bits.
pub fn i64_extend16_s(a: u64) -> (r: u64)
    ensures
        signed64(r) == sext(a as nat, 16),
{
    let r = ((a as u16) as i16) as i64 as u64;
    proof {
        lemma2_to64();
        assert(signed64(r) == (if a % 65536 >= 32768 { a % 65536 - 65536 } else { (a % 65536) as int })) by (bit_vector)
            requires r == ((a as u16) as i16) as i64 as u64;
    }
    r
}

/// `i64.extend32_s`: sign-extends the low 32 bits.
pub fn i64_extend32_s(a: u64) -> (r: u64)
    ensures
        signed64(r) == sext(a as nat, 32),
{
    let r = ((a as u32) as i32) as i64 as u64;
    proof {
        lemma2_to64();
        assert(signed64(r) == (if a % 0x1_0000_0000 >= 0x8000_0000 { a % 0x1_0000_0000 - 0x1_0000_0000 } else { (a % 0x1_0000_0000) as int })) by (bit_vector)
            requires r == ((a as u32) as i32) as i64 as u64;
    }
    r
}

} // verus!
