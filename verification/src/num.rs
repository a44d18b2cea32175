//! Exact decimal numbers and their comparisons.
//!
//! Every numeric keyword compares schema and instance numbers as exact
//! rationals `mant * 10^exp`, so decimal boundary cases are classified
//! correctly where binary floating point would not be.

use vstd::prelude::*;

verus! {

use vstd::arithmetic::mul::lemma_mul_is_associative;
use vstd::arithmetic::mul::lemma_mul_inequality;
use vstd::arithmetic::mul::lemma_mul_strict_inequality;
use vstd::arithmetic::mul::lemma_mul_strictly_positive;
use vstd::arithmetic::mul::lemma_mul_nonnegative;
use vstd::arithmetic::mul::lemma_mul_unary_negation;
use vstd::arithmetic::div_mod::lemma_mul_mod_noop_left;
use vstd::arithmetic::div_mod::lemma_small_mod;
use vstd::math::abs;

/// An exact decimal number: the rational `mant * 10^exp`.
///
/// Schema and instance numbers are kept in this form so that keywords such as
/// `multipleOf`, `minimum` and `maximum` compare exactly; binary floating
/// point would misclassify boundary cases such as `0.3` against
/// `multipleOf: 0.01`.
#[derive(Clone, Copy, Debug, PartialEq, Eq, Structural)]
pub struct Num {
    pub mant: i64,
    pub exp: i32,
}

/// `10^e`.
pub open spec fn pow10(e: nat) -> int
    decreases e,
{
    if e == 0 {
        1
    } else {
        10 * pow10((e - 1) as nat)
    }
}

/// The smaller of the two exponents: the scale on which both numbers are whole.
pub open spec fn common_exp(a: Num, b: Num) -> int {
    if a.exp <= b.exp {
        a.exp as int
    } else {
        b.exp as int
    }
}

/// The integer `n.mant * 10^(n.exp - e)`: the value of `n` counted in units
/// of `10^e`.  Meaningful whenever `e <= n.exp`.
pub open spec fn scaled(n: Num, e: int) -> int {
    n.mant * pow10((n.exp - e) as nat)
}

/// The value of `a` is at most the value of `b`.
pub open spec fn num_le(a: Num, b: Num) -> bool {
    scaled(a, common_exp(a, b)) <= scaled(b, common_exp(a, b))
}

/// The value of `a` is strictly below the value of `b`.
pub open spec fn num_lt(a: Num, b: Num) -> bool {
    scaled(a, common_exp(a, b)) < scaled(b, common_exp(a, b))
}

/// The two numbers denote the same rational.
pub open spec fn num_eq(a: Num, b: Num) -> bool {
    scaled(a, common_exp(a, b)) == scaled(b, common_exp(a, b))
}

/// `v` is an integer multiple of `m`; meaningful for `m.mant != 0`.
pub open spec fn num_multiple_of(v: Num, m: Num) -> bool {
    abs(scaled(v, common_exp(v, m))) % abs(scaled(m, common_exp(v, m))) == 0
}

/// The number denotes a mathematical integer.
pub open spec fn num_is_int(n: Num) -> bool {
    n.exp >= 0 || (abs(n.mant as int) as int) % pow10((-n.exp) as nat) == 0
}

/// The integer a number denotes; meaningful when `num_is_int(n)`.
pub open spec fn num_int_val(n: Num) -> int {
    if n.exp >= 0 {
        n.mant * pow10(n.exp as nat)
    } else {
        (n.mant as int) / pow10((-n.exp) as nat)
    }
}

/// Relies on i64::unsigned_abs from std: the absolute value of the argument,
/// returned without overflow as an unsigned integer.
pub assume_specification[ i64::unsigned_abs ](x: i64) -> (r: u64)
    ensures
        r == abs(x as int),
;

pub proof fn lemma_pow10_pos(e: nat)
    ensures
        pow10(e) >= 1,
    decreases e,
{
    if e > 0 {
        lemma_pow10_pos((e - 1) as nat);
    }
}

pub proof fn lemma_pow10_adds(x: nat, y: nat)
    ensures
        pow10(x + y) == pow10(x) * pow10(y),
    decreases x,
{
    if x == 0 {
    } else {
        lemma_pow10_adds((x - 1) as nat, y);
        lemma_mul_is_associative(10, pow10((x - 1) as nat), pow10(y));
    }
}

pub proof fn lemma_pow10_mono(x: nat, y: nat)
    requires
        x <= y,
    ensures
        pow10(x) <= pow10(y),
    decreases y,
{
    if y > x {
        lemma_pow10_mono(x, (y - 1) as nat);
        lemma_pow10_pos((y - 1) as nat);
    }
}

pub proof fn lemma_pow10_20()
    ensures
        pow10(20) == 100000000000000000000,
        pow10(19) == 10000000000000000000,
{
    reveal_with_fuel(pow10, 21);
}

pub proof fn lemma_pow10_38()
    ensures
        pow10(38) == 100000000000000000000000000000000000000,
{
    reveal_with_fuel(pow10, 39);
}

/// The magnitude of a product by a nonnegative factor distributes over `abs`.
proof fn lemma_abs_mul(m: int, p: int)
    requires
        p >= 0,
    ensures
        abs(m * p) == abs(m) * p,
{
    if m >= 0 {
        lemma_mul_nonnegative(m, p);
    } else {
        lemma_mul_unary_negation(m, p);
        lemma_mul_nonnegative(-m, p);
    }
}

/// The sign of a scaled number is the sign of its mantissa.
proof fn lemma_scaled_sign(n: Num, e: int)
    requires
        e <= n.exp,
    ensures
        n.mant > 0 ==> scaled(n, e) > 0,
        n.mant == 0 ==> scaled(n, e) == 0,
        n.mant < 0 ==> scaled(n, e) < 0,
{
    let p = pow10((n.exp - e) as nat);
    lemma_pow10_pos((n.exp - e) as nat);
    if n.mant > 0 {
        lemma_mul_strictly_positive(n.mant as int, p);
    } else if n.mant < 0 {
        lemma_mul_strictly_positive(-(n.mant as int), p);
        lemma_mul_unary_negation(n.mant as int, p);
    }
}

/// Digit-count bounds on the mantissa carry over to bounds on the scaled value.
proof fn lemma_scaled_abs_bounds(n: Num, e: int, d: nat)
    requires
        e <= n.exp,
        d >= 1,
        pow10((d - 1) as nat) <= abs(n.mant as int) < pow10(d),
    ensures
        pow10((d - 1 + n.exp - e) as nat) <= abs(scaled(n, e)) < pow10((d + n.exp - e) as nat),
{
    let k = (n.exp - e) as nat;
    let p = pow10(k);
    lemma_pow10_pos(k);
    lemma_abs_mul(n.mant as int, p);
    lemma_pow10_adds((d - 1) as nat, k);
    lemma_pow10_adds(d, k);
    lemma_mul_inequality(pow10((d - 1) as nat), abs(n.mant as int) as int, p);
    lemma_mul_strict_inequality(abs(n.mant as int) as int, pow10(d), p);
}

/// When the decimal magnitude (digit count plus exponent) of `a` is smaller
/// than that of `b`, the absolute value of `a` is smaller.
proof fn lemma_magnitude_lt(a: Num, b: Num, e: int, da: nat, db: nat)
    requires
        e <= a.exp,
        e <= b.exp,
        da >= 1,
        db >= 1,
        pow10((da - 1) as nat) <= abs(a.mant as int) < pow10(da),
        pow10((db - 1) as nat) <= abs(b.mant as int) < pow10(db),
        da + a.exp < db + b.exp,
    ensures
        abs(scaled(a, e)) < abs(scaled(b, e)),
{
    lemma_scaled_abs_bounds(a, e, da);
    lemma_scaled_abs_bounds(b, e, db);
    lemma_pow10_mono((da + a.exp - e) as nat, (db - 1 + b.exp - e) as nat);
}

/// The number of decimal digits of `x`: the unique `d` with
/// `10^(d-1) <= x < 10^d`.
pub fn ndigits_u64(x: u64) -> (d: u32)
    requires
        x >= 1,
    ensures
        1 <= d <= 20,
        pow10((d - 1) as nat) <= x < pow10(d as nat),
{
    let mut d: u32 = 1;
    let mut p: u128 = 10;
    proof {
        reveal_with_fuel(pow10, 2);
    }
    while (x as u128) >= p
        invariant
            1 <= d <= 20,
            p == pow10(d as nat),
            pow10((d - 1) as nat) <= x,
        decreases 20 - d,
    {
        proof {
            lemma_pow10_20();
            if d >= 20 {
                lemma_pow10_mono(20, d as nat);
            }
            lemma_pow10_mono((d + 1) as nat, 20);
            lemma_pow10_pos(d as nat);
        }
        d = d + 1;
        p = p * 10;
    }
    d
}

/// `10^e` as a `u64`.
pub fn pow10_u64(e: u32) -> (r: u64)
    requires
        e <= 19,
    ensures
        r == pow10(e as nat),
{
    let mut i: u32 = 0;
    let mut r: u64 = 1;
    while i < e
        invariant
            i <= e <= 19,
            r == pow10(i as nat),
        decreases e - i,
    {
        proof {
            lemma_pow10_mono((i + 1) as nat, 19);
            lemma_pow10_20();
            lemma_pow10_pos(i as nat);
        }
        r = r * 10;
        i = i + 1;
    }
    r
}

/// `10^e` as a `u128`.
pub fn pow10_u128(e: u32) -> (r: u128)
    requires
        e <= 38,
    ensures
        r == pow10(e as nat),
{
    let mut i: u32 = 0;
    let mut r: u128 = 1;
    while i < e
        invariant
            i <= e <= 38,
            r == pow10(i as nat),
        decreases e - i,
    {
        proof {
            lemma_pow10_mono((i + 1) as nat, 38);
            lemma_pow10_38();
            lemma_pow10_pos(i as nat);
        }
        r = r * 10;
        i = i + 1;
    }
    r
}

/// How two numbers compare.
pub enum NumOrd {
    Less,
    Equal,
    Greater,
}

/// Exact three-way comparison of two decimal numbers.
pub fn num_cmp(a: &Num, b: &Num) -> (r: NumOrd)
    ensures
        (r is Less) == num_lt(*a, *b),
        (r is Equal) == num_eq(*a, *b),
        (r is Greater) == num_lt(*b, *a),
{
    let ghost e = common_exp(*a, *b);
    proof {
        lemma_scaled_sign(*a, e);
        lemma_scaled_sign(*b, e);
    }
    if a.mant == 0 && b.mant == 0 {
        return NumOrd::Equal;
    }
    if a.mant <= 0 && b.mant > 0 {
        return NumOrd::Less;
    }
    if a.mant < 0 && b.mant >= 0 {
        return NumOrd::Less;
    }
    if b.mant <= 0 && a.mant > 0 {
        return NumOrd::Greater;
    }
    if b.mant < 0 && a.mant >= 0 {
        return NumOrd::Greater;
    }
    // both mantissas have the same nonzero sign
    let da = ndigits_u64(a.mant.unsigned_abs());
    let db = ndigits_u64(b.mant.unsigned_abs());
    let ma: i64 = da as i64 + a.exp as i64;
    let mb: i64 = db as i64 + b.exp as i64;
    if ma < mb {
        proof {
            lemma_magnitude_lt(*a, *b, e, da as nat, db as nat);
        }
        if a.mant > 0 {
            return NumOrd::Less;
        } else {
            return NumOrd::Greater;
        }
    }
    if mb < ma {
        proof {
            lemma_magnitude_lt(*b, *a, e, db as nat, da as nat);
        }
        if a.mant > 0 {
            return NumOrd::Greater;
        } else {
            return NumOrd::Less;
        }
    }
    // equal decimal magnitude: the exponents differ by at most 19, so both
    // values fit in an i128 once aligned to the smaller exponent
    let big_a: i128;
    let big_b: i128;
    if a.exp >= b.exp {
        let d = (a.exp as i64 - b.exp as i64) as u32;
        proof {
            lemma_pow10_pos(d as nat);
            lemma_pow10_adds((da - 1) as nat, d as nat);
            lemma_pow10_adds(da as nat, d as nat);
            lemma_scaled_abs_bounds(*a, e, da as nat);
            lemma_pow10_mono(d as nat, 38);
            lemma_pow10_mono((da + d) as nat, 38);
            lemma_pow10_38();
            lemma_abs_mul(a.mant as int, pow10(d as nat));
        }
        big_a = (a.mant as i128) * (pow10_u128(d) as i128);
        big_b = b.mant as i128;
        proof {
            assert((b.exp - e) as nat == 0);
            assert(pow10((b.exp - e) as nat) == 1);
            assert(big_b == scaled(*b, e));
            assert((a.exp - e) as nat == d as nat);
            assert(big_a == scaled(*a, e));
        }
    } else {
        let d = (b.exp as i64 - a.exp as i64) as u32;
        proof {
            lemma_pow10_pos(d as nat);
            lemma_pow10_adds((db - 1) as nat, d as nat);
            lemma_pow10_adds(db as nat, d as nat);
            lemma_scaled_abs_bounds(*b, e, db as nat);
            lemma_pow10_mono(d as nat, 38);
            lemma_pow10_mono((db + d) as nat, 38);
            lemma_pow10_38();
            lemma_abs_mul(b.mant as int, pow10(d as nat));
        }
        big_a = a.mant as i128;
        big_b = (b.mant as i128) * (pow10_u128(d) as i128);
        proof {
            assert((a.exp - e) as nat == 0);
            assert(pow10((a.exp - e) as nat) == 1);
            assert(big_a == scaled(*a, e));
            assert((b.exp - e) as nat == d as nat);
            assert(big_b == scaled(*b, e));
        }
    }
    proof {
        assert(big_a == scaled(*a, e));
        assert(big_b == scaled(*b, e));
    }
    if big_a < big_b {
        NumOrd::Less
    } else if big_a == big_b {
        NumOrd::Equal
    } else {
        NumOrd::Greater
    }
}

/// Whether `v` is an exact integer multiple of `m`.
pub fn num_multiple_of_exec(v: &Num, m: &Num) -> (r: bool)
    requires
        m.mant != 0,
    ensures
        r == num_multiple_of(*v, *m),
{
    let ghost e = common_exp(*v, *m);
    proof {
        lemma_scaled_sign(*v, e);
        lemma_scaled_sign(*m, e);
    }
    if v.mant == 0 {
        proof {
            assert(abs(scaled(*v, e)) == 0);
            assert(abs(scaled(*m, e)) > 0);
            lemma_small_mod(0, abs(scaled(*m, e)));
        }
        return true;
    }
    let av: u64 = v.mant.unsigned_abs();
    let am: u64 = m.mant.unsigned_abs();
    if v.exp >= m.exp {
        // scale v's mantissa up step by step, reducing modulo |m.mant|
        let dv = (v.exp as i64 - m.exp as i64) as u64;
        proof {
            assert(scaled(*m, e) == m.mant) by {
                assert(pow10((m.exp - e) as nat) == 1);
            }
            lemma_pow10_pos((v.exp - e) as nat);
            lemma_abs_mul(v.mant as int, pow10((v.exp - e) as nat));
        }
        let mut i: u64 = 0;
        let mut r: u128 = (av as u128) % (am as u128);
        while i < dv
            invariant
                i <= dv,
                am == abs(m.mant as int),
                av == abs(v.mant as int),
                am >= 1,
                r == (av * pow10(i as nat)) % (am as int),
                r < am,
                e == common_exp(*v, *m),
                m.mant != 0,
                abs(scaled(*v, e)) == av * pow10(dv as nat),
                abs(scaled(*m, e)) == am,
            decreases dv - i,
        {
            proof {
                lemma_pow10_pos(i as nat);
                lemma_mul_mod_noop_left((av * pow10(i as nat)) as int, 10, am as int);
                lemma_mul_is_associative(av as int, pow10(i as nat), 10);
                lemma_pow10_adds(i as nat, 1);
                assert(pow10(1) == 10) by {
                    reveal_with_fuel(pow10, 2);
                }
            }
            if r == 0 {
                // once the remainder is zero it stays zero
                proof {
                    lemma_pow10_pos((dv - i) as nat);
                    lemma_pow10_adds(i as nat, (dv - i) as nat);
                    lemma_mul_mod_noop_left(
                        (av * pow10(i as nat)) as int,
                        pow10((dv - i) as nat),
                        am as int,
                    );
                    lemma_mul_is_associative(av as int, pow10(i as nat), pow10((dv - i) as nat));
                    lemma_small_mod(0, am as nat);
                }
                return true;
            }
            r = (r * 10) % (am as u128);
            i = i + 1;
        }
        r == 0
    } else {
        // m is the finer-grained number: v is a multiple only if |v.mant| is
        // divisible by |m.mant| * 10^(m.exp - v.exp)
        let dm = (m.exp as i64 - v.exp as i64) as u64;
        proof {
            assert(scaled(*v, e) == v.mant) by {
                assert(pow10((v.exp - e) as nat) == 1);
            }
            lemma_pow10_pos((m.exp - e) as nat);
            lemma_abs_mul(m.mant as int, pow10((m.exp - e) as nat));
        }
        if dm >= 20 {
            // the divisor exceeds 10^20 > |v.mant|, and v is not zero
            proof {
                lemma_pow10_20();
                lemma_pow10_mono(20, dm as nat);
                lemma_mul_inequality(1, abs(m.mant as int) as int, pow10(dm as nat));
                lemma_small_mod(abs(scaled(*v, e)), abs(scaled(*m, e)));
            }
            return false;
        }
        proof {
            lemma_pow10_20();
            lemma_pow10_38();
            lemma_pow10_mono(dm as nat, 19);
            lemma_pow10_pos(dm as nat);
            lemma_mul_strict_inequality(am as int, pow10(19), pow10(dm as nat));
            vstd::arithmetic::mul::lemma_mul_left_inequality(
                pow10(19),
                pow10(dm as nat),
                pow10(19),
            );
            lemma_pow10_adds(19, 19);
        }
        let divisor: u128 = (am as u128) * (pow10_u64(dm as u32) as u128);
        let r: u128 = (av as u128) % divisor;
        r == 0
    }
}


pub fn num_to_u64(n: &Num) -> (r: Option<u64>)
    ensures
        r matches Some(x) ==> num_is_int(*n) && num_int_val(*n) == x,
        r is None ==> !(num_is_int(*n) && 0 <= num_int_val(*n) <= u64::MAX),
{
    if n.mant < 0 {
        proof {
            if n.exp >= 0 {
                lemma_pow10_pos(n.exp as nat);
                lemma_mul_strictly_positive(-(n.mant as int), pow10(n.exp as nat));
                lemma_mul_unary_negation(n.mant as int, pow10(n.exp as nat));
            } else {
                let p = pow10((-n.exp) as nat);
                lemma_pow10_pos((-n.exp) as nat);
                vstd::arithmetic::div_mod::lemma_fundamental_div_mod(n.mant as int, p);
                if (n.mant as int) / p >= 0 {
                    lemma_mul_nonnegative(p, (n.mant as int) / p);
                }
            }
        }
        return None;
    }
    let mant: u64 = n.mant as u64;
    if n.exp >= 0 {
        let en: u32 = if n.exp > 20 { 20 } else { n.exp as u32 };
        if mant == 0 {
            proof {
                lemma_pow10_pos(n.exp as nat);
            }
            return Some(0);
        }
        if en >= 20 {
            // value >= 10^20 > u64::MAX
            proof {
                lemma_pow10_20();
                lemma_pow10_mono(20, n.exp as nat);
                lemma_mul_inequality(1, n.mant as int, pow10(n.exp as nat));
            }
            return None;
        }
        let d = ndigits_u64(mant);
        if d + en > 20 {
            proof {
                lemma_pow10_20();
                lemma_pow10_adds((d - 1) as nat, en as nat);
                lemma_pow10_mono(20, (d - 1 + en) as nat);
                lemma_pow10_pos(en as nat);
                lemma_mul_inequality(pow10((d - 1) as nat), mant as int, pow10(en as nat));
            }
            return None;
        }
        proof {
            lemma_pow10_adds(d as nat, en as nat);
            lemma_pow10_mono((d + en) as nat, 20);
            lemma_pow10_20();
            lemma_pow10_pos(en as nat);
            lemma_mul_strict_inequality(mant as int, pow10(d as nat), pow10(en as nat));
        }
        let p: u128 = pow10_u128(en);
        let wide: u128 = (mant as u128) * p;
        if wide > u64::MAX as u128 {
            return None;
        }
        Some(wide as u64)
    } else {
        let ke: i64 = -(n.exp as i64);
        if mant == 0 {
            proof {
                let p = pow10((-n.exp) as nat);
                lemma_pow10_pos((-n.exp) as nat);
                lemma_small_mod(0, p as nat);
            }
            return Some(0);
        }
        if ke >= 20 {
            // 10^k exceeds the mantissa, so the fraction cannot be an integer
            proof {
                let p = pow10((-n.exp) as nat);
                lemma_pow10_20();
                lemma_pow10_mono(20, (-n.exp) as nat);
                lemma_small_mod(abs(n.mant as int), p as nat);
            }
            return None;
        }
        let p: u64 = pow10_u64(ke as u32);
        proof {
            lemma_pow10_pos(ke as nat);
        }
        if mant % p == 0 {
            Some(mant / p)
        } else {
            None
        }
    }
}

/// Whether the number denotes a mathematical integer.
pub fn num_is_int_exec(n: &Num) -> (r: bool)
    ensures
        r == num_is_int(*n),
{
    if n.exp >= 0 {
        return true;
    }
    let k: i64 = -(n.exp as i64);
    if k >= 20 {
        proof {
            lemma_pow10_20();
            lemma_pow10_mono(20, (-n.exp) as nat);
            if n.mant != 0 {
                lemma_small_mod(abs(n.mant as int), pow10((-n.exp) as nat) as nat);
            } else {
                lemma_pow10_pos((-n.exp) as nat);
                lemma_small_mod(0, pow10((-n.exp) as nat) as nat);
            }
        }
        n.mant == 0
    } else {
        let p = pow10_u64(k as u32);
        proof {
            lemma_pow10_pos((-n.exp) as nat);
        }
        n.mant.unsigned_abs() % p == 0
    }
}

/// Where an integer-valued number stands relative to the `u64` range.
pub enum NumInt {
    Exact(u64),
    Above,
    Below,
    NotInt,
}

/// Classifies a number: its value as a `u64` where it is one, or on which
/// side of that range it falls, or that it is no integer at all.
pub fn num_int_range(n: &Num) -> (r: NumInt)
    ensures
        r matches NumInt::Exact(x) ==> num_is_int(*n) && num_int_val(*n) == x,
        r is Above ==> num_is_int(*n) && num_int_val(*n) > u64::MAX,
        r is Below ==> num_is_int(*n) && num_int_val(*n) < 0,
        r is NotInt ==> !num_is_int(*n),
{
    if !num_is_int_exec(n) {
        return NumInt::NotInt;
    }
    if n.mant == 0 {
        proof {
            if n.exp >= 0 {
                lemma_pow10_pos(n.exp as nat);
            } else {
                lemma_pow10_pos((-n.exp) as nat);
            }
        }
        return NumInt::Exact(0);
    }
    if n.mant < 0 {
        proof {
            if n.exp >= 0 {
                lemma_pow10_pos(n.exp as nat);
                lemma_mul_strictly_positive(-(n.mant as int), pow10(n.exp as nat));
                lemma_mul_unary_negation(n.mant as int, pow10(n.exp as nat));
            } else {
                let p = pow10((-n.exp) as nat);
                lemma_pow10_pos((-n.exp) as nat);
                let q = abs(n.mant as int) as int / p;
                vstd::arithmetic::div_mod::lemma_fundamental_div_mod(abs(n.mant as int) as int, p);
                vstd::arithmetic::div_mod::lemma_div_pos_is_pos(abs(n.mant as int) as int, p);
                assert(abs(n.mant as int) == q * p);
                assert(q > 0) by {
                    if q == 0 {
                        vstd::arithmetic::mul::lemma_mul_by_zero_is_zero(p);
                        assert(q * p == 0);
                    }
                }
                assert(n.mant as int == (-q) * p + 0) by {
                    lemma_mul_unary_negation(q, p);
                }
                vstd::arithmetic::div_mod::lemma_fundamental_div_mod_converse(
                    n.mant as int,
                    p,
                    -q,
                    0,
                );
                lemma_mul_strictly_positive(q, p);
                lemma_mul_unary_negation(q, p);
            }
        }
        return NumInt::Below;
    }
    // positive mantissa
    let mant: u64 = n.mant as u64;
    if n.exp >= 0 {
        if n.exp >= 20 {
            proof {
                lemma_pow10_20();
                lemma_pow10_mono(20, n.exp as nat);
                lemma_mul_inequality(1, n.mant as int, pow10(n.exp as nat));
            }
            return NumInt::Above;
        }
        let d = ndigits_u64(mant);
        if d + (n.exp as u32) > 20 {
            proof {
                lemma_pow10_20();
                lemma_pow10_adds((d - 1) as nat, n.exp as nat);
                lemma_pow10_mono(20, (d - 1 + n.exp) as nat);
                lemma_pow10_pos(n.exp as nat);
                lemma_mul_inequality(pow10((d - 1) as nat), mant as int, pow10(n.exp as nat));
            }
            return NumInt::Above;
        }
        proof {
            lemma_pow10_adds(d as nat, n.exp as nat);
            lemma_pow10_mono((d + n.exp) as nat, 20);
            lemma_pow10_20();
            lemma_pow10_pos(n.exp as nat);
            lemma_mul_strict_inequality(mant as int, pow10(d as nat), pow10(n.exp as nat));
        }
        let p: u128 = pow10_u128(n.exp as u32);
        let wide: u128 = (mant as u128) * p;
        if wide > u64::MAX as u128 {
            NumInt::Above
        } else {
            NumInt::Exact(wide as u64)
        }
    } else {
        let k: i64 = -(n.exp as i64);
        // the number is an integer, so the mantissa is divisible by 10^k
        proof {
            let p = pow10((-n.exp) as nat);
            lemma_pow10_pos((-n.exp) as nat);
            vstd::arithmetic::div_mod::lemma_div_pos_is_pos(abs(n.mant as int) as int, p);
            if k >= 20 {
                lemma_pow10_20();
                lemma_pow10_mono(20, (-n.exp) as nat);
                lemma_small_mod(abs(n.mant as int), p as nat);
            }
        }
        let p = pow10_u64(k as u32);
        NumInt::Exact(mant / p)
    }
}

} // verus!
