//! Decimal rendering of integers, rounding of integers to `f64`, and
//! round-half-to-even division: the arithmetic behind one-decimal figures.

use vstd::prelude::*;
use vstd::string::StringExecFns;

verus! {

/// The character of a decimal digit `d` (`0 <= d < 10`).
pub open spec fn digit_char(d: nat) -> char {
    (d + 48) as char
}

/// The decimal representation of `n`, most significant digit first, with no
/// leading zeros (zero itself is `"0"`).
pub open spec fn decimal_chars(n: nat) -> Seq<char>
    decreases n,
{
    if n < 10 {
        seq![digit_char(n)]
    } else {
        decimal_chars(n / 10).push(digit_char(n % 10))
    }
}

/// The one-character string of the digit `d`.
pub(crate) fn digit_str(d: u8) -> (s: &'static str)
    requires
        d < 10,
    ensures
        s@ == seq![digit_char(d as nat)],
{
    proof {
        reveal_strlit("0");
        reveal_strlit("1");
        reveal_strlit("2");
        reveal_strlit("3");
        reveal_strlit("4");
        reveal_strlit("5");
        reveal_strlit("6");
        reveal_strlit("7");
        reveal_strlit("8");
        reveal_strlit("9");
    }
    match d {
        0 => "0",
        1 => "1",
        2 => "2",
        3 => "3",
        4 => "4",
        5 => "5",
        6 => "6",
        7 => "7",
        8 => "8",
        _ => "9",
    }
}

/// Appends the decimal representation of `n` to `out`.
pub fn push_decimal(out: &mut String, n: u128)
    ensures
        final(out)@ == old(out)@ + decimal_chars(n as nat),
    decreases n,
{
    if n >= 10 {
        push_decimal(out, n / 10);
    }
    let d = (n % 10) as u8;
    out.append(digit_str(d));
    proof {
        if n >= 10 {
            assert(decimal_chars(n as nat) == decimal_chars((n / 10) as nat).push(digit_char((n % 10) as nat)));
        }
    }
}

/// `x / d` rounded to the nearest integer, ties going to the even neighbour.
pub open spec fn div_round_half_even(x: nat, d: nat) -> nat {
    let q = x / d;
    let r = x % d;
    if 2 * r > d || (2 * r == d && q % 2 == 1) {
        q + 1
    } else {
        q
    }
}

/// Division rounding half to even, on `u128`.
pub fn div_round_half_even_u128(x: u128, d: u128) -> (q: u128)
    requires
        d > 0,
    ensures
        q as nat == div_round_half_even(x as nat, d as nat),
{
    let q = x / d;
    let r = x % d;
    proof {
        vstd::arithmetic::div_mod::lemma_fundamental_div_mod(x as int, d as int);
        assert(d as int * q as int >= q as int) by (nonlinear_arith)
            requires d >= 1, q >= 0;
        if r > 0 {
            assert(q < x);
        }
    }
    if r > d - r || (r == d - r && q % 2 == 1) {
        q + 1
    } else {
        q
    }
}

/// 2^53: every integer below it is exactly an `f64`.
pub const F64_EXACT_LIMIT: u64 = 0x20_0000_0000_0000;

/// How many low bits of `b` do not fit in the 53-bit significand of an `f64`.
pub open spec fn excess_bits(b: nat) -> nat
    decreases b,
{
    if b < F64_EXACT_LIMIT as nat {
        0
    } else {
        1 + excess_bits(b / 2)
    }
}

/// The value of `b as f64`: `b` rounded to 53 significant bits, to nearest,
/// ties to even.
pub open spec fn f64_of_integer(b: nat) -> nat {
    let p = vstd::arithmetic::power2::pow2(excess_bits(b));
    div_round_half_even(b, p) * p
}

/// The exact value of `b as f64`, as an integer.
pub fn f64_value_of_u64(b: u64) -> (v: u128)
    ensures
        v as nat == f64_of_integer(b as nat),
        v < 0x2_0000_0000_0000_0000,
{
    let mut x: u64 = b;
    let mut p: u64 = 1;
    let ghost mut e: nat = 0;
    proof {
        vstd::arithmetic::power2::lemma2_to64();
    }
    while x >= F64_EXACT_LIMIT
        invariant
            x == b / p,
            p == vstd::arithmetic::power2::pow2(e),
            excess_bits(b as nat) == e + excess_bits(x as nat),
            1 <= p < 4096,
        decreases x,
    {
        proof {
            vstd::arithmetic::div_mod::lemma_fundamental_div_mod(b as int, p as int);
            let xx = x as int;
            let pp = p as int;
            assert(pp * xx <= b) by {
                vstd::arithmetic::div_mod::lemma_remainder_lower(b as int, pp);
            }
            assert(pp * 0x20_0000_0000_0000 <= pp * xx) by (nonlinear_arith)
                requires xx >= 0x20_0000_0000_0000, pp >= 1;
            assert(p < 2048);
            vstd::arithmetic::div_mod::lemma_div_denominator(b as int, p as int, 2);
            vstd::arithmetic::power2::lemma_pow2_unfold(e + 1);
        }
        x = x / 2;
        p = p * 2;
        proof {
            e = e + 1;
        }
    }
    proof {
        assert(excess_bits(x as nat) == 0);
    }
    let m = div_round_half_even_u128(b as u128, p as u128);
    proof {
        assert(m <= b as u128 + 1) by {
            vstd::arithmetic::div_mod::lemma_div_is_ordered_by_denominator(b as int, 1, p as int);
        }
        vstd::arithmetic::div_mod::lemma_fundamental_div_mod(b as int, p as int);
        assert(m * p < 0x2_0000_0000_0000_0000) by {
            let bq = b as int / p as int;
            assert(m as int <= bq + 1);
            assert(m as int * p as int <= bq * p as int + p as int) by (nonlinear_arith)
                requires m as int <= bq + 1, p >= 1;
            assert(bq * p as int <= b as int);
        }
    }
    m * (p as u128)
}

/// The number that a string of decimal digits denotes.
pub open spec fn digits_value(s: Seq<char>) -> nat
    decreases s.len(),
{
    if s.len() == 0 {
        0
    } else {
        digits_value(s.drop_last()) * 10 + ((s.last() as int - 48) as nat)
    }
}

/// Reading back the decimal representation of `n` gives `n`.
pub proof fn lemma_decimal_chars_value(n: nat)
    ensures
        digits_value(decimal_chars(n)) == n,
        decimal_chars(n).len() >= 1,
    decreases n,
{
    if n < 10 {
        let s = decimal_chars(n);
        assert(s.drop_last() =~= Seq::<char>::empty());
        assert(digits_value(s.drop_last()) == 0);
        assert(s.last() as int == n + 48);
    } else {
        lemma_decimal_chars_value(n / 10);
        let s = decimal_chars(n);
        assert(s.drop_last() =~= decimal_chars(n / 10));
        assert(s.last() as int == n % 10 + 48);
        assert(n == (n / 10) * 10 + n % 10);
    }
}

/// Distinct numbers have distinct decimal representations.
pub proof fn lemma_decimal_chars_injective(a: nat, b: nat)
    requires
        decimal_chars(a) == decimal_chars(b),
    ensures
        a == b,
{
    lemma_decimal_chars_value(a);
    lemma_decimal_chars_value(b);
}

/// Rounding half to even lands within half a divisor of the exact quotient:
/// `|q * d - x| <= d / 2`.
pub proof fn lemma_div_round_half_even_close(x: nat, d: nat)
    requires
        d > 0,
    ensures
        2 * (div_round_half_even(x, d) * d - x) <= d,
        2 * (x - div_round_half_even(x, d) * d) <= d,
{
    let q = x / d;
    let r = x % d;
    vstd::arithmetic::div_mod::lemma_fundamental_div_mod(x as int, d as int);
    assert((q + 1) * d == q * d + d) by (nonlinear_arith);
    assert(q * d == d * q) by (nonlinear_arith);
}

/// Below 2^53 an integer is exactly an `f64`.
pub proof fn lemma_f64_of_small_integer(b: nat)
    requires
        b < F64_EXACT_LIMIT as nat,
    ensures
        f64_of_integer(b) == b,
{
    assert(excess_bits(b) == 0);
    vstd::arithmetic::power2::lemma2_to64();
    assert(vstd::arithmetic::power2::pow2(0) == 1);
    assert(b / 1 == b);
    assert(b % 1 == 0);
}

/// Rounding half to even is monotone in the dividend.
pub proof fn lemma_div_round_half_even_monotone(x: nat, y: nat, d: nat)
    requires
        x <= y,
        d > 0,
    ensures
        div_round_half_even(x, d) <= div_round_half_even(y, d),
{
    let qx = x / d;
    let qy = y / d;
    vstd::arithmetic::div_mod::lemma_div_is_ordered(x as int, y as int, d as int);
    vstd::arithmetic::div_mod::lemma_fundamental_div_mod(x as int, d as int);
    vstd::arithmetic::div_mod::lemma_fundamental_div_mod(y as int, d as int);
    if qx == qy {
        assert(x % d <= y % d);
    } else {
        assert(qx + 1 <= qy);
    }
}

/// Below 2^53 the excess is 0; above it, dropping the excess bits leaves a
/// 53-bit significand: `2^52 <= b / 2^e < 2^53`.
proof fn lemma_excess_bits_bounds(b: nat)
    ensures
        b / vstd::arithmetic::power2::pow2(excess_bits(b)) < F64_EXACT_LIMIT as nat,
        excess_bits(b) > 0 ==> b / vstd::arithmetic::power2::pow2(excess_bits(b))
            >= F64_EXACT_LIMIT as nat / 2,
    decreases b,
{
    vstd::arithmetic::power2::lemma2_to64();
    if b >= F64_EXACT_LIMIT as nat {
        let h = b / 2;
        lemma_excess_bits_bounds(h);
        let e = excess_bits(h);
        vstd::arithmetic::power2::lemma_pow2_unfold(e + 1);
        vstd::arithmetic::power2::lemma_pow2_pos(e);
        vstd::arithmetic::div_mod::lemma_div_denominator(b as int, 2, vstd::arithmetic::power2::pow2(e) as int);
        assert(excess_bits(b) == e + 1);
    } else {
        assert(b / 1 == b);
    }
}

/// A larger integer never has fewer excess bits.
proof fn lemma_excess_bits_monotone(a: nat, b: nat)
    requires
        a <= b,
    ensures
        excess_bits(a) <= excess_bits(b),
    decreases b,
{
    if a >= F64_EXACT_LIMIT as nat {
        lemma_excess_bits_monotone(a / 2, b / 2);
    }
}

/// Conversion to `f64` is monotone: `a <= b` implies `a as f64 <= b as f64`.
pub proof fn lemma_f64_of_integer_monotone(a: nat, b: nat)
    requires
        a <= b,
    ensures
        f64_of_integer(a) <= f64_of_integer(b),
{
    let ea = excess_bits(a);
    let eb = excess_bits(b);
    let pa = vstd::arithmetic::power2::pow2(ea);
    let pb = vstd::arithmetic::power2::pow2(eb);
    vstd::arithmetic::power2::lemma_pow2_pos(ea);
    vstd::arithmetic::power2::lemma_pow2_pos(eb);
    lemma_excess_bits_monotone(a, b);
    if ea == eb {
        lemma_div_round_half_even_monotone(a, b, pa);
        let ra = div_round_half_even(a, pa);
        let rb = div_round_half_even(b, pa);
        assert(ra * pa <= rb * pa) by (nonlinear_arith)
            requires ra <= rb;
    } else {
        lemma_excess_bits_bounds(a);
        lemma_excess_bits_bounds(b);
        vstd::arithmetic::power2::lemma_pow2_adds(ea, (eb - ea) as nat);
        vstd::arithmetic::power2::lemma_pow2_strictly_increases(0, (eb - ea) as nat);
        vstd::arithmetic::power2::lemma2_to64();
        let k = vstd::arithmetic::power2::pow2((eb - ea) as nat);
        assert(pb == pa * k);
        assert(k >= 2);
        let lim = F64_EXACT_LIMIT as nat;
        let ra = div_round_half_even(a, pa);
        let rb = div_round_half_even(b, pb);
        assert(ra <= lim);
        assert(rb >= b / pb);
        assert(rb >= lim / 2);
        assert(lim / 2 * 2 == lim);
        assert(ra * pa <= rb * pb) by (nonlinear_arith)
            requires
                ra <= lim,
                rb >= lim / 2,
                lim / 2 * 2 == lim,
                pb == pa * k,
                k >= 2,
                pa > 0,
        ;
    }
}

} // verus!
