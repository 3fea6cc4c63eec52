//! Decimal numerals read as binary64 readings, correctly rounded.
use vstd::arithmetic::div_mod::*;
use vstd::arithmetic::power2::*;
use vstd::arithmetic::power::*;
use vstd::prelude::*;
use vstd::string::*;

use crate::reading::{
    bit_length, choose_length, digits_value, doubled, excess_bits, fixed_point, lemma_digits_push,
    lemma_excess_bits, lemma_excess_bits_small, lemma_nearest_scale, lemma_sticky_quotient,
    nearest, proper_digits, round_exponents, signed, Reading, INFINITE, STEP,
    UNDEFINED,
};
use crate::text::{
    all_digits, chars_of, decimal, digit, first_of, first_of_bounds, is_digit, lower_text,
    lowered_all, number, position_of, same,
};

verus! {

/// Where exponents are held: far beyond those of every magnitude, and beyond the
/// length of every text.
pub const EXPONENT_CAP: u128 = 0xffff_ffff_ffff_ffff_ffff;

/// The magnitude nearest to `n * 10^e`.
pub open spec fn scaled(n: nat, e: int) -> nat {
    if e >= 0 {
        nearest(n * pow(10, e as nat) as nat * pow2(1074), 1)
    } else {
        nearest(n * pow2(1074), pow(10, (-e) as nat) as nat)
    }
}

proof fn lemma_ten_bits(n: nat)
    ensures
        pow2(3 * n) <= pow(10, n) <= pow2(4 * n),
        pow(10, n) > 0,
    decreases n,
{
    lemma2_to64();
    reveal(pow);
    if n > 0 {
        let k = (n - 1) as nat;
        lemma_ten_bits(k);
        lemma_pow2_adds(3 * k, 3);
        lemma_pow2_adds(4 * k, 4);
        assert(3 * k + 3 == 3 * n && 4 * k + 4 == 4 * n);
        assert(pow(10, n) == 10 * pow(10, k));
        assert(pow2(3 * k) * 8 <= 10 * pow(10, k) <= pow2(4 * k) * 16) by (nonlinear_arith)
            requires
                0 <= pow2(3 * k) <= pow(10, k) <= pow2(4 * k),
        ;
    }
}

/// Digits split at any place.
proof fn lemma_digits_split(d: Seq<u8>, m: nat)
    requires
        m <= d.len(),
        forall|i: int| 0 <= i < d.len() ==> #[trigger] d[i] < 10,
    ensures
        digits_value(d) == digits_value(d.take(m as int)) + pow(10, m) * digits_value(
            d.skip(m as int),
        ),
        digits_value(d.take(m as int)) < pow(10, m),
    decreases m,
{
    reveal(pow);
    if m == 0 {
        assert(d.take(0) == Seq::<u8>::empty());
        assert(d.skip(0) == d);
        assert(1 * digits_value(d) == digits_value(d));
    } else {
        let k = (m - 1) as nat;
        lemma_digits_split(d, k);
        assert(d.take(m as int) == d.take(k as int).push(d[k as int]));
        lemma_digits_push(d.take(k as int), d[k as int]);
        assert(d.skip(k as int).drop_first() == d.skip(m as int));
        let (p, x, rest) = (pow(10, k), d[k as int] as int, digits_value(d.skip(m as int)) as int);
        assert(pow(10, m) == 10 * p);
        lemma_ten_bits(k);
        assert(p * (x + 10 * rest) == x * p + (10 * p) * rest) by (nonlinear_arith);
        assert(x * p <= 9 * p) by (nonlinear_arith)
            requires
                x <= 9,
                p > 0,
        ;
    }
}

/// How large a number of `d.len()` digits is.
proof fn lemma_digits_bounds(d: Seq<u8>)
    requires
        proper_digits(d),
    ensures
        digits_value(d) < pow(10, d.len()),
        digits_value(d) > 0 ==> d.last() > 0,
        d.last() > 0 ==> pow(10, (d.len() - 1) as nat) <= digits_value(d),
{
    let k = (d.len() - 1) as nat;
    lemma_digits_split(d, d.len());
    assert(d.take(d.len() as int) == d);
    assert(d.skip(d.len() as int) == Seq::<u8>::empty());
    assert(pow(10, d.len()) * 0 == 0) by (nonlinear_arith);
    lemma_digits_split(d, k);
    assert(d.skip(k as int).drop_first() == Seq::<u8>::empty());
    assert(digits_value(d.skip(k as int)) == d.last());
    lemma_ten_bits(k);
    assert(d.last() > 0 ==> pow(10, k) * d.last() >= pow(10, k)) by (nonlinear_arith)
        requires
            pow(10, k) > 0,
    ;
    if d.last() == 0 {
        assert(d.len() == 1);
        assert(d.drop_first() == Seq::<u8>::empty());
    }
}

/// Half the number that `d` stands for, and whether one is left over.
fn halved(d: &Vec<u8>) -> (r: (Vec<u8>, bool))
    requires
        proper_digits(d@),
    ensures
        proper_digits(r.0@),
        digits_value(r.0@) == digits_value(d@) / 2,
        r.1 == (digits_value(d@) % 2 == 1),
        r.0@.len() <= d@.len() <= r.0@.len() + 1,
{
    let mut r: Vec<u8> = Vec::new();
    let mut k: usize = 0;
    while k < d.len()
        invariant
            k <= d@.len(),
            r@.len() == k,
        decreases d@.len() - k,
    {
        r.push(0);
        k = k + 1;
    }
    let mut carry: u8 = 0;
    let mut i: usize = d.len();
    assert(d@.skip(i as int) == Seq::<u8>::empty());
    assert(r@.skip(i as int) == Seq::<u8>::empty());
    while i > 0
        invariant
            i <= d@.len(),
            r@.len() == d@.len(),
            proper_digits(d@),
            carry <= 1,
            forall|j: int| i <= j < r@.len() ==> #[trigger] r@[j] < 10,
            digits_value(d@.skip(i as int)) == 2 * digits_value(r@.skip(i as int)) + carry,
            i < d@.len() ==> r@.last() == d@.last() / 2,
            i == d@.len() ==> carry == 0,
            i == d@.len() - 1 ==> carry == d@.last() % 2,
            i < d@.len() - 1 && d@.last() == 1 ==> r@[d@.len() - 2] >= 5,
        decreases i,
    {
        let at: usize = i - 1;
        let x: u8 = 10 * carry + d[at];
        let ghost before = r@;
        r.set(at, x / 2);
        proof {
            assert(d@.skip(at as int).drop_first() == d@.skip(i as int));
            assert(r@.skip(at as int).drop_first() == before.skip(i as int));
            assert(r@.skip(at as int)[0] == x / 2);
        }
        carry = x % 2;
        i = at;
    }
    assert(d@.skip(0) == d@);
    assert(r@.skip(0) == r@);
    if r.len() > 1 && r[r.len() - 1] == 0 {
        let ghost full = r@;
        r.pop();
        proof {
            assert(full == r@.push(0));
            lemma_digits_push(r@, 0);
            assert(0 * pow(10, r@.len()) == 0) by (nonlinear_arith);
        }
    }
    (r, carry == 1)
}

/// The number that a few digits stand for.
fn digits_number(d: &Vec<u8>) -> (r: u128)
    requires
        proper_digits(d@),
        d@.len() <= 30,
    ensures
        r == digits_value(d@),
{
    let mut r: u128 = 0;
    let mut i: usize = d.len();
    assert(d@.skip(i as int) == Seq::<u8>::empty());
    while i > 0
        invariant
            i <= d@.len() <= 30,
            proper_digits(d@),
            r == digits_value(d@.skip(i as int)),
        decreases i,
    {
        let at: usize = i - 1;
        proof {
            assert(d@.skip(at as int).drop_first() == d@.skip(i as int));
            let top = d@.skip(at as int);
            lemma_digits_split(top, top.len());
            assert(top.take(top.len() as int) == top);
            lemma_ten_bits(top.len());
            lemma2_to64();
            lemma2_to64_rest();
            lemma_pow2_adds(64, 56);
            if 4 * top.len() < 120 {
                lemma_pow2_strictly_increases(4 * top.len(), 120);
            }
        }
        r = 10 * r + d[at] as u128;
        i = at;
    }
    assert(d@.skip(0) == d@);
    r
}

/// Halving a quotient halves it once more, and what is left over shows.
proof fn lemma_halved_quotient(n: nat, d: nat)
    requires
        d > 0,
    ensures
        n / (d * 2) == (n / d) / 2,
        (n % (d * 2) > 0) == (n % d > 0 || (n / d) % 2 == 1),
{
    let (q, r) = (n / d, n % d);
    lemma_fundamental_div_mod(n as int, d as int);
    let (h, odd) = (q / 2, q % 2);
    assert(n == h * (d * 2) + (odd * d + r)) by (nonlinear_arith)
        requires
            n == d * q + r,
            q == 2 * h + odd,
    ;
    assert(0 <= odd * d + r < d * 2) by (nonlinear_arith)
        requires
            0 <= odd <= 1,
            0 <= r < d,
    ;
    lemma_fundamental_div_mod_converse(
        n as int,
        (d * 2) as int,
        h as int,
        (odd * d + r) as int,
    );
    assert((odd * d + r > 0) == (r > 0 || odd == 1)) by (nonlinear_arith)
        requires
            0 <= odd <= 1,
            0 <= r,
            d > 0,
    ;
}

/// Whether one of the first `m` digits is not zero.
fn some_digit(d: &Vec<u8>, m: usize) -> (r: bool)
    requires
        m <= d@.len(),
        forall|i: int| 0 <= i < d@.len() ==> #[trigger] d@[i] < 10,
    ensures
        r == (digits_value(d@.take(m as int)) > 0),
{
    let mut i: usize = 0;
    assert(d@.take(0) == Seq::<u8>::empty());
    while i < m
        invariant
            i <= m <= d@.len(),
            forall|j: int| 0 <= j < d@.len() ==> #[trigger] d@[j] < 10,
            digits_value(d@.take(i as int)) == 0,
        decreases m - i,
    {
        proof {
            assert(d@.take(i + 1) == d@.take(i as int).push(d@[i as int]));
            lemma_digits_push(d@.take(i as int), d@[i as int]);
            lemma_ten_bits(i as nat);
            let (x, p) = (d@[i as int] as int, pow(10, i as nat));
            assert((x * p > 0) == (x > 0)) by (nonlinear_arith)
                requires
                    x >= 0,
                    p > 0,
            ;
            assert(x == 0 ==> x * p == 0) by (nonlinear_arith);
        }
        if d[i] > 0 {
            proof {
                let head = d@.take(m as int);
                lemma_digits_split(head, (i + 1) as nat);
                assert(head.take(i + 1) == d@.take(i + 1));
                lemma_ten_bits((i + 1) as nat);
                let (p, rest) = (pow(10, (i + 1) as nat), digits_value(head.skip(i + 1)) as int);
                assert(p * rest >= 0) by (nonlinear_arith)
                    requires
                        p > 0,
                        rest >= 0,
                ;
            }
            return true;
        }
        i = i + 1;
    }
    false
}

/// The digits from the `m`-th on.
fn digits_from(d: &Vec<u8>, m: usize) -> (r: Vec<u8>)
    requires
        m <= d@.len(),
    ensures
        r@ == d@.skip(m as int),
{
    let mut r: Vec<u8> = Vec::new();
    let mut i: usize = m;
    while i < d.len()
        invariant
            m <= i <= d@.len(),
            r@ == d@.subrange(m as int, i as int),
        decreases d@.len() - i,
    {
        r.push(d[i]);
        assert(d@.subrange(m as int, i + 1) == d@.subrange(m as int, i as int).push(d@[i as int]));
        i = i + 1;
    }
    assert(d@.subrange(m as int, d@.len() as int) == d@.skip(m as int));
    r
}

/// Few doublings bring a number of `length` digits to `m + 20` digits.
proof fn lemma_doublings(value: nat, k: nat, length: nat, reached: nat, m: nat)
    requires
        length >= 1,
        pow(10, (length - 1) as nat) <= value,
        value * pow2(k) < pow(10, reached),
        reached <= m + 20,
        m <= length + 400,
    ensures
        k < 1700,
{
    lemma_pow2_pos(k);
    lemma_ten_bits((length - 1) as nat);
    let low = pow(10, (length - 1) as nat);
    assert(low * pow2(k) < pow(10, reached)) by (nonlinear_arith)
        requires
            low <= value,
            value * pow2(k) < pow(10, reached),
            pow2(k) > 0,
    ;
    assert(low <= low * pow2(k)) by (nonlinear_arith)
        requires
            low > 0,
            pow2(k) >= 1,
    ;
    if reached < length {
        lemma_pow_increases(10, reached, (length - 1) as nat);
        assert(false);
    }
    let gap = (reached - (length - 1)) as nat;
    lemma_pow_adds(10, (length - 1) as nat, gap);
    assert(pow2(k) < pow(10, gap)) by (nonlinear_arith)
        requires
            low * pow2(k) < low * pow(10, gap),
            low > 0,
    ;
    lemma_ten_bits(gap);
    assert(gap <= 421);
    if k >= 1700 {
        lemma_pow2_strictly_increases(4 * gap, k);
    }
}

/// The magnitude nearest to `d / 10^m`.
fn quotient_magnitude(d: Vec<u8>, m: u128) -> (magnitude: u64)
    requires
        proper_digits(d@),
        digits_value(d@) > 0,
        d@.len() <= m + 400,
        m <= d@.len() + 400,
    ensures
        magnitude == nearest(digits_value(d@) * pow2(1074), pow(10, m as nat) as nat),
        magnitude <= INFINITE,
{
    let ghost value = digits_value(d@);
    let digits: usize = d.len();
    let ghost length = digits as nat;
    let mut x: Vec<u8> = d;
    let mut k: u32 = 0;
    proof {
        lemma_digits_bounds(d@);
        lemma2_to64();
        assert(value * 1 == value);
        lemma_ten_bits((m + 20) as nat);
    }
    while (x.len() as u128) < m + 20
        invariant
            length == digits,
            m <= length + 400,
            length >= 1,
            value > 0,
            pow(10, (length - 1) as nat) <= value,
            proper_digits(x@),
            x@.len() <= m + 400,
            digits_value(x@) == value * pow2(k as nat),
            k <= 1700,
        decreases pow(10, (m + 20) as nat) - digits_value(x@),
    {
        proof {
            lemma_digits_bounds(x@);
            lemma_doublings(value, k as nat, length, x@.len(), m as nat);
            lemma_pow_increases(10, x@.len(), (m + 19) as nat);
            lemma_pow_adds(10, (m + 19) as nat, 1);
            lemma_pow1(10);
            lemma_pow2_unfold((k + 1) as nat);
            lemma_pow2_pos(k as nat);
            let p = pow2(k as nat);
            assert(value * (2 * p) == 2 * (value * p)) by (nonlinear_arith);
            assert(value * p > 0) by (nonlinear_arith)
                requires
                    value > 0,
                    p > 0,
            ;
        }
        x = doubled(&x);
        k = k + 1;
    }
    let ghost n = digits_value(x@);
    let ghost den = pow(10, m as nat) as nat;
    let cut: usize = m as usize;
    proof {
        lemma_pow2_pos(k as nat);
        assert(n > 0) by (nonlinear_arith)
            requires
                n == value * pow2(k as nat),
                value > 0,
                pow2(k as nat) > 0,
        ;
        lemma_digits_bounds(x@);
        lemma_digits_split(x@, m as nat);
        lemma_ten_bits(m as nat);
        assert(den == pow(10, m as nat));
        let (q, r) = (digits_value(x@.skip(m as int)), digits_value(x@.take(m as int)));
        assert(n == q * den + r) by (nonlinear_arith)
            requires
                n == r + den * q,
        ;
        lemma_fundamental_div_mod_converse(n as int, den as int, q as int, r as int);
    }
    let mut sticky: bool = some_digit(&x, cut);
    let mut y: Vec<u8> = digits_from(&x, cut);
    let mut j: u32 = 0;
    let ghost top = n / den;
    proof {
        assert(y@.last() == x@.last());
        assert(proper_digits(y@)) by {
            assert forall|i: int| 0 <= i < y@.len() implies #[trigger] y@[i] < 10 by {
                assert(y@[i] == x@[i + m]);
            }
        }
        lemma_digits_bounds(y@);
        lemma_pow_increases(10, y@.len(), 400);
        lemma_ten_bits(400);
        lemma2_to64();
        assert(den * 1 == den && top * 1 == top);
    }
    while y.len() > 30
        invariant
            proper_digits(y@),
            20 <= y@.len(),
            y@.last() > 0,
            den > 0,
            digits_value(y@) == n / (den * pow2(j as nat)),
            sticky == (n % (den * pow2(j as nat)) > 0),
            digits_value(y@) * pow2(j as nat) <= top,
            top < pow2(1600),
            j <= 1600,
        decreases digits_value(y@),
    {
        let ghost v = digits_value(y@);
        let ghost p = pow2(j as nat);
        proof {
            lemma_digits_bounds(y@);
            lemma_ten_bits((y@.len() - 1) as nat);
            lemma_pow2_pos(j as nat);
            assert(p <= v * p) by (nonlinear_arith)
                requires
                    v >= 1,
                    p > 0,
            ;
            if j >= 1600 {
                if j > 1600 {
                    lemma_pow2_strictly_increases(1600, j as nat);
                }
                assert(false);
            }
            assert(den * p > 0) by (nonlinear_arith)
                requires
                    den > 0,
                    p > 0,
            ;
            lemma_halved_quotient(n, den * p);
            lemma_pow2_unfold((j + 1) as nat);
            assert((den * p) * 2 == den * (2 * p)) by (nonlinear_arith);
            assert((v / 2) * (2 * p) <= v * p) by (nonlinear_arith)
                requires
                    2 * (v / 2) <= v,
                    p > 0,
            ;
        }
        let (half, odd): (Vec<u8>, bool) = halved(&y);
        proof {
            lemma_ten_bits(30);
            lemma_pow_increases(10, 30, (y@.len() - 1) as nat);
            lemma2_to64();
            lemma_pow2_strictly_increases(3, 90);
            assert(v >= 8);
            lemma_digits_bounds(half@);
        }
        y = half;
        sticky = sticky || odd;
        j = j + 1;
    }
    let floor: u128 = digits_number(&y);
    proof {
        lemma_digits_bounds(y@);
        lemma_pow_increases(10, 19, (y@.len() - 1) as nat);
        lemma_ten_bits(19);
        lemma_pow_increases(10, y@.len(), 30);
        lemma_ten_bits(30);
        lemma2_to64();
        lemma2_to64_rest();
        lemma_pow2_adds(64, 56);
        lemma_pow2_adds(64, 62);
    }
    let length: u32 = bit_length(floor);
    let t: u128 = 2 * floor + (if sticky {
        1u128
    } else {
        0u128
    });
    let (a, b): (u32, u32) = if j + 1074 >= k {
        (j + 1074 - k, 0)
    } else {
        (0, k - j - 1074)
    };
    proof {
        if length < 54 {
            if length < 53 {
                lemma_pow2_strictly_increases(length as nat, 53);
            }
            lemma_pow2_strictly_increases(53, 57);
            assert(false);
        }
        let whole = den * pow2(j as nat);
        lemma_pow2_pos(j as nat);
        assert(whole > 0) by (nonlinear_arith)
            requires
                whole == den * pow2(j as nat),
                den > 0,
                pow2(j as nat) > 0,
        ;
        lemma_sticky_quotient(n, whole, t as nat, a as nat, b as nat, length as nat);
        let c = pow2((j + b) as nat);
        lemma_pow2_pos((j + b) as nat);
        lemma_nearest_scale(value * pow2(1074), den, c);
        lemma_pow2_adds(k as nat, a as nat);
        lemma_pow2_adds(1074, (j + b) as nat);
        lemma_pow2_adds(j as nat, b as nat);
        assert(k + a == 1074 + (j + b));
        let (pk, pa, pj, pb) = (pow2(k as nat), pow2(a as nat), pow2(j as nat), pow2(b as nat));
        assert((value * pk) * pa == (value * pow2(1074)) * c) by (nonlinear_arith)
            requires
                pk * pa == pow2(1074) * c,
        ;
        assert((den * pj) * pb == den * c) by (nonlinear_arith)
            requires
                pj * pb == c,
        ;
    }
    round_exponents(t, a, b + 1)
}

proof fn lemma_nearest_of_none(d: nat)
    requires
        d > 0,
    ensures
        nearest(0, d) == 0,
{
    lemma_nearest_below_half(0, d);
}

/// Less than half a unit rounds to nothing.
proof fn lemma_nearest_below_half(n: nat, d: nat)
    requires
        2 * n < d,
    ensures
        nearest(n, d) == 0,
{
    lemma2_to64();
    lemma_basic_div(n as int, d as int);
    lemma_excess_bits_small(0);
    assert(d * pow2(0) == d);
    lemma_small_mod(n, d);
}

/// Far beyond the largest magnitude lies infinity.
proof fn lemma_nearest_of_much(n: nat, d: nat)
    requires
        d > 0,
        n >= d * pow2(2200),
    ensures
        nearest(n, d) == INFINITE,
{
    let q = n / d;
    lemma_pow2_pos(2200);
    lemma_div_is_ordered((d * pow2(2200)) as int, n as int, d as int);
    lemma_div_multiples_vanish(pow2(2200) as int, d as int);
    assert(q >= pow2(2200));
    let b = choose_length(q);
    if b <= 2200 {
        if b < 2200 {
            lemma_pow2_strictly_increases(b, 2200);
        }
        assert(false);
    }
    lemma_excess_bits(q, b);
    let s = excess_bits(q);
    assert(s >= 2148);
    assert(s * STEP >= INFINITE);
}

/// The digits of `d` behind `zeros` zeros, which stand for powers of ten.
fn raised(d: &Vec<u8>, zeros: usize) -> (r: Vec<u8>)
    requires
        proper_digits(d@),
        digits_value(d@) > 0,
        d@.len() + zeros <= 400,
    ensures
        proper_digits(r@),
        digits_value(r@) == digits_value(d@) * pow(10, zeros as nat),
        r@.len() == d@.len() + zeros,
{
    let mut r: Vec<u8> = Vec::new();
    let mut i: usize = 0;
    while i < zeros
        invariant
            i <= zeros,
            r@.len() == i,
            forall|j: int| 0 <= j < r@.len() ==> #[trigger] r@[j] == 0,
        decreases zeros - i,
    {
        r.push(0);
        i = i + 1;
    }
    let ghost low = r@;
    let mut k: usize = 0;
    assert(d@.take(0) == Seq::<u8>::empty());
    while k < d.len()
        invariant
            k <= d@.len(),
            r@ == low + d@.take(k as int),
        decreases d@.len() - k,
    {
        r.push(d[k]);
        assert(d@.take(k + 1) == d@.take(k as int).push(d@[k as int]));
        assert(low + d@.take(k + 1) == (low + d@.take(k as int)).push(d@[k as int]));
        k = k + 1;
    }
    proof {
        assert(d@.take(d@.len() as int) == d@);
        lemma_digits_bounds(d@);
        assert(r@ == low + d@);
        assert forall|j: int| 0 <= j < r@.len() implies #[trigger] r@[j] < 10 by {
            if j >= zeros {
                assert(r@[j] == d@[j - zeros]);
            }
        }
        assert(r@.last() == d@.last());
        lemma_digits_split(r@, zeros as nat);
        assert(r@.take(zeros as int) == low);
        assert(r@.skip(zeros as int) == d@);
        lemma_zeros(low);
        let (p, v) = (pow(10, zeros as nat), digits_value(d@) as int);
        assert(p * v == v * p) by (nonlinear_arith);
    }
    r
}

proof fn lemma_zeros(d: Seq<u8>)
    requires
        forall|j: int| 0 <= j < d.len() ==> #[trigger] d[j] == 0,
    ensures
        digits_value(d) == 0,
    decreases d.len(),
{
    if d.len() > 0 {
        assert(d[0] == 0);
        lemma_zeros(d.drop_first());
    }
}

/// The magnitude nearest to `d * 10^e`, where `e` may be held to a bound that
/// lies far beyond every magnitude.
fn scaled_magnitude(d: Vec<u8>, e: i128, Ghost(exact): Ghost<int>) -> (magnitude: u64)
    requires
        proper_digits(d@),
        -2 * EXPONENT_CAP <= e <= 2 * EXPONENT_CAP,
        -(EXPONENT_CAP / 2) < e < EXPONENT_CAP / 2 ==> e == exact,
        e >= EXPONENT_CAP / 2 ==> exact >= e,
        e <= -(EXPONENT_CAP / 2) ==> exact <= e,
    ensures
        magnitude == scaled(digits_value(d@), exact),
        magnitude <= INFINITE,
{
    let ghost value = digits_value(d@);
    let digits: usize = d.len();
    let top: u8 = d[digits - 1];
    proof {
        lemma_digits_bounds(d@);
        lemma_ten_bits(if exact >= 0 {
            exact as nat
        } else {
            (-exact) as nat
        });
        lemma_pow2_pos(1074);
    }
    if top == 0 {
        proof {
            assert(value == 0);
            let p = if exact >= 0 {
                pow(10, exact as nat) as nat
            } else {
                0
            };
            assert(0 * p * pow2(1074) == 0) by (nonlinear_arith);
            assert(0 * pow2(1074) == 0) by (nonlinear_arith);
            lemma_nearest_of_none(1);
            if exact < 0 {
                lemma_nearest_of_none(pow(10, (-exact) as nat) as nat);
            }
        }
        return 0;
    }
    proof {
        lemma_ten_bits((digits - 1) as nat);
    }
    let place: i128 = digits as i128 + e;
    if place > 400 {
        proof {
            lemma_much(value, digits as nat, exact);
        }
        return INFINITE;
    }
    if place < -400 {
        proof {
            lemma_little(value, digits as nat, (-exact) as nat);
        }
        return 0;
    }
    if e >= 0 {
        let zeros: usize = e as usize;
        let whole: Vec<u8> = raised(&d, zeros);
        proof {
            lemma_digits_bounds(whole@);
            assert(digits_value(whole@) > 0) by (nonlinear_arith)
                requires
                    digits_value(whole@) == value * pow(10, zeros as nat),
                    value > 0,
                    pow(10, zeros as nat) > 0,
            ;
            lemma_pow0(10);
        }
        quotient_magnitude(whole, 0)
    } else {
        quotient_magnitude(d, (-e) as u128)
    }
}

proof fn lemma_much(value: nat, digits: nat, e: int)
    requires
        digits >= 1,
        pow(10, (digits - 1) as nat) <= value,
        digits + e > 400,
    ensures
        scaled(value, e) == INFINITE,
{
    let low = pow(10, (digits - 1) as nat);
    let u = pow2(1074);
    lemma_pow2_pos(1074);
    lemma_ten_bits(400);
    lemma_pow2_adds(1200, 1074);
    lemma_pow2_strictly_increases(2200, 2274);
    let great = pow(10, 400);
    assert(great * u >= pow2(2200)) by (nonlinear_arith)
        requires
            great >= pow2(1200),
            pow2(1200) * u == pow2(2274),
            pow2(2274) > pow2(2200),
            u > 0,
    ;
    if e >= 0 {
        let p = pow(10, e as nat);
        lemma_ten_bits(e as nat);
        lemma_pow_adds(10, (digits - 1) as nat, e as nat);
        lemma_pow_increases(10, 400, (digits - 1 + e) as nat);
        assert(value * p as nat * u >= great * u) by (nonlinear_arith)
            requires
                low <= value,
                low * p >= great,
                p > 0,
                u > 0,
        ;
        assert(1 * pow2(2200) == pow2(2200));
        lemma_nearest_of_much(value * p as nat * u, 1);
    } else {
        let m = (-e) as nat;
        let d = pow(10, m);
        lemma_ten_bits(m);
        let gap = (digits - 1 - m) as nat;
        lemma_pow_adds(10, m, gap);
        lemma_pow_increases(10, 400, gap);
        assert(value * u >= d * pow2(2200)) by (nonlinear_arith)
            requires
                low <= value,
                low == d * pow(10, gap),
                pow(10, gap) >= great,
                great * u >= pow2(2200),
                d > 0,
                u > 0,
        ;
        lemma_nearest_of_much(value * u, d as nat);
    }
}

proof fn lemma_little(value: nat, digits: nat, m: nat)
    requires
        value < pow(10, digits),
        m > digits + 400,
    ensures
        scaled(value, -(m as int)) == 0,
{
    let high = pow(10, digits);
    let u = pow2(1074);
    lemma_ten_bits(m);
    lemma_ten_bits(digits);
    let gap = (m - digits) as nat;
    lemma_pow_adds(10, digits, gap);
    lemma_pow_increases(10, 400, gap);
    lemma_ten_bits(400);
    lemma_pow2_unfold(1075);
    lemma_pow2_strictly_increases(1075, 1200);
    lemma_pow2_pos(1074);
    assert(2 * (value * u) < pow(10, m)) by (nonlinear_arith)
        requires
            value < high,
            high * pow(10, gap) == pow(10, m),
            pow(10, gap) >= 2 * u,
            high > 0,
            u > 0,
    ;
    lemma_nearest_below_half(value * u, pow(10, m) as nat);
}

/// The power of ten that an exponent denotes: digits, perhaps behind a sign.
pub open spec fn exponent_in(s: Seq<char>) -> Option<int> {
    let marked = s.len() > 0 && (s[0] == '+' || s[0] == '-');
    let digits = if marked {
        s.drop_first()
    } else {
        s
    };
    if digits.len() == 0 || !all_digits(digits) {
        None
    } else if marked && s[0] == '-' {
        Some(-(number(digits) as int))
    } else {
        Some(number(digits) as int)
    }
}

/// The digits that a numeral has before its exponent, the point left out, and
/// how many of them stand behind the point.
pub open spec fn significant(s: Seq<char>) -> (Seq<char>, nat) {
    let point = first_of(s, '.');
    if point < s.len() {
        (s.take(point) + s.skip(point + 1), (s.len() - point - 1) as nat)
    } else {
        (s, 0)
    }
}

/// The number that a numeral without sign denotes, as a whole number and a
/// power of ten: digits with at most one point, perhaps with an exponent.
pub open spec fn numeral_in(s: Seq<char>) -> Option<(nat, int)> {
    let mark = first_of(s, 'e');
    let (digits, places) = significant(s.take(mark));
    let exponent = if mark < s.len() {
        exponent_in(s.skip(mark + 1))
    } else {
        Some(0)
    };
    match exponent {
        Some(e) => if digits.len() > 0 && all_digits(digits) {
            Some((number(digits), e - places))
        } else {
            None
        },
        None => None,
    }
}

/// The reading that `s` denotes: a decimal numeral, an infinity or an undefined
/// number, in either case of letters and perhaps behind a sign. It is the
/// nearest one, ties to the even significand.
pub open spec fn reading_in(s: Seq<char>) -> Option<Reading> {
    let marked = s.len() > 0 && (s[0] == '+' || s[0] == '-');
    let negative = marked && s[0] == '-';
    let body = lowered_all(
        if marked {
            s.drop_first()
        } else {
            s
        },
    );
    if body == "inf"@ || body == "infinity"@ {
        Some(signed(negative, INFINITE as nat))
    } else if body == "nan"@ {
        Some(signed(negative, UNDEFINED as nat))
    } else {
        match numeral_in(body) {
            Some((n, e)) => Some(signed(negative, scaled(n, e))),
            None => None,
        }
    }
}

/// `e` is `exact`, held to the cap.
spec fn held(e: int, exact: int) -> bool {
    &&& -EXPONENT_CAP <= e <= EXPONENT_CAP
    &&& -EXPONENT_CAP < e < EXPONENT_CAP ==> e == exact
    &&& e == EXPONENT_CAP ==> exact >= e
    &&& e == -EXPONENT_CAP ==> exact <= e
}

/// The number that the digits `from..` of `c` denote, held to a bound; absent
/// where they are not all digits or there are none.
fn held_number(c: &[char], from: usize) -> (r: Option<u128>)
    requires
        from <= c@.len(),
    ensures
        ({
            let s = c@.skip(from as int);
            match r {
                Some(n) => {
                    &&& s.len() > 0 && all_digits(s)
                    &&& n <= EXPONENT_CAP
                    &&& n < EXPONENT_CAP ==> n == number(s)
                    &&& n == EXPONENT_CAP ==> number(s) >= n
                },
                None => s.len() == 0 || !all_digits(s),
            }
        }),
{
    let ghost s = c@.skip(from as int);
    if from >= c.len() {
        return None;
    }
    let mut n: u128 = 0;
    let mut i: usize = from;
    assert(s.take(0) == Seq::<char>::empty());
    while i < c.len()
        invariant
            from <= i <= c@.len(),
            s == c@.skip(from as int),
            n <= EXPONENT_CAP,
            n < EXPONENT_CAP ==> n == number(s.take(i - from)),
            n == EXPONENT_CAP ==> number(s.take(i - from)) >= n,
            forall|j: int| 0 <= j < i - from ==> is_digit(#[trigger] s[j]),
        decreases c@.len() - i,
    {
        let x: char = c[i];
        assert(s[i - from] == x);
        if !digit(x) {
            return None;
        }
        let d: u128 = (x as u32 - 48) as u128;
        assert(s.take(i - from + 1).drop_last() == s.take(i - from));
        let wide: u128 = 10 * n + d;
        n = if wide < EXPONENT_CAP {
            wide
        } else {
            EXPONENT_CAP
        };
        i = i + 1;
    }
    assert(s.take(s.len() as int) == s);
    Some(n)
}

/// What digits stand for, least significant first.
spec fn backwards(s: Seq<char>) -> Seq<u8> {
    Seq::new(s.len(), |i: int| (s[s.len() - 1 - i] as int - 48) as u8)
}

proof fn lemma_backwards(s: Seq<char>)
    requires
        all_digits(s),
    ensures
        digits_value(backwards(s)) == number(s),
    decreases s.len(),
{
    if s.len() > 0 {
        let t = s.drop_last();
        assert(is_digit(s[s.len() - 1]));
        assert forall|i: int| 0 <= i < t.len() implies is_digit(#[trigger] t[i]) by {
            assert(t[i] == s[i]);
        }
        lemma_backwards(t);
        assert(backwards(s).drop_first() == backwards(t));
        assert(backwards(s)[0] == s.last() as int - 48);
    }
}

/// The digits of `c`, least significant first and without leading zeros;
/// absent where they are not all digits or there are none.
fn digits_in(c: &Vec<char>) -> (r: Option<Vec<u8>>)
    ensures
        match r {
            Some(d) => c@.len() > 0 && all_digits(c@) && proper_digits(d@) && digits_value(d@)
                == number(c@),
            None => c@.len() == 0 || !all_digits(c@),
        },
{
    if c.len() == 0 {
        return None;
    }
    let mut d: Vec<u8> = Vec::new();
    let mut i: usize = c.len();
    while i > 0
        invariant
            i <= c@.len(),
            d@.len() == c@.len() - i,
            forall|j: int| i <= j < c@.len() ==> is_digit(#[trigger] c@[j]),
            forall|j: int|
                0 <= j < d@.len() ==> #[trigger] d@[j] == (c@[c@.len() - 1 - j] as int - 48) as u8,
        decreases i,
    {
        let x: char = c[i - 1];
        if !digit(x) {
            return None;
        }
        d.push((x as u32 - 48) as u8);
        i = i - 1;
    }
    proof {
        assert(d@ == backwards(c@));
        lemma_backwards(c@);
        assert forall|j: int| 0 <= j < d@.len() implies #[trigger] d@[j] < 10 by {
            assert(is_digit(c@[c@.len() - 1 - j]));
        }
    }
    while d.len() > 1 && d[d.len() - 1] == 0
        invariant
            d@.len() > 0,
            forall|j: int| 0 <= j < d@.len() ==> #[trigger] d@[j] < 10,
            digits_value(d@) == number(c@),
        decreases d@.len(),
    {
        let ghost full = d@;
        d.pop();
        proof {
            assert(full == d@.push(0));
            lemma_digits_push(d@, 0);
            assert(0 * pow(10, d@.len()) == 0) by (nonlinear_arith);
        }
    }
    Some(d)
}

/// The digits of `body` before `mark`, the point left out, and how many of them
/// stand behind the point.
fn significant_digits(body: &Vec<char>, mark: usize) -> (r: (Vec<char>, usize))
    requires
        mark <= body@.len(),
    ensures
        (r.0@, r.1 as nat) == significant(body@.take(mark as int)),
{
    let point: usize = position_of(body.as_slice(), 0, mark, '.');
    let ghost head = body@.take(mark as int);
    assert(body@.subrange(0, mark as int) == head);
    let mut digits: Vec<char> = Vec::new();
    let mut i: usize = 0;
    while i < mark
        invariant
            i <= mark <= body@.len(),
            point <= mark,
            digits@ == if i <= point {
                body@.take(i as int)
            } else {
                body@.take(point as int) + body@.subrange(point + 1, i as int)
            },
        decreases mark - i,
    {
        if i != point {
            digits.push(body[i]);
        }
        proof {
            if i < point {
                assert(body@.take(i + 1) == body@.take(i as int).push(body@[i as int]));
            } else if i == point {
                assert(body@.subrange(point + 1, i + 1) == Seq::<char>::empty());
            } else {
                assert(body@.subrange(point + 1, i + 1) == body@.subrange(
                    point + 1,
                    i as int,
                ).push(body@[i as int]));
            }
        }
        i = i + 1;
    }
    if point < mark {
        proof {
            assert(head.take(point as int) == body@.take(point as int));
            assert(head.skip(point + 1) == body@.subrange(point + 1, mark as int));
        }
        (digits, mark - point - 1)
    } else {
        (digits, 0)
    }
}

/// The exponent behind `mark`, held to a bound; none is the zeroth power.
fn held_exponent(body: &Vec<char>, mark: usize) -> (r: Option<i128>)
    requires
        mark <= body@.len(),
    ensures
        ({
            let exact = if mark < body@.len() {
                exponent_in(body@.skip(mark + 1))
            } else {
                Some(0)
            };
            match r {
                Some(e) => exact is Some && held(e as int, exact->0),
                None => exact is None,
            }
        }),
{
    if mark >= body.len() {
        return Some(0);
    }
    let ghost tail = body@.skip(mark + 1);
    let marked: bool = mark + 1 < body.len() && (body[mark + 1] == '+' || body[mark + 1] == '-');
    let minus: bool = marked && body[mark + 1] == '-';
    let from: usize = if marked {
        mark + 2
    } else {
        mark + 1
    };
    assert(tail.len() > 0 ==> tail[0] == body@[mark + 1]);
    assert(body@.skip(from as int) == if marked {
        tail.drop_first()
    } else {
        tail
    });
    match held_number(body.as_slice(), from) {
        None => None,
        Some(n) => if minus {
            Some(-(n as i128))
        } else {
            Some(n as i128)
        },
    }
}

/// Reads a decimal numeral.
pub fn parse_reading(s: &str) -> (r: Option<Reading>)
    ensures
        r == reading_in(s@),
{
    let c: Vec<char> = chars_of(s);
    let marked: bool = c.len() > 0 && (c[0] == '+' || c[0] == '-');
    let negative: bool = marked && c[0] == '-';
    let start: usize = if marked {
        1
    } else {
        0
    };
    assert(c@.subrange(start as int, c@.len() as int) == if marked {
        s@.drop_first()
    } else {
        s@
    });
    let low: String = lower_text(c.as_slice(), start, c.len());
    if same(low.as_str(), "inf") || same(low.as_str(), "infinity") {
        return Some(Reading::with_sign(negative, INFINITE));
    }
    if same(low.as_str(), "nan") {
        return Some(Reading::with_sign(negative, UNDEFINED));
    }
    let body: Vec<char> = chars_of(low.as_str());
    let mark: usize = position_of(body.as_slice(), 0, body.len(), 'e');
    assert(body@.subrange(0, body@.len() as int) == body@);
    let (digits, places): (Vec<char>, usize) = significant_digits(&body, mark);
    let exponent: i128 = match held_exponent(&body, mark) {
        Some(e) => e,
        None => {
            return None;
        },
    };
    let ghost exact = if mark < body@.len() {
        exponent_in(body@.skip(mark + 1))->0
    } else {
        0
    };
    match digits_in(&digits) {
        None => None,
        Some(d) => {
            let e: i128 = exponent - places as i128;
            let magnitude: u64 = scaled_magnitude(d, e, Ghost(exact - places));
            Some(Reading::with_sign(negative, magnitude))
        },
    }
}

/// The digits of a whole number read as that number.
pub proof fn whole_numbers_read_as_themselves(n: nat)
    ensures
        reading_in(decimal(n)) == Some(Reading::of_natural(n)),
{
    crate::text::decimal_reads_back(n);
    let s = decimal(n);
    assert(is_digit(s[0]));
    assert forall|i: int| 0 <= i < s.len() implies lowered_all(s)[i] == #[trigger] s[i] by {
        assert(is_digit(s[i]));
    }
    assert(lowered_all(s) == s);
    reveal_strlit("inf");
    reveal_strlit("infinity");
    reveal_strlit("nan");
    first_of_bounds(s, 'e');
    if first_of(s, 'e') < s.len() {
        assert(is_digit(s[first_of(s, 'e')]));
    }
    assert(s.take(s.len() as int) == s);
    first_of_bounds(s, '.');
    if first_of(s, '.') < s.len() {
        assert(is_digit(s[first_of(s, '.')]));
    }
    lemma_pow0(10);
    assert(n * 1 * pow2(1074) == n * pow2(1074));
}

/// The numeral with one decimal denotes its tenths.
proof fn lemma_tenths_read(tenths: nat)
    ensures
        fixed_point(tenths, 1).len() > 0,
        is_digit(fixed_point(tenths, 1)[0]),
        lowered_all(fixed_point(tenths, 1)) == fixed_point(tenths, 1),
        numeral_in(fixed_point(tenths, 1)) == Some((tenths, -1int)),
{
    lemma_pow1(10);
    let (whole, last) = (tenths / 10, tenths % 10);
    let s = fixed_point(tenths, 1);
    reveal_strlit(".");
    reveal_with_fuel(crate::text::padded, 2);
    crate::text::decimal_reads_back(whole);
    let head = decimal(whole);
    let digit = crate::text::digit_char(last % 10);
    assert(crate::text::padded(last, 1) == seq![digit]);
    assert(s == head + "."@ + seq![digit]);
    let n = head.len() as int;
    assert(s.len() == n + 2 && s[n] == '.' && s[n + 1] == digit);
    assert forall|i: int| 0 <= i < n implies is_digit(#[trigger] s[i]) by {
        assert(s[i] == head[i]);
    }
    assert forall|i: int| 0 <= i < s.len() implies lowered_all(s)[i] == #[trigger] s[i] by {
        if i < n {
            assert(is_digit(s[i]));
        }
    }
    assert(lowered_all(s) == s);
    first_of_bounds(s, 'e');
    let e = first_of(s, 'e');
    if e < s.len() {
        assert(e < n ==> is_digit(s[e]));
    }
    assert(s.take(s.len() as int) == s);
    first_of_bounds(s, '.');
    let point = first_of(s, '.');
    if point < n {
        assert(is_digit(s[point]));
    }
    assert(point == n);
    let digits = s.take(n) + s.skip(n + 1);
    assert(digits == head.push(digit));
    assert(digits.drop_last() == head);
    assert(number(digits) == 10 * whole + last);
    assert(all_digits(digits));
}

/// Whether a reading is that of a number with one decimal.
pub open spec fn one_decimal(r: Reading) -> bool {
    r.finite() && exists|k: nat| r.magnitude() == #[trigger] scaled(k, -1)
}

/// A number with one decimal, written with that decimal, reads as itself.
pub proof fn one_decimal_reads_back(r: Reading)
    requires
        one_decimal(r),
    ensures
        reading_in(r.fixed(1)) == Some(r),
{
    let k = choose|k: nat| r.magnitude() == #[trigger] scaled(k, -1);
    lemma_pow1(10);
    crate::reading::lemma_tenths_come_back(k);
    let tenths = r.decimal_units(1);
    lemma_tenths_read(tenths);
    let body = fixed_point(tenths, 1);
    reveal_strlit("-");
    reveal_strlit("");
    reveal_strlit("inf");
    reveal_strlit("infinity");
    reveal_strlit("nan");
    let s = r.fixed(1);
    if r.negative() {
        assert(s == "-"@ + body);
        assert(s[0] == '-');
        assert(s.drop_first() == body);
    } else {
        assert(s == ""@ + body);
        assert(s == body);
    }
    assert(scaled(tenths, -1) == r.magnitude());
    assert(signed(r.negative(), r.magnitude()) == r);
}

} // verus!
