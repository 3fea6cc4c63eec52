//! Sensor readings: binary64 values carried by their bit patterns.
//!
//! Every finite magnitude is a whole number of units of 2^-1074, so the value
//! of a reading is a natural number and rounding is integer division.
use vstd::arithmetic::div_mod::*;
use vstd::arithmetic::mul::*;
use vstd::arithmetic::power2::*;
use vstd::arithmetic::power::*;
use vstd::prelude::*;
use vstd::string::*;

use crate::text::{decimal, decimal_text, digit_char, padded, padded_text};

verus! {

/// The bit pattern of positive infinity; every finite magnitude lies below it.
pub const INFINITE: u64 = 0x7ff0_0000_0000_0000;

/// The sign bit.
pub const SIGN: u64 = 0x8000_0000_0000_0000;

/// The bit pattern that every undefined result has.
pub const UNDEFINED: u64 = 0x7ff8_0000_0000_0000;

/// One step of the exponent field.
pub const STEP: u64 = 0x10_0000_0000_0000;

/// A binary64 value, by its bit pattern.
#[derive(Clone, Copy, Debug, PartialEq, Eq, Structural)]
pub struct Reading {
    pub bits: u64,
}

/// How far the significand of `magnitude` is shifted to the left.
pub open spec fn shift_of(magnitude: nat) -> nat {
    if magnitude < STEP {
        0
    } else {
        (magnitude / STEP as nat - 1) as nat
    }
}

/// The significand of `magnitude`, its leading one made explicit.
pub open spec fn significand_of(magnitude: nat) -> nat {
    (magnitude - shift_of(magnitude) * STEP) as nat
}

/// The value of a finite magnitude, in units of 2^-1074.
pub open spec fn units_of(magnitude: nat) -> nat {
    significand_of(magnitude) * pow2(shift_of(magnitude))
}

/// `n / d` rounded to the nearest integer, ties to the even one.
pub open spec fn nearest_integer(n: nat, d: nat) -> nat {
    let q = n / d;
    let r = n % d;
    if 2 * r < d || (2 * r == d && q % 2 == 0) {
        q
    } else {
        q + 1
    }
}

/// How many bits of `q` lie beyond the 53 that a significand holds.
pub open spec fn excess_bits(q: nat) -> nat
    decreases q,
{
    if q < 2 * STEP {
        0
    } else {
        1 + excess_bits(q / 2)
    }
}

/// The magnitude nearest to `n / d` units, ties to the even significand,
/// infinite beyond the largest finite one.
pub open spec fn nearest(n: nat, d: nat) -> nat {
    let s = excess_bits(n / d);
    let m = s * STEP + nearest_integer(n, d * pow2(s));
    if m < INFINITE {
        m as nat
    } else {
        INFINITE as nat
    }
}

/// The reading with the given sign and magnitude.
pub open spec fn signed(negative: bool, magnitude: nat) -> Reading {
    Reading {
        bits: (if negative {
            magnitude + SIGN
        } else {
            magnitude as int
        }) as u64,
    }
}

pub open spec fn undefined() -> Reading {
    Reading { bits: UNDEFINED }
}

impl Reading {
    pub open spec fn negative(self) -> bool {
        self.bits >= SIGN
    }

    pub open spec fn magnitude(self) -> nat {
        (if self.bits >= SIGN {
            self.bits - SIGN
        } else {
            self.bits as int
        }) as nat
    }

    pub open spec fn is_undefined(self) -> bool {
        self.magnitude() > INFINITE
    }

    pub open spec fn infinite(self) -> bool {
        self.magnitude() == INFINITE
    }

    pub open spec fn finite(self) -> bool {
        self.magnitude() < INFINITE
    }

    pub open spec fn zero(self) -> bool {
        self.magnitude() == 0
    }

    pub open spec fn units(self) -> nat {
        units_of(self.magnitude())
    }

    /// The value of a finite reading in units of 2^-1074.
    pub open spec fn value(self) -> int {
        if self.negative() {
            -(self.units() as int)
        } else {
            self.units() as int
        }
    }
}

proof fn lemma_step()
    ensures
        STEP == pow2(52),
        2 * STEP == pow2(53),
{
    lemma2_to64();
    lemma2_to64_rest();
}

pub(crate) proof fn lemma_nearest_integer_scale(n: nat, d: nat, c: nat)
    requires
        d > 0,
        c > 0,
    ensures
        nearest_integer(n * c, d * c) == nearest_integer(n, d),
        (n * c) / (d * c) == n / d,
{
    let q = n / d;
    let r = n % d;
    lemma_fundamental_div_mod(n as int, d as int);
    assert(n * c == q * (d * c) + r * c) by (nonlinear_arith)
        requires
            n == d * q + r,
    ;
    assert(0 <= r * c < d * c) by (nonlinear_arith)
        requires
            0 <= r < d,
            c > 0,
    ;
    lemma_fundamental_div_mod_converse((n * c) as int, (d * c) as int, q as int, (r * c) as int);
    assert((2 * r < d) == (2 * (r * c) < d * c)) by (nonlinear_arith)
        requires
            c > 0,
    ;
    assert((2 * r == d) == (2 * (r * c) == d * c)) by (nonlinear_arith)
        requires
            c > 0,
    ;
}

/// Scaling numerator and denominator alike changes nothing.
pub(crate) proof fn lemma_nearest_scale(n: nat, d: nat, c: nat)
    requires
        d > 0,
        c > 0,
    ensures
        nearest(n * c, d * c) == nearest(n, d),
{
    lemma_nearest_integer_scale(n, d, c);
    let s = excess_bits(n / d);
    lemma_pow2_pos(s);
    assert((d * c) * pow2(s) == (d * pow2(s)) * c) by (nonlinear_arith);
    assert(d * pow2(s) > 0) by (nonlinear_arith)
        requires
            d > 0,
            pow2(s) > 0,
    ;
    lemma_nearest_integer_scale(n, d * pow2(s), c);
}

pub(crate) proof fn lemma_excess_bits(q: nat, b: nat)
    requires
        b >= 1,
        pow2((b - 1) as nat) <= q < pow2(b),
    ensures
        excess_bits(q) == if b <= 53 {
            0
        } else {
            (b - 53) as nat
        },
    decreases b,
{
    lemma_step();
    if b <= 53 {
        if b < 53 {
            lemma_pow2_strictly_increases(b, 53);
        }
    } else {
        if b > 54 {
            lemma_pow2_strictly_increases(53, (b - 1) as nat);
        }
        lemma_pow2_unfold(b);
        lemma_pow2_unfold((b - 1) as nat);
        lemma_excess_bits(q / 2, (b - 1) as nat);
    }
}

pub(crate) proof fn lemma_excess_bits_small(q: nat)
    requires
        q < 2 * STEP,
    ensures
        excess_bits(q) == 0,
{
}

/// Powers of two that fit.
pub(crate) fn two_to(e: u32) -> (r: u128)
    requires
        e < 128,
    ensures
        r == pow2(e as nat),
        r > 0,
{
    let mut r: u128 = 1;
    let mut i: u32 = 0;
    proof {
        lemma2_to64();
    }
    while i < e
        invariant
            i <= e,
            e < 128,
            r == pow2(i as nat),
            r > 0,
        decreases e - i,
    {
        proof {
            lemma_pow2_unfold((i + 1) as nat);
            lemma2_to64();
            lemma2_to64_rest();
            lemma_pow2_adds(64, 63);
            if i + 1 < 127 {
                lemma_pow2_strictly_increases((i + 1) as nat, 127);
            }
        }
        r = 2 * r;
        i = i + 1;
    }
    r
}

/// The number of binary digits of `t`.
pub(crate) fn bit_length(t: u128) -> (r: u32)
    requires
        t > 0,
    ensures
        1 <= r <= 128,
        pow2((r - 1) as nat) <= t < pow2(r as nat),
{
    let mut rest: u128 = t;
    let mut r: u32 = 0;
    proof {
        lemma2_to64();
    }
    while rest > 1
        invariant
            t > 0,
            rest >= 1,
            r <= 127,
            rest * pow2(r as nat) <= t < (rest + 1) * pow2(r as nat),
        decreases rest,
    {
        proof {
            lemma_pow2_unfold((r + 1) as nat);
            let p = pow2(r as nat);
            let half = rest / 2;
            assert(half * (2 * p) <= t < (half + 1) * (2 * p)) by (nonlinear_arith)
                requires
                    rest * p <= t < (rest + 1) * p,
                    2 * half <= rest < 2 * half + 2,
            ;
            if r + 1 > 127 {
                lemma2_to64();
                lemma2_to64_rest();
                lemma_pow2_adds(64, 64);
                assert(t >= pow2(128)) by (nonlinear_arith)
                    requires
                        half * (2 * p) <= t,
                        half >= 1,
                        2 * p == pow2(128),
                ;
                assert(false);
            }
        }
        rest = rest / 2;
        r = r + 1;
    }
    proof {
        lemma_pow2_unfold((r + 1) as nat);
        assert(1 * pow2(r as nat) == pow2(r as nat));
        assert(2 * pow2(r as nat) == pow2((r + 1) as nat));
    }
    r + 1
}

/// The magnitude nearest to `t * 2^up / 2^down` units.
fn round_scaled(t: u128, up: u32, down: u32) -> (magnitude: u64)
    requires
        t < 0x8000_0000_0000_0000_0000_0000_0000_0000,
        up == 0 || down == 0,
        up <= 100_000,
        down <= 100_000,
    ensures
        magnitude == nearest(t as nat * pow2(up as nat), pow2(down as nat)),
        magnitude <= INFINITE,
{
    let ghost n = t as nat * pow2(up as nat);
    let ghost d = pow2(down as nat);
    proof {
        lemma_step();
        lemma_pow2_pos(up as nat);
        lemma_pow2_pos(down as nat);
        lemma2_to64();
    }
    if t == 0 {
        proof {
            assert(n == 0);
            lemma_div_of0(d as int);
            lemma_excess_bits_small(0);
            assert(d * pow2(0) == d) by (nonlinear_arith)
                requires
                    pow2(0) == 1,
            ;
            lemma_small_mod(0, d);
        }
        return 0;
    }
    let length: u32 = bit_length(t);
    let reach: u32 = length + up;
    let s: u32 = if reach > down + 53 {
        reach - down - 53
    } else {
        0
    };
    proof {
        lemma_floor_bits(t as nat, up as nat, down as nat, length as nat);
        assert(excess_bits(n / d) == s);
    }
    if s >= 2047 {
        proof {
            assert(s * STEP >= INFINITE);
        }
        return INFINITE;
    }
    let m: u64 = if up >= down + s {
        let gap: u32 = up - down - s;
        proof {
            lemma_pow2_adds(gap as nat, (down + s) as nat);
            lemma_pow2_adds(down as nat, s as nat);
            let g = pow2(gap as nat);
            let e = pow2((down + s) as nat);
            lemma_pow2_pos((down + s) as nat);
            assert(t as nat * (g * e) == (t as nat * g) * e) by (nonlinear_arith);
            lemma_nearest_integer_scale(t as nat * g, 1, e);
            assert(1 * e == e);
            assert(nearest_integer(t as nat * g, 1) == t as nat * g) by {
                lemma_div_basics((t as nat * g) as int);
                assert((t as nat * g) % 1 == 0);
            }
            // the shifted significand fits in 53 bits
            lemma_pow2_adds(length as nat, gap as nat);
            if length + gap < 53 {
                lemma_pow2_strictly_increases((length + gap) as nat, 53);
            }
            lemma_pow2_pos(gap as nat);
            assert(t as nat * g < pow2(53)) by (nonlinear_arith)
                requires
                    t < pow2(length as nat),
                    g > 0,
                    pow2(length as nat) * g <= pow2(53),
            ;
            if gap >= 128 {
                lemma_pow2_strictly_increases(53, gap as nat);
                assert(t as nat * g >= g) by (nonlinear_arith)
                    requires
                        t >= 1,
                        g > 0,
                ;
                assert(false);
            }
        }
        (t * two_to(gap)) as u64
    } else {
        let drop: u32 = down + s - up;
        proof {
            lemma_pow2_adds(drop as nat, up as nat);
            lemma_pow2_adds(down as nat, s as nat);
            lemma_pow2_pos(drop as nat);
            lemma_nearest_integer_scale(t as nat, pow2(drop as nat), pow2(up as nat));
            assert(d * pow2(s as nat) == pow2(drop as nat) * pow2(up as nat));
        }
        if drop >= 128 {
            proof {
                lemma2_to64_rest();
                lemma_pow2_adds(64, 64);
                if drop > 128 {
                    lemma_pow2_strictly_increases(128, drop as nat);
                }
                lemma_small_mod(t as nat, pow2(drop as nat));
                lemma_basic_div(t as int, pow2(drop as nat) as int);
            }
            0
        } else {
            let unit: u128 = two_to(drop);
            let q: u128 = t / unit;
            let r: u128 = t % unit;
            let half: u128 = two_to(drop - 1);
            proof {
                lemma_pow2_unfold(drop as nat);
                // the quotient fits in 53 bits
                lemma_pow2_adds(drop as nat, 53);
                if length < drop + 53 {
                    lemma_pow2_strictly_increases(length as nat, (drop + 53) as nat);
                }
                lemma_div_strictly_bounded(t as int, unit as int, pow2(53) as int);
            }
            let up_one: bool = !(r < half || (r == half && q % 2 == 0));
            if up_one {
                q as u64 + 1
            } else {
                q as u64
            }
        }
    };
    let raw: u64 = s as u64 * STEP + m;
    if raw < INFINITE {
        raw
    } else {
        INFINITE
    }
}

pub(crate) proof fn lemma_div_strictly_bounded(x: int, d: int, b: int)
    requires
        0 <= x < d * b,
        d > 0,
    ensures
        0 <= x / d < b,
{
    lemma_fundamental_div_mod(x, d);
    lemma_mod_pos_bound(x, d);
    let q = x / d;
    assert(q < b) by (nonlinear_arith)
        requires
            x == d * q + x % d,
            x < d * b,
            0 <= x % d,
            d > 0,
    ;
    lemma_div_pos_is_pos(x, d);
}

proof fn lemma_floor_bits(t: nat, up: nat, down: nat, length: nat)
    requires
        length >= 1,
        pow2((length - 1) as nat) <= t < pow2(length),
        up == 0 || down == 0,
    ensures
        excess_bits((t * pow2(up)) / pow2(down)) == if length + up > down + 53 {
            (length + up - down - 53) as nat
        } else {
            0
        },
{
    let n = t * pow2(up);
    let d = pow2(down);
    lemma_pow2_pos(up);
    lemma_pow2_pos(down);
    lemma_pow2_adds(length, up);
    lemma_pow2_adds((length - 1) as nat, up);
    assert(pow2((length - 1 + up) as nat) <= n < pow2(length + up)) by (nonlinear_arith)
        requires
            pow2((length - 1) as nat) <= t < pow2(length),
            n == t * pow2(up),
            pow2(up) > 0,
            pow2((length - 1 + up) as nat) == pow2((length - 1) as nat) * pow2(up),
            pow2(length + up) == pow2(length) * pow2(up),
    ;
    if length + up <= down {
        if length + up < down {
            lemma_pow2_strictly_increases(length + up, down);
        }
        lemma_basic_div(n as int, d as int);
        lemma_excess_bits_small(0);
    } else {
        let b = (length + up - down) as nat;
        lemma_pow2_adds(down, b);
        lemma_pow2_adds(down, (b - 1) as nat);
        lemma_div_strictly_bounded(n as int, d as int, pow2(b) as int);
        lemma_div_is_ordered((d * pow2((b - 1) as nat)) as int, n as int, d as int);
        lemma_div_multiples_vanish(pow2((b - 1) as nat) as int, d as int);
        lemma_excess_bits(n / d, b);
    }
}

/// The bits of a floor whose value lies in `d * [2^(b-1), 2^b)`.
proof fn lemma_floor_between(n: nat, d: nat, b: nat)
    requires
        d > 0,
        b >= 1,
        d * pow2((b - 1) as nat) <= n < d * pow2(b),
    ensures
        excess_bits(n / d) == if b > 53 {
            (b - 53) as nat
        } else {
            0
        },
{
    lemma_div_strictly_bounded(n as int, d as int, pow2(b) as int);
    lemma_div_is_ordered((d * pow2((b - 1) as nat)) as int, n as int, d as int);
    lemma_div_multiples_vanish(pow2((b - 1) as nat) as int, d as int);
    lemma_excess_bits(n / d, b);
}

/// Only the difference of the two exponents matters.
proof fn lemma_rescale(t: nat, a: nat, b: nat)
    ensures
        a >= b ==> nearest(t * pow2(a), pow2(b)) == nearest(t * pow2((a - b) as nat), pow2(0)),
        a < b ==> nearest(t * pow2(a), pow2(b)) == nearest(t * pow2(0), pow2((b - a) as nat)),
{
    lemma2_to64();
    if a >= b {
        let k = (a - b) as nat;
        lemma_pow2_adds(k, b);
        lemma_pow2_pos(b);
        lemma_nearest_scale(t * pow2(k), 1, pow2(b));
        assert(t * (pow2(k) * pow2(b)) == (t * pow2(k)) * pow2(b)) by (nonlinear_arith);
        assert(1 * pow2(b) == pow2(b));
    } else {
        let k = (b - a) as nat;
        lemma_pow2_adds(k, a);
        lemma_pow2_pos(a);
        lemma_pow2_pos(k);
        lemma_nearest_scale(t, pow2(k), pow2(a));
        assert(t * 1 == t);
    }
}

/// The magnitude nearest to `t * 2^a / 2^b` units.
pub(crate) fn round_exponents(t: u128, a: u32, b: u32) -> (magnitude: u64)
    requires
        t < 0x8000_0000_0000_0000_0000_0000_0000_0000,
        a <= 100_000,
        b <= 100_000,
    ensures
        magnitude == nearest(t as nat * pow2(a as nat), pow2(b as nat)),
        magnitude <= INFINITE,
{
    proof {
        lemma_rescale(t as nat, a as nat, b as nat);
    }
    if a >= b {
        round_scaled(t, a - b, 0)
    } else {
        round_scaled(t, 0, b - a)
    }
}

/// A fraction and its floor with a sticky bit round alike, well above the
/// sticky bit.
proof fn lemma_sticky(n: nat, d: nat, t: nat, drop: nat)
    requires
        d > 0,
        drop >= 1,
        t == 2 * (n / d) + (if n % d > 0 {
            1nat
        } else {
            0
        }),
    ensures
        nearest_integer(n, d * pow2(drop)) == nearest_integer(t, pow2(drop + 1)),
{
    let q = n / d;
    let r = n % d;
    let u = pow2(drop);
    let h = pow2((drop - 1) as nat);
    lemma_pow2_unfold(drop);
    lemma_pow2_unfold(drop + 1);
    lemma_pow2_pos(drop);
    lemma_pow2_pos((drop - 1) as nat);
    assert(u == 2 * h);
    let a = q / u;
    let b = q % u;
    lemma_fundamental_div_mod(n as int, d as int);
    lemma_fundamental_div_mod(q as int, u as int);
    lemma_mod_pos_bound(n as int, d as int);
    lemma_mod_pos_bound(q as int, u as int);
    assert(n == a * (d * u) + (b * d + r)) by (nonlinear_arith)
        requires
            n == d * q + r,
            q == u * a + b,
    ;
    assert(0 <= b * d + r < d * u) by (nonlinear_arith)
        requires
            0 <= b <= u - 1,
            0 <= r < d,
    ;
    assert(d * u > 0) by (nonlinear_arith)
        requires
            d > 0,
            u > 0,
    ;
    lemma_fundamental_div_mod_converse(n as int, (d * u) as int, a as int, (b * d + r) as int);
    let sticky: nat = if r > 0 {
        1
    } else {
        0
    };
    assert(t == a * (2 * u) + (2 * b + sticky)) by (nonlinear_arith)
        requires
            t == 2 * q + sticky,
            q == u * a + b,
    ;
    lemma_fundamental_div_mod_converse(t as int, (2 * u) as int, a as int, (2 * b + sticky) as int);
    // both remainders lie on the same side of their half
    if b < h {
        assert(2 * (b * d + r) < d * u) by (nonlinear_arith)
            requires
                b <= h - 1,
                0 <= r < d,
                u == 2 * h,
        ;
    } else if b == h {
        assert(2 * (b * d + r) == d * u + 2 * r) by (nonlinear_arith)
            requires
                b == h,
                u == 2 * h,
        ;
    } else {
        assert(2 * (b * d + r) > d * u) by (nonlinear_arith)
            requires
                b >= h + 1,
                0 <= r,
                d > 0,
                u == 2 * h,
        ;
    }
}

/// Rounding a long quotient through its floor and a sticky bit.
pub(crate) proof fn lemma_sticky_quotient(n: nat, d: nat, t: nat, a: nat, b: nat, length: nat)
    requires
        d > 0,
        length >= 54,
        pow2((length - 1) as nat) <= n / d < pow2(length),
        t == 2 * (n / d) + (if n % d > 0 {
            1nat
        } else {
            0
        }),
    ensures
        nearest(n * pow2(a), d * pow2(b)) == nearest(t * pow2(a), pow2(b + 1)),
{
    let q = n / d;
    let p = pow2(a);
    let e = pow2(b);
    lemma_pow2_pos(a);
    lemma_pow2_pos(b);
    lemma_pow2_pos(b + 1);
    lemma_pow2_unfold(b + 1);
    lemma_pow2_unfold(length);
    lemma_pow2_unfold(length + 1);
    lemma_fundamental_div_mod(n as int, d as int);
    lemma_mod_pos_bound(n as int, d as int);
    let lo = pow2((length - 1) as nat);
    let hi = pow2(length);
    assert(d * lo <= n < d * hi) by (nonlinear_arith)
        requires
            n == d * q + n % d,
            0 <= n % d < d,
            lo <= q <= hi - 1,
    ;
    assert(d * e > 0) by (nonlinear_arith)
        requires
            d > 0,
            e > 0,
    ;
    lemma_pow2_adds((length - 1) as nat, a);
    lemma_pow2_adds(length, a);
    let s: nat = if length + a > b + 53 {
        (length + a - b - 53) as nat
    } else {
        0
    };
    if length + a > b {
        let w = (length + a - b) as nat;
        lemma_pow2_adds((w - 1) as nat, b);
        lemma_pow2_adds(w, b);
        let wl = pow2((w - 1) as nat);
        let wh = pow2(w);
        assert(wl * e == lo * p);
        assert(wh * e == hi * p);
        assert((d * e) * wl <= n * p < (d * e) * wh) by (nonlinear_arith)
            requires
                d * lo <= n < d * hi,
                wl * e == lo * p,
                wh * e == hi * p,
                p > 0,
        ;
        lemma_floor_between(n * p, d * e, w);
        assert(e * 2 * wl <= t * p < e * 2 * wh) by (nonlinear_arith)
            requires
                2 * lo <= t < 2 * hi,
                wl * e == lo * p,
                wh * e == hi * p,
                p > 0,
        ;
        lemma_floor_between(t * p, 2 * e, w);
    } else {
        if length + a < b {
            lemma_pow2_strictly_increases(length + a, b);
        }
        assert(n * p < d * e) by (nonlinear_arith)
            requires
                n < d * hi,
                hi * p <= e,
                p > 0,
                d > 0,
        ;
        assert(t * p < 2 * e) by (nonlinear_arith)
            requires
                t < 2 * hi,
                hi * p <= e,
                p > 0,
        ;
        lemma_basic_div((n * p) as int, (d * e) as int);
        lemma_basic_div((t * p) as int, (2 * e) as int);
        lemma_excess_bits_small(0);
    }
    assert(excess_bits((n * p) / (d * e)) == s);
    assert(excess_bits((t * p) / (2 * e)) == s);
    let drop = (b + s - a) as nat;
    assert(b + s - a >= 1);
    lemma_pow2_adds(drop, a);
    lemma_pow2_adds(drop + 1, a);
    lemma_pow2_adds(b, s);
    lemma_pow2_adds(b + 1, s);
    lemma_pow2_pos(drop);
    lemma_pow2_pos(drop + 1);
    assert((d * e) * pow2(s) == (d * pow2(drop)) * p) by (nonlinear_arith)
        requires
            e * pow2(s) == pow2(drop) * p,
    ;
    assert(d * pow2(drop) > 0) by (nonlinear_arith)
        requires
            d > 0,
            pow2(drop) > 0,
    ;
    lemma_nearest_integer_scale(n, d * pow2(drop), p);
    lemma_nearest_integer_scale(t, pow2(drop + 1), p);
    lemma_sticky(n, d, t, drop);
}

proof fn lemma_unpacked(magnitude: nat)
    requires
        magnitude < INFINITE,
    ensures
        significand_of(magnitude) < 2 * STEP,
        shift_of(magnitude) <= 2045,
        magnitude >= STEP ==> significand_of(magnitude) >= STEP,
        magnitude < STEP ==> shift_of(magnitude) == 0,
        magnitude == shift_of(magnitude) * STEP + significand_of(magnitude),
        (significand_of(magnitude) == 0) == (magnitude == 0),
{
}

/// Significand and shift of a finite magnitude.
pub(crate) fn unpack(magnitude: u64) -> (r: (u64, u32))
    requires
        magnitude < INFINITE,
    ensures
        r.0 == significand_of(magnitude as nat),
        r.1 == shift_of(magnitude as nat),
        r.0 < 2 * STEP,
        r.1 <= 2045,
        (r.0 == 0) == (magnitude == 0),
        magnitude >= STEP ==> r.0 >= STEP,
        magnitude < STEP ==> r.1 == 0,
        magnitude == r.1 * STEP + r.0,
{
    proof {
        lemma_unpacked(magnitude as nat);
    }
    if magnitude < STEP {
        (magnitude, 0)
    } else {
        let field: u64 = magnitude / STEP;
        let shift: u64 = field - 1;
        (magnitude - shift * STEP, shift as u32)
    }
}

/// The product of two finite magnitudes.
fn multiply_magnitudes(a: u64, b: u64) -> (magnitude: u64)
    requires
        a < INFINITE,
        b < INFINITE,
    ensures
        magnitude == nearest(units_of(a as nat) * units_of(b as nat), pow2(1074)),
        magnitude <= INFINITE,
{
    let (ma, sa) = unpack(a);
    let (mb, sb) = unpack(b);
    proof {
        assert(ma * mb <= 0x20_0000_0000_0000 * 0x20_0000_0000_0000) by (nonlinear_arith)
            requires
                0 <= ma <= 0x20_0000_0000_0000,
                0 <= mb <= 0x20_0000_0000_0000,
        ;
        lemma_pow2_adds(sa as nat, sb as nat);
        let pa = pow2(sa as nat);
        let pb = pow2(sb as nat);
        assert((ma as nat * pa) * (mb as nat * pb) == (ma as nat * mb as nat) * (pa * pb))
            by (nonlinear_arith);
    }
    round_exponents(ma as u128 * mb as u128, sa + sb, 1074)
}

/// The quotient of two finite magnitudes, the second above zero.
fn divide_magnitudes(a: u64, b: u64) -> (magnitude: u64)
    requires
        a < INFINITE,
        0 < b < INFINITE,
    ensures
        magnitude == nearest(units_of(a as nat) * pow2(1074), units_of(b as nat)),
        magnitude <= INFINITE,
{
    let (ma, sa) = unpack(a);
    let (mb, sb) = unpack(b);
    proof {
        lemma_pow2_pos(sb as nat);
        lemma_pow2_pos(1074);
        assert(units_of(b as nat) > 0) by (nonlinear_arith)
            requires
                units_of(b as nat) == mb as nat * pow2(sb as nat),
                mb > 0,
                pow2(sb as nat) > 0,
        ;
    }
    if ma == 0 {
        proof {
            assert(units_of(a as nat) * pow2(1074) == 0) by (nonlinear_arith)
                requires
                    units_of(a as nat) == ma as nat * pow2(sa as nat),
                    ma == 0,
            ;
            let d = units_of(b as nat);
            lemma_div_of0(d as int);
            lemma_excess_bits_small(0);
            lemma2_to64();
            assert(d * pow2(0) == d) by (nonlinear_arith)
                requires
                    pow2(0) == 1,
            ;
            lemma_small_mod(0, d);
        }
        return 0;
    }
    let length: u32 = bit_length(ma as u128);
    proof {
        lemma_step();
        if length > 53 {
            if length > 54 {
                lemma_pow2_strictly_increases(53, (length - 1) as nat);
            }
            assert(false);
        }
    }
    let lift: u32 = 126 - length;
    let scale: u128 = two_to(lift);
    let ghost n = ma as nat * pow2(lift as nat);
    proof {
        lemma_pow2_adds(length as nat, lift as nat);
        lemma_pow2_adds((length - 1) as nat, lift as nat);
        lemma2_to64();
        lemma2_to64_rest();
        lemma_pow2_adds(62, 64);
        lemma_pow2_adds(61, 64);
        assert(pow2(125) <= n < pow2(126)) by (nonlinear_arith)
            requires
                pow2((length - 1) as nat) <= ma < pow2(length as nat),
                n == ma as nat * pow2(lift as nat),
                pow2(length as nat) * pow2(lift as nat) == pow2(126),
                pow2((length - 1) as nat) * pow2(lift as nat) == pow2(125),
                pow2(lift as nat) == scale,
                scale > 0,
        ;
    }
    let numerator: u128 = ma as u128 * scale;
    let divisor: u128 = mb as u128;
    let q: u128 = numerator / divisor;
    let r: u128 = numerator % divisor;
    proof {
        lemma_fundamental_div_mod(numerator as int, divisor as int);
        lemma_mod_pos_bound(numerator as int, divisor as int);
        lemma_div_nonincreasing(numerator as int, divisor as int);
        lemma_pow2_adds(72, 53);
        assert(q >= pow2(72)) by (nonlinear_arith)
            requires
                numerator == divisor * q + r,
                r < divisor,
                divisor <= pow2(53),
                numerator >= pow2(72) * pow2(53),
        ;
    }
    let sticky: u128 = if r > 0 {
        1
    } else {
        0
    };
    let t: u128 = 2 * q + sticky;
    proof {
        let k = choose_length(q as nat);
        if k < 54 {
            if k < 53 {
                lemma_pow2_strictly_increases(k, 53);
            }
            lemma_pow2_strictly_increases(53, 72);
            assert(false);
        }
        let av = sa as nat + 1074;
        let bv = sb as nat + lift as nat;
        lemma_sticky_quotient(n, mb as nat, t as nat, av, bv, k);
        // both sides scaled by 2^lift
        let c = pow2(lift as nat);
        let ua = units_of(a as nat);
        let ub = units_of(b as nat);
        lemma_nearest_scale(ua * pow2(1074), ub, c);
        lemma_pow2_adds(sa as nat, 1074);
        lemma_pow2_adds(sb as nat, lift as nat);
        let pa = pow2(sa as nat);
        let u = pow2(1074);
        assert((ma as nat * pa) * u * c == (ma as nat * c) * (pa * u)) by (nonlinear_arith);
        let pb = pow2(sb as nat);
        assert((mb as nat * pb) * c == mb as nat * (pb * c)) by (nonlinear_arith);
    }
    round_exponents(t, sa + 1074, sb + lift + 1)
}

/// Every positive number has a binary length.
pub(crate) proof fn choose_length(q: nat) -> (k: nat)
    requires
        q > 0,
    ensures
        k >= 1,
        pow2((k - 1) as nat) <= q < pow2(k),
    decreases q,
{
    lemma2_to64();
    if q == 1 {
        1
    } else {
        let k = choose_length(q / 2);
        lemma_pow2_unfold(k);
        lemma_pow2_unfold(k + 1);
        k + 1
    }
}

/// A value just above a long significand rounds back to it.
proof fn lemma_absorbed_above(m: nat, s: nat, x: nat)
    requires
        STEP <= m < 2 * STEP,
        s >= 1,
        2 * x < pow2(s),
    ensures
        nearest(m * pow2(s) + x, 1) == if s * STEP + m < INFINITE {
            (s * STEP + m) as nat
        } else {
            INFINITE as nat
        },
{
    let u = pow2(s);
    let n = m * u + x;
    lemma_step();
    lemma_pow2_pos(s);
    lemma_pow2_adds(52, s);
    lemma_pow2_adds(53, s);
    assert(pow2(52 + s) <= n < pow2(53 + s)) by (nonlinear_arith)
        requires
            pow2(52) <= m <= pow2(53) - 1,
            n == m * u + x,
            x < u,
            pow2(52 + s) == pow2(52) * u,
            pow2(53 + s) == pow2(53) * u,
    ;
    assert(n / 1 == n);
    lemma_excess_bits(n, 53 + s);
    assert(1 * u == u);
    lemma_fundamental_div_mod_converse(n as int, u as int, m as int, x as int);
}

/// A value just below a long significand rounds back to it.
proof fn lemma_absorbed_below(m: nat, s: nat, x: nat)
    requires
        STEP <= m < 2 * STEP,
        s >= 2,
        0 < x,
        4 * x < pow2(s),
        s * STEP + m < INFINITE,
    ensures
        m * pow2(s) >= x,
        nearest((m * pow2(s) - x) as nat, 1) == s * STEP + m,
{
    let u = pow2(s);
    lemma_step();
    lemma_pow2_pos(s);
    assert(m * u >= u) by (nonlinear_arith)
        requires
            m >= 1,
            u > 0,
    ;
    let n = (m * u - x) as nat;
    assert(n / 1 == n);
    if m > STEP {
        lemma_pow2_adds(52, s);
        lemma_pow2_adds(53, s);
        assert(pow2(52 + s) <= n < pow2(53 + s)) by (nonlinear_arith)
            requires
                pow2(52) + 1 <= m <= pow2(53) - 1,
                n == m * u - x,
                0 < x < u,
                pow2(52 + s) == pow2(52) * u,
                pow2(53 + s) == pow2(53) * u,
        ;
        lemma_excess_bits(n, 53 + s);
        assert(1 * u == u);
        assert(n == u * (m - 1) + (u - x)) by (nonlinear_arith)
            requires
                n == m * u - x,
        ;
        lemma_fundamental_div_mod_converse(n as int, u as int, m - 1, u - x);
    } else {
        let h = pow2((s - 1) as nat);
        lemma_pow2_unfold(s);
        lemma_pow2_pos((s - 1) as nat);
        lemma_pow2_adds(52, (s - 1) as nat);
        lemma_pow2_adds(53, (s - 1) as nat);
        assert(pow2((51 + s) as nat) <= n < pow2((52 + s) as nat)) by (nonlinear_arith)
            requires
                m == pow2(52),
                pow2(53) == 2 * pow2(52),
                n == m * u - x,
                u == 2 * h,
                0 < x < h,
                pow2(52) >= 1,
                pow2((51 + s) as nat) == pow2(52) * h,
                pow2((52 + s) as nat) == pow2(53) * h,
        ;
        lemma_excess_bits(n, (52 + s) as nat);
        assert(1 * h == h);
        assert(n == h * (2 * m - 1) + (h - x)) by (nonlinear_arith)
            requires
                n == m * u - x,
                u == 2 * h,
        ;
        lemma_fundamental_div_mod_converse(n as int, h as int, 2 * m - 1, h - x);
    }
}

/// The sum of two finite magnitudes, the first no smaller.
fn add_magnitudes(a: u64, b: u64) -> (magnitude: u64)
    requires
        b <= a < INFINITE,
    ensures
        magnitude == nearest(units_of(a as nat) + units_of(b as nat), 1),
        magnitude <= INFINITE,
{
    let (ma, sa) = unpack(a);
    let (mb, sb) = unpack(b);
    let gap: u32 = sa - sb;
    proof {
        lemma2_to64();
        lemma2_to64_rest();
        lemma_pow2_adds(gap as nat, sb as nat);
    }
    if gap <= 70 {
        let scale: u128 = two_to(gap);
        proof {
            lemma_pow2_adds(64, 6);
            if gap < 70 {
                lemma_pow2_strictly_increases(gap as nat, 70);
            }
            assert(ma * scale <= 0x20_0000_0000_0000 * 0x40_0000_0000_0000_0000) by (nonlinear_arith)
                requires
                    0 <= ma <= 0x20_0000_0000_0000,
                    0 <= scale <= 0x40_0000_0000_0000_0000,
            ;
            let g = pow2(gap as nat);
            let p = pow2(sb as nat);
            assert(ma as nat * (g * p) + mb as nat * p == (ma as nat * g + mb as nat) * p)
                by (nonlinear_arith);
        }
        round_exponents(ma as u128 * scale + mb as u128, sb, 0)
    } else {
        proof {
            lemma_step();
            lemma_far_apart(mb as nat, sa as nat, sb as nat);
            lemma_absorbed_above(ma as nat, sa as nat, units_of(b as nat));
        }
        a
    }
}

/// A value whose shift is far smaller lies far below.
proof fn lemma_far_apart(m: nat, sa: nat, sb: nat)
    requires
        m < 2 * STEP,
        sa >= sb + 70,
    ensures
        4 * (m * pow2(sb)) < pow2(sa),
{
    lemma_step();
    lemma_pow2_pos(sb);
    lemma_pow2_adds(53, sb);
    lemma_pow2_adds(2, 53 + sb);
    lemma2_to64();
    lemma_pow2_strictly_increases(55 + sb, sa);
    assert(4 * (m * pow2(sb)) < 4 * (pow2(53) * pow2(sb))) by (nonlinear_arith)
        requires
            m < pow2(53),
            pow2(sb) > 0,
    ;
}

/// The difference of two finite magnitudes, the first no smaller.
fn subtract_magnitudes(a: u64, b: u64) -> (magnitude: u64)
    requires
        b <= a < INFINITE,
    ensures
        units_of(a as nat) >= units_of(b as nat),
        magnitude == nearest((units_of(a as nat) - units_of(b as nat)) as nat, 1),
        magnitude <= INFINITE,
{
    let (ma, sa) = unpack(a);
    let (mb, sb) = unpack(b);
    let gap: u32 = sa - sb;
    proof {
        lemma2_to64();
        lemma2_to64_rest();
        lemma_pow2_adds(gap as nat, sb as nat);
        lemma_units_monotone(b as nat, a as nat);
    }
    if mb == 0 {
        proof {
            assert(units_of(b as nat) == 0) by (nonlinear_arith)
                requires
                    units_of(b as nat) == mb as nat * pow2(sb as nat),
                    mb == 0,
            ;
        }
        round_exponents(ma as u128, sa, 0)
    } else if gap <= 70 {
        let scale: u128 = two_to(gap);
        proof {
            lemma_pow2_adds(64, 6);
            if gap < 70 {
                lemma_pow2_strictly_increases(gap as nat, 70);
            }
            assert(ma * scale <= 0x20_0000_0000_0000 * 0x40_0000_0000_0000_0000) by (nonlinear_arith)
                requires
                    0 <= ma <= 0x20_0000_0000_0000,
                    0 <= scale <= 0x40_0000_0000_0000_0000,
            ;
            let g = pow2(gap as nat);
            let p = pow2(sb as nat);
            lemma_pow2_pos(sb as nat);
            assert(ma as nat * (g * p) - mb as nat * p == (ma as nat * g - mb as nat) * p)
                by (nonlinear_arith);
            assert(ma as nat * g >= mb) by (nonlinear_arith)
                requires
                    (ma as nat * g - mb as nat) * p >= 0,
                    p > 0,
            ;
        }
        round_exponents(ma as u128 * scale - mb as u128, sb, 0)
    } else {
        proof {
            lemma_step();
            lemma_far_apart(mb as nat, sa as nat, sb as nat);
            lemma_pow2_pos(sb as nat);
            assert(units_of(b as nat) > 0) by (nonlinear_arith)
                requires
                    units_of(b as nat) == mb as nat * pow2(sb as nat),
                    mb > 0,
                    pow2(sb as nat) > 0,
            ;
            lemma_absorbed_below(ma as nat, sa as nat, units_of(b as nat));
        }
        a
    }
}

/// Larger magnitudes stand for larger values.
proof fn lemma_units_monotone(a: nat, b: nat)
    requires
        a <= b < INFINITE,
    ensures
        units_of(a) <= units_of(b),
        a < b ==> units_of(a) < units_of(b),
{
    lemma_unpacked(a);
    lemma_unpacked(b);
    let (ma, sa) = (significand_of(a), shift_of(a));
    let (mb, sb) = (significand_of(b), shift_of(b));
    lemma_pow2_pos(sa);
    if sa == sb {
        assert(ma * pow2(sa) <= mb * pow2(sb)) by (nonlinear_arith)
            requires
                ma <= mb,
                sa == sb,
        ;
        if a < b {
            assert(ma * pow2(sa) < mb * pow2(sb)) by (nonlinear_arith)
                requires
                    ma < mb,
                    sa == sb,
                    pow2(sa) > 0,
            ;
        }
    } else {
        assert(sa < sb) by (nonlinear_arith)
            requires
                a <= b,
                a == sa * STEP + ma,
                b == sb * STEP + mb,
                sb == 0 || mb >= STEP,
                mb < 2 * STEP,
                sa == 0 || ma >= STEP,
                sa != sb,
        ;
        let k = (sb - sa) as nat;
        lemma_pow2_adds(k, sa);
        lemma_pow2_unfold(k);
        lemma_pow2_pos((k - 1) as nat);
        assert(ma * pow2(sa) < mb * (pow2(k) * pow2(sa))) by (nonlinear_arith)
            requires
                ma < 2 * STEP,
                mb >= STEP,
                pow2(k) >= 2,
                pow2(sa) > 0,
        ;
    }
}

impl Reading {
    /// Position in the numeric order; meaningless for an undefined reading.
    pub open spec fn rank(self) -> int {
        if self.negative() {
            -(self.magnitude() as int)
        } else {
            self.magnitude() as int
        }
    }

    /// Position in the total order, in which minus zero comes before zero.
    pub open spec fn total_rank(self) -> int {
        if self.negative() {
            -1 - self.magnitude()
        } else {
            self.magnitude() as int
        }
    }

    pub open spec fn at_least(self, other: Reading) -> bool {
        !self.is_undefined() && !other.is_undefined() && self.rank() >= other.rank()
    }

    pub open spec fn above(self, other: Reading) -> bool {
        !self.is_undefined() && !other.is_undefined() && self.rank() > other.rank()
    }

    /// The rounded sum.
    pub open spec fn sum(self, other: Reading) -> Reading {
        if self.is_undefined() || other.is_undefined() {
            undefined()
        } else if self.infinite() {
            if other.infinite() && self.negative() != other.negative() {
                undefined()
            } else {
                self
            }
        } else if other.infinite() {
            other
        } else {
            let total = self.value() + other.value();
            if total == 0 {
                signed(self.negative() && other.negative(), 0)
            } else if total < 0 {
                signed(true, nearest((-total) as nat, 1))
            } else {
                signed(false, nearest(total as nat, 1))
            }
        }
    }

    pub open spec fn negated(self) -> Reading {
        signed(!self.negative(), self.magnitude())
    }

    /// The rounded difference.
    pub open spec fn difference(self, other: Reading) -> Reading {
        self.sum(other.negated())
    }

    /// The rounded product.
    pub open spec fn product(self, other: Reading) -> Reading {
        let negative = self.negative() != other.negative();
        if self.is_undefined() || other.is_undefined() {
            undefined()
        } else if self.infinite() || other.infinite() {
            if self.zero() || other.zero() {
                undefined()
            } else {
                signed(negative, INFINITE as nat)
            }
        } else {
            signed(negative, nearest(self.units() * other.units(), pow2(1074)))
        }
    }

    /// The rounded quotient.
    pub open spec fn quotient(self, other: Reading) -> Reading {
        let negative = self.negative() != other.negative();
        if self.is_undefined() || other.is_undefined() {
            undefined()
        } else if self.infinite() {
            if other.infinite() {
                undefined()
            } else {
                signed(negative, INFINITE as nat)
            }
        } else if other.infinite() {
            signed(negative, 0)
        } else if other.zero() {
            if self.zero() {
                undefined()
            } else {
                signed(negative, INFINITE as nat)
            }
        } else {
            signed(negative, nearest(self.units() * pow2(1074), other.units()))
        }
    }

    /// The reading nearest to a natural number.
    pub open spec fn of_natural(n: nat) -> Reading {
        signed(false, nearest(n * pow2(1074), 1))
    }

    /// The reading nearest to an integer.
    pub open spec fn of_integer(n: int) -> Reading {
        if n >= 0 {
            Reading::of_natural(n as nat)
        } else {
            Reading::of_natural((-n) as nat).negated()
        }
    }

    /// The integer part, held to `0..=max`; zero for an undefined reading.
    pub open spec fn integer_part(self, max: nat) -> nat {
        if self.is_undefined() || self.negative() {
            0
        } else if self.infinite() || self.units() / pow2(1074) > max {
            max
        } else {
            self.units() / pow2(1074)
        }
    }

    /// The nearest integer, halves upwards, held to `0..=max`; zero for a
    /// negative or an undefined reading.
    pub open spec fn nearest_natural(self, max: nat) -> nat {
        let n = (2 * self.units() + pow2(1074)) / pow2(1075);
        if self.is_undefined() || self.negative() {
            0
        } else if self.infinite() || n > max {
            max
        } else {
            n
        }
    }

    /// The whole number of `10^-places` nearest to the magnitude.
    pub open spec fn decimal_units(self, places: nat) -> nat {
        nearest_integer(self.units() * pow(10, places) as nat, pow2(1074))
    }

    /// The reading in decimal with `places` digits after the point, rounded
    /// to the nearest, ties to even.
    pub open spec fn fixed(self, places: nat) -> Seq<char> {
        if self.is_undefined() {
            "NaN"@
        } else {
            let sign = if self.negative() {
                "-"@
            } else {
                ""@
            };
            if self.infinite() {
                sign + "inf"@
            } else {
                sign + fixed_point(self.decimal_units(places), places)
            }
        }
    }

    /// The magnitude's bits.
    pub(crate) fn magnitude_bits(self) -> (r: u64)
        ensures
            r == self.magnitude(),
    {
        if self.bits >= SIGN {
            self.bits - SIGN
        } else {
            self.bits
        }
    }

    pub fn is_finite(self) -> (r: bool)
        ensures
            r == self.finite(),
    {
        self.magnitude_bits() < INFINITE
    }

    pub fn is_nan(self) -> (r: bool)
        ensures
            r == self.is_undefined(),
    {
        self.magnitude_bits() > INFINITE
    }

    /// `self >= other`.
    pub fn ge(self, other: Reading) -> (r: bool)
        ensures
            r == self.at_least(other),
    {
        let a: u64 = self.magnitude_bits();
        let b: u64 = other.magnitude_bits();
        if a > INFINITE || b > INFINITE {
            false
        } else if self.bits >= SIGN {
            if other.bits >= SIGN {
                a <= b
            } else {
                a == 0 && b == 0
            }
        } else if other.bits >= SIGN {
            true
        } else {
            a >= b
        }
    }

    /// `self > other`.
    pub fn gt(self, other: Reading) -> (r: bool)
        ensures
            r == self.above(other),
    {
        !self.is_nan() && !other.is_nan() && !other.ge(self)
    }

    /// Whether `self` comes strictly before `other` in the total order.
    pub fn total_before(self, other: Reading) -> (r: bool)
        ensures
            r == (self.total_rank() < other.total_rank()),
    {
        let a: u64 = self.magnitude_bits();
        let b: u64 = other.magnitude_bits();
        if self.bits >= SIGN {
            other.bits < SIGN || a > b
        } else {
            other.bits < SIGN && a < b
        }
    }

    pub(crate) fn with_sign(negative: bool, magnitude: u64) -> (r: Reading)
        requires
            magnitude < SIGN,
        ensures
            r == signed(negative, magnitude as nat),
    {
        Reading {
            bits: if negative {
                magnitude + SIGN
            } else {
                magnitude
            },
        }
    }

    pub fn plus(self, other: Reading) -> (r: Reading)
        ensures
            r == self.sum(other),
    {
        let a: u64 = self.magnitude_bits();
        let b: u64 = other.magnitude_bits();
        let na: bool = self.bits >= SIGN;
        let nb: bool = other.bits >= SIGN;
        if a > INFINITE || b > INFINITE {
            return Reading { bits: UNDEFINED };
        }
        if a == INFINITE {
            if b == INFINITE && na != nb {
                return Reading { bits: UNDEFINED };
            }
            return self;
        }
        if b == INFINITE {
            return other;
        }
        proof {
            lemma_units_zero(a as nat);
            lemma_units_zero(b as nat);
        }
        if na == nb {
            let m: u64 = if a >= b {
                add_magnitudes(a, b)
            } else {
                add_magnitudes(b, a)
            };
            proof {
                if a == 0 && b == 0 {
                    lemma_nearest_zero();
                }
            }
            Reading::with_sign(na, m)
        } else if a == b {
            Reading::with_sign(false, 0)
        } else if a > b {
            let m: u64 = subtract_magnitudes(a, b);
            proof {
                lemma_units_monotone(b as nat, a as nat);
            }
            Reading::with_sign(na, m)
        } else {
            let m: u64 = subtract_magnitudes(b, a);
            proof {
                lemma_units_monotone(a as nat, b as nat);
            }
            Reading::with_sign(nb, m)
        }
    }

    pub fn minus(self, other: Reading) -> (r: Reading)
        ensures
            r == self.difference(other),
    {
        let m: u64 = other.magnitude_bits();
        self.plus(Reading::with_sign(other.bits < SIGN, m))
    }

    pub fn times(self, other: Reading) -> (r: Reading)
        ensures
            r == self.product(other),
    {
        let a: u64 = self.magnitude_bits();
        let b: u64 = other.magnitude_bits();
        let negative: bool = (self.bits >= SIGN) != (other.bits >= SIGN);
        if a > INFINITE || b > INFINITE {
            return Reading { bits: UNDEFINED };
        }
        if a == INFINITE || b == INFINITE {
            if a == 0 || b == 0 {
                return Reading { bits: UNDEFINED };
            }
            return Reading::with_sign(negative, INFINITE);
        }
        Reading::with_sign(negative, multiply_magnitudes(a, b))
    }

    pub fn over(self, other: Reading) -> (r: Reading)
        ensures
            r == self.quotient(other),
    {
        let a: u64 = self.magnitude_bits();
        let b: u64 = other.magnitude_bits();
        let negative: bool = (self.bits >= SIGN) != (other.bits >= SIGN);
        if a > INFINITE || b > INFINITE {
            return Reading { bits: UNDEFINED };
        }
        if a == INFINITE {
            if b == INFINITE {
                return Reading { bits: UNDEFINED };
            }
            return Reading::with_sign(negative, INFINITE);
        }
        if b == INFINITE {
            return Reading::with_sign(negative, 0);
        }
        if b == 0 {
            if a == 0 {
                return Reading { bits: UNDEFINED };
            }
            return Reading::with_sign(negative, INFINITE);
        }
        Reading::with_sign(negative, divide_magnitudes(a, b))
    }

    /// The reading nearest to `n`.
    pub fn from_u64(n: u64) -> (r: Reading)
        ensures
            r == Reading::of_natural(n as nat),
    {
        proof {
            lemma2_to64();
        }
        Reading::with_sign(false, round_exponents(n as u128, 1074, 0))
    }

    /// The reading nearest to `n`.
    pub fn from_i64(n: i64) -> (r: Reading)
        ensures
            r == Reading::of_integer(n as int),
    {
        if n >= 0 {
            Reading::from_u64(n as u64)
        } else {
            let x: Reading = Reading::from_u64((-(n as i128)) as u64);
            let m: u64 = x.magnitude_bits();
            Reading::with_sign(x.bits < SIGN, m)
        }
    }

    /// The integer part, held to `0..=max`.
    pub fn truncated(self, max: u64) -> (r: u64)
        ensures
            r == self.integer_part(max as nat),
    {
        let a: u64 = self.magnitude_bits();
        if a > INFINITE || self.bits >= SIGN {
            return 0;
        }
        if a == INFINITE {
            return max;
        }
        let (m, s) = unpack(a);
        proof {
            lemma_pow2_pos(1074);
            lemma2_to64();
            lemma2_to64_rest();
        }
        if s >= 1074 {
            let k: u32 = s - 1074;
            proof {
                lemma_integer_units(m as nat, s as nat);
                lemma_pow2_pos(k as nat);
            }
            held_product(m, k, max)
        } else {
            let k: u32 = 1074 - s;
            proof {
                lemma_pow2_adds(k as nat, s as nat);
                lemma_pow2_pos(s as nat);
                lemma_pow2_pos(k as nat);
                lemma_nearest_integer_scale(m as nat, pow2(k as nat), pow2(s as nat));
            }
            if k >= 64 {
                proof {
                    if k > 64 {
                        lemma_pow2_strictly_increases(64, k as nat);
                    }
                    lemma_basic_div(m as int, pow2(k as nat) as int);
                }
                0
            } else {
                let q: u128 = m as u128 / two_to(k);
                proof {
                    lemma_div_nonincreasing(m as int, pow2(k as nat) as int);
                }
                if q > max as u128 {
                    max
                } else {
                    q as u64
                }
            }
        }
    }

    /// The nearest integer, halves upwards, held to `0..=max`.
    pub fn rounded(self, max: u64) -> (r: u64)
        ensures
            r == self.nearest_natural(max as nat),
    {
        let a: u64 = self.magnitude_bits();
        if a > INFINITE || self.bits >= SIGN {
            return 0;
        }
        if a == INFINITE {
            return max;
        }
        let (m, s) = unpack(a);
        proof {
            lemma_pow2_pos(1074);
            lemma_pow2_unfold(1075);
            lemma2_to64();
            lemma2_to64_rest();
        }
        if s >= 1074 {
            let k: u32 = s - 1074;
            proof {
                lemma_integer_units(m as nat, s as nat);
                lemma_pow2_pos(k as nat);
                let x = m as nat * pow2(k as nat);
                let u = pow2(1074);
                assert(2 * self.units() + u == (2 * u) * x + u) by (nonlinear_arith)
                    requires
                        self.units() == x * u,
                ;
                lemma_fundamental_div_mod_converse(
                    (2 * self.units() + u) as int,
                    (2 * u) as int,
                    x as int,
                    u as int,
                );
            }
            held_product(m, k, max)
        } else {
            let k: u32 = 1074 - s;
            proof {
                lemma_pow2_adds(k as nat, s as nat);
                lemma_pow2_unfold(k as nat);
                lemma_pow2_pos(s as nat);
                lemma_pow2_pos(k as nat);
                lemma_pow2_pos((k - 1) as nat);
                let h = pow2((k - 1) as nat);
                let p = pow2(s as nat);
                assert(2 * (m as nat * p) + (2 * h) * p == (m as nat + h) * (2 * p))
                    by (nonlinear_arith);
                assert(2 * ((2 * h) * p) == (2 * h) * (2 * p)) by (nonlinear_arith);
                lemma_nearest_integer_scale(m as nat + h, 2 * h, 2 * p);
            }
            if k >= 64 {
                proof {
                    if k > 64 {
                        lemma_pow2_strictly_increases(63, (k - 1) as nat);
                    }
                    lemma_basic_div(
                        (m as nat + pow2((k - 1) as nat)) as int,
                        pow2(k as nat) as int,
                    );
                }
                0
            } else {
                let half: u128 = two_to(k - 1);
                proof {
                    if k - 1 < 63 {
                        lemma_pow2_strictly_increases((k - 1) as nat, 63);
                    }
                }
                let q: u128 = (m as u128 + half) / two_to(k);
                if q > max as u128 {
                    max
                } else {
                    q as u64
                }
            }
        }
    }

    /// The reading in decimal with `places` digits after the point.
    pub fn fixed_text(self, places: usize) -> (r: String)
        requires
            places <= 3,
        ensures
            r@ == self.fixed(places as nat),
    {
        let a: u64 = self.magnitude_bits();
        if a > INFINITE {
            return "NaN".to_owned();
        }
        let mut r: String = if self.bits >= SIGN {
            "-".to_owned()
        } else {
            "".to_owned()
        };
        if a == INFINITE {
            r.append("inf");
            return r;
        }
        let (m, s) = unpack(a);
        let ten: u64 = ten_to(places);
        proof {
            lemma_pow2_pos(1074);
            lemma2_to64();
            lemma2_to64_rest();
        }
        if s >= 1074 {
            let k: u32 = s - 1074;
            let ghost x = m as nat * pow2(k as nat);
            proof {
                lemma_integer_units(m as nat, s as nat);
                let u = pow2(1074);
                assert(self.units() * ten as nat == (x * ten as nat) * u) by (nonlinear_arith)
                    requires
                        self.units() == x * u,
                ;
                lemma_nearest_integer_scale(x * ten as nat, 1, u);
                assert(1 * u == u);
                assert((x * ten as nat) / 1 == x * ten as nat && (x * ten as nat) % 1 == 0);
                assert(self.decimal_units(places as nat) == x * ten as nat);
                lemma_div_multiples_vanish(x as int, ten as int);
                lemma_mod_multiples_basic(x as int, ten as int);
                assert(x * ten as nat == ten as nat * x) by (nonlinear_arith);
            }
            let whole: String = shifted_decimal(m, k);
            r.append(whole.as_str());
            if places > 0 {
                r.append(".");
                let zeros: String = padded_text(0, places);
                r.append(zeros.as_str());
            }
            let sign = Ghost(if self.negative() { "-"@ } else { ""@ });
            assert(r@ == sign@ + fixed_point(x * ten as nat, places as nat));
            r
        } else {
            let k: u32 = 1074 - s;
            proof {
                assert(m * ten <= 0x20_0000_0000_0000 * 1000) by (nonlinear_arith)
                    requires
                        0 <= m <= 0x20_0000_0000_0000,
                        0 <= ten <= 1000,
                ;
            }
            let scaled: u128 = m as u128 * ten as u128;
            proof {
                lemma_pow2_adds(k as nat, s as nat);
                lemma_pow2_pos(s as nat);
                lemma_pow2_pos(k as nat);
                let p = pow2(s as nat);
                assert((m as nat * p) * ten as nat == (m as nat * ten as nat) * p)
                    by (nonlinear_arith);
                lemma_nearest_integer_scale(scaled as nat, pow2(k as nat), p);
            }
            let n: u128 = divided_to_nearest(scaled, k);
            let whole: String = decimal_text(n / ten as u128);
            r.append(whole.as_str());
            if places > 0 {
                r.append(".");
                let part: String = padded_text((n % ten as u128) as u64, places);
                r.append(part.as_str());
            }
            let sign = Ghost(if self.negative() { "-"@ } else { ""@ });
            assert(r@ == sign@ + fixed_point(n as nat, places as nat));
            r
        }
    }
}

/// `n` units of `10^-places` written with a decimal point.
pub open spec fn fixed_point(n: nat, places: nat) -> Seq<char> {
    let ten = pow(10, places) as nat;
    if places == 0 {
        decimal(n / ten)
    } else {
        decimal(n / ten) + "."@ + padded(n % ten, places)
    }
}

fn ten_to(places: usize) -> (r: u64)
    requires
        places <= 3,
    ensures
        r == pow(10, places as nat),
        1 <= r <= 1000,
{
    proof {
        reveal_with_fuel(pow, 5);
    }
    if places == 0 {
        1
    } else if places == 1 {
        10
    } else if places == 2 {
        100
    } else {
        1000
    }
}

/// `t / 2^k` rounded to the nearest integer, ties to even.
fn divided_to_nearest(t: u128, k: u32) -> (r: u128)
    requires
        t < 0x8000_0000_0000_0000,
    ensures
        r == nearest_integer(t as nat, pow2(k as nat)),
        r <= t + 1,
{
    proof {
        lemma2_to64();
        lemma2_to64_rest();
        lemma_pow2_pos(k as nat);
    }
    if k >= 64 {
        proof {
            if k > 64 {
                lemma_pow2_strictly_increases(64, k as nat);
            }
            lemma_basic_div(t as int, pow2(k as nat) as int);
            lemma_small_mod(t as nat, pow2(k as nat));
        }
        return 0;
    }
    let d: u128 = two_to(k);
    let q: u128 = t / d;
    let r: u128 = t % d;
    proof {
        lemma_div_nonincreasing(t as int, d as int);
        if k < 64 {
            lemma_pow2_strictly_increases(k as nat, 64);
        }
    }
    if 2 * r < d || (2 * r == d && q % 2 == 0) {
        q
    } else {
        q + 1
    }
}

/// `m * 2^k`, held to `max`.
fn held_product(m: u64, k: u32, max: u64) -> (r: u64)
    requires
        m < 2 * STEP,
    ensures
        r == if m as nat * pow2(k as nat) > max {
            max as nat
        } else {
            m as nat * pow2(k as nat)
        },
{
    proof {
        lemma2_to64();
        lemma2_to64_rest();
    }
    if m == 0 {
        assert(0 * pow2(k as nat) == 0) by (nonlinear_arith);
        return 0;
    }
    if k >= 64 {
        proof {
            if k > 64 {
                lemma_pow2_strictly_increases(64, k as nat);
            }
            assert(m as nat * pow2(k as nat) >= pow2(k as nat)) by (nonlinear_arith)
                requires
                    m >= 1,
            ;
        }
        return max;
    }
    let scale: u128 = two_to(k);
    proof {
        lemma_pow2_strictly_increases(k as nat, 64);
        assert(m * scale <= 0x20_0000_0000_0000 * 0x1_0000_0000_0000_0000) by (nonlinear_arith)
            requires
                0 <= m <= 0x20_0000_0000_0000,
                0 <= scale <= 0x1_0000_0000_0000_0000,
        ;
    }
    let x: u128 = m as u128 * scale;
    if x > max as u128 {
        max
    } else {
        x as u64
    }
}

proof fn lemma_integer_units(m: nat, s: nat)
    requires
        s >= 1074,
    ensures
        m * pow2(s) == (m * pow2((s - 1074) as nat)) * pow2(1074),
        (m * pow2(s)) / pow2(1074) == m * pow2((s - 1074) as nat),
{
    let k = (s - 1074) as nat;
    let u = pow2(1074);
    lemma_pow2_adds(k, 1074);
    lemma_pow2_pos(1074);
    assert(m * (pow2(k) * u) == (m * pow2(k)) * u) by (nonlinear_arith);
    lemma_div_by_multiple((m * pow2(k)) as int, u as int);
}

proof fn lemma_units_zero(magnitude: nat)
    requires
        magnitude < INFINITE,
    ensures
        (units_of(magnitude) == 0) == (magnitude == 0),
{
    lemma_unpacked(magnitude);
    let (m, p) = (significand_of(magnitude), pow2(shift_of(magnitude)));
    lemma_pow2_pos(shift_of(magnitude));
    assert((m * p == 0) == (m == 0)) by (nonlinear_arith)
        requires
            p > 0,
            m >= 0,
    ;
}

pub(crate) proof fn lemma_nearest_zero()
    ensures
        nearest(0, 1) == 0,
{
    lemma2_to64();
    lemma_excess_bits_small(0);
    assert(1 * pow2(0) == 1);
}

/// The number that little-endian decimal digits stand for.
pub open spec fn digits_value(d: Seq<u8>) -> nat
    decreases d.len(),
{
    if d.len() == 0 {
        0
    } else {
        d[0] as nat + 10 * digits_value(d.drop_first())
    }
}

/// Whether digits are written without a leading zero.
pub open spec fn proper_digits(d: Seq<u8>) -> bool {
    &&& d.len() > 0
    &&& forall|i: int| 0 <= i < d.len() ==> #[trigger] d[i] < 10
    &&& d.len() > 1 ==> d.last() > 0
}

pub(crate) proof fn lemma_digits_push(d: Seq<u8>, x: u8)
    ensures
        digits_value(d.push(x)) == digits_value(d) + x * pow(10, d.len()),
    decreases d.len(),
{
    reveal(pow);
    if d.len() == 0 {
        assert(d.push(x).drop_first() == Seq::<u8>::empty());
        assert(digits_value(d.push(x).drop_first()) == 0);
        lemma_pow0(10);
    } else {
        assert(d.push(x).drop_first() == d.drop_first().push(x));
        lemma_digits_push(d.drop_first(), x);
        let p = pow(10, (d.len() - 1) as nat);
        assert(pow(10, d.len()) == 10 * p);
        assert(10 * (x * p) == x * (10 * p)) by (nonlinear_arith);
    }
}

/// The decimal text of little-endian digits.
spec fn digits_text(d: Seq<u8>) -> Seq<char>
    decreases d.len(),
{
    if d.len() == 0 {
        seq![]
    } else {
        digits_text(d.drop_first()).push(digit_char(d[0] as nat))
    }
}

proof fn lemma_digits_positive(d: Seq<u8>)
    requires
        proper_digits(d),
    ensures
        d.len() > 1 ==> digits_value(d) >= 10,
        d.len() == 1 ==> digits_value(d) == d[0] && digits_value(d) < 10,
        d.len() >= 1 && d.last() > 0 ==> digits_value(d) > 0,
    decreases d.len(),
{
    if d.len() == 1 {
        assert(d.drop_first() == Seq::<u8>::empty());
        assert(digits_value(d.drop_first()) == 0);
    } else {
        assert(d.drop_first().last() == d.last());
        lemma_digits_positive(d.drop_first());
    }
}

proof fn lemma_digits_text(d: Seq<u8>)
    requires
        proper_digits(d),
    ensures
        digits_text(d) == decimal(digits_value(d)),
    decreases d.len(),
{
    lemma_digits_positive(d);
    if d.len() == 1 {
        assert(d.drop_first() == Seq::<u8>::empty());
        assert(digits_text(d.drop_first()) == Seq::<char>::empty());
        assert(digits_text(d) == seq![digit_char(d[0] as nat)]);
    } else {
        assert(d.drop_first().last() == d.last());
        lemma_digits_text(d.drop_first());
        let v = digits_value(d);
        assert(v / 10 == digits_value(d.drop_first()));
        assert(v % 10 == d[0]);
    }
}

/// Little-endian digits of `n`.
fn digits_of(n: u64) -> (r: Vec<u8>)
    ensures
        proper_digits(r@),
        digits_value(r@) == n,
{
    let mut r: Vec<u8> = Vec::new();
    let mut rest: u64 = n;
    let ghost mut scale: nat = 1;
    proof {
        lemma_pow0(10);
        assert(rest * scale == rest) by (nonlinear_arith)
            requires
                scale == 1,
        ;
    }
    while rest >= 10
        invariant
            forall|i: int| 0 <= i < r@.len() ==> #[trigger] r@[i] < 10,
            scale == pow(10, r@.len()),
            digits_value(r@) + rest * scale == n,
            rest > 0 || r@.len() == 0,
        decreases rest,
    {
        let d: u8 = (rest % 10) as u8;
        proof {
            lemma_digits_push(r@, d);
            reveal(pow);
            assert(rest * scale == d * scale + (rest / 10) * (10 * scale)) by (nonlinear_arith)
                requires
                    rest == 10 * (rest / 10) + d,
            ;
            assert(pow(10, r@.len() + 1) == 10 * pow(10, r@.len()));
            scale = 10 * scale;
        }
        r.push(d);
        rest = rest / 10;
    }
    proof {
        lemma_digits_push(r@, rest as u8);
    }
    r.push(rest as u8);
    r
}

/// Twice the number that `d` stands for.
pub(crate) fn doubled(d: &Vec<u8>) -> (r: Vec<u8>)
    requires
        proper_digits(d@),
    ensures
        proper_digits(r@),
        digits_value(r@) == 2 * digits_value(d@),
        r@.len() <= d@.len() + 1,
{
    let mut r: Vec<u8> = Vec::new();
    let mut carry: u8 = 0;
    let mut i: usize = 0;
    proof {
        lemma_pow0(10);
        assert(d@.take(0) == Seq::<u8>::empty());
    }
    while i < d.len()
        invariant
            proper_digits(d@),
            i <= d@.len(),
            r@.len() == i,
            carry <= 1,
            forall|j: int| 0 <= j < r@.len() ==> #[trigger] r@[j] < 10,
            digits_value(r@) + carry * pow(10, i as nat) == 2 * digits_value(d@.take(i as int)),
            i == d@.len() && i > 1 ==> r@.last() > 0 || carry > 0,
        decreases d@.len() - i,
    {
        let x: u8 = 2 * d[i] + carry;
        proof {
            lemma_digits_push(r@, (x % 10) as u8);
            assert(d@.take(i + 1) == d@.take(i as int).push(d@[i as int]));
            lemma_digits_push(d@.take(i as int), d@[i as int]);
            reveal(pow);
            let p = pow(10, i as nat);
            assert(pow(10, (i + 1) as nat) == 10 * p);
            assert((x % 10) * p + (x / 10) * (10 * p) == 2 * (d@[i as int] * p) + carry * p)
                by (nonlinear_arith)
                requires
                    x == 2 * d@[i as int] + carry,
            ;
        }
        r.push(x % 10);
        carry = x / 10;
        i = i + 1;
    }
    assert(d@.take(d@.len() as int) == d@);
    if carry > 0 {
        proof {
            lemma_digits_push(r@, carry);
        }
        r.push(carry);
    } else {
        assert(carry * pow(10, i as nat) == 0) by (nonlinear_arith)
            requires
                carry == 0,
        ;
    }
    r
}

/// `m * 2^k` in decimal.
fn shifted_decimal(m: u64, k: u32) -> (r: String)
    ensures
        r@ == decimal(m as nat * pow2(k as nat)),
{
    let mut d: Vec<u8> = digits_of(m);
    let mut i: u32 = 0;
    proof {
        lemma2_to64();
        assert(m as nat * pow2(0) == m) by (nonlinear_arith)
            requires
                pow2(0) == 1,
        ;
    }
    while i < k
        invariant
            i <= k,
            proper_digits(d@),
            digits_value(d@) == m as nat * pow2(i as nat),
        decreases k - i,
    {
        proof {
            lemma_pow2_unfold((i + 1) as nat);
            let p = pow2(i as nat);
            assert(2 * (m as nat * p) == m as nat * (2 * p)) by (nonlinear_arith);
        }
        d = doubled(&d);
        i = i + 1;
    }
    proof {
        lemma_digits_text(d@);
    }
    let mut r: String = String::new();
    let mut j: usize = d.len();
    assert(d@.skip(j as int) == Seq::<u8>::empty());
    while j > 0
        invariant
            j <= d@.len(),
            proper_digits(d@),
            r@ == digits_text(d@.skip(j as int)),
        decreases j,
    {
        j = j - 1;
        assert(d@.skip(j as int).drop_first() == d@.skip(j + 1));
        r.push((48 + d[j]) as char);
    }
    assert(d@.skip(0) == d@);
    r
}

/// For finite readings the order of ranks is the order of values.
pub proof fn ranks_order_values(a: Reading, b: Reading)
    requires
        a.finite(),
        b.finite(),
    ensures
        a.at_least(b) == (a.value() >= b.value()),
        a.above(b) == (a.value() > b.value()),
{
    lemma_units_zero(a.magnitude());
    lemma_units_zero(b.magnitude());
    if a.magnitude() <= b.magnitude() {
        lemma_units_monotone(a.magnitude(), b.magnitude());
    } else {
        lemma_units_monotone(b.magnitude(), a.magnitude());
    }
}

proof fn natural_parts(n: nat) -> (b: nat)
    requires
        0 < n <= u64::MAX,
    ensures
        1 <= b <= 64,
        pow2((b - 1) as nat) <= n < pow2(b),
        excess_bits(n * pow2(1074)) == b + 1021,
{
    let b = choose_length(n);
    let k = (b - 1) as nat;
    lemma2_to64();
    lemma2_to64_rest();
    if b > 64 {
        if b > 65 {
            lemma_pow2_strictly_increases(64, k);
        }
        assert(false);
    }
    let u = pow2(1074);
    lemma_pow2_pos(1074);
    lemma_pow2_adds(k, 1074);
    lemma_pow2_adds(b, 1074);
    assert(pow2(k) * u <= n * u < pow2(b) * u) by (nonlinear_arith)
        requires
            pow2(k) <= n < pow2(b),
            u > 0,
    ;
    lemma_excess_bits(n * u, b + 1074);
    b
}

/// Every natural number of 64 bits has a finite reading that is not negative.
pub proof fn naturals_are_finite(n: nat)
    requires
        n <= u64::MAX,
    ensures
        Reading::of_natural(n).finite(),
        !Reading::of_natural(n).negative(),
        !(Reading { bits: 0 }).above(Reading::of_natural(n)),
{
    if n == 0 {
        assert(0nat * pow2(1074) == 0);
        lemma_nearest_zero();
    } else {
        let b = natural_parts(n);
        let s = b + 1021;
        let q = n * pow2(1074);
        let p = pow2(s);
        lemma_step();
        lemma_pow2_pos(s);
        lemma_pow2_adds(s, 53);
        lemma_pow2_adds(b, 1074);
        assert(s + 53 == b + 1074);
        lemma_pow2_pos(1074);
        assert(q < p * pow2(53)) by (nonlinear_arith)
            requires
                q == n * pow2(1074),
                n < pow2(b),
                pow2(1074) > 0,
                pow2(b) * pow2(1074) == p * pow2(53),
        ;
        lemma_div_strictly_bounded(q as int, p as int, pow2(53) as int);
        assert(nearest_integer(q, 1 * p) <= 2 * STEP);
        assert(s * STEP + 2 * STEP < INFINITE);
    }
}

/// A natural number below 2^53 is its own reading's integer part.
pub proof fn small_naturals_read_back(n: nat, max: nat)
    requires
        n < 2 * STEP,
        n <= max,
    ensures
        Reading::of_natural(n).integer_part(max) == n,
        Reading::of_natural(n).units() == n * pow2(1074),
{
    lemma_step();
    lemma_pow2_pos(1074);
    naturals_are_finite(n);
    let u = pow2(1074);
    let q = n * u;
    if n == 0 {
        assert(0nat * u == 0);
        lemma_nearest_zero();
        lemma_units_zero(0);
        lemma_div_basics(u as int);
    } else {
        let b = natural_parts(n);
        if b > 53 {
            if b > 54 {
                lemma_pow2_strictly_increases(53, (b - 1) as nat);
            }
            assert(false);
        }
        let s = b + 1021;
        let p = pow2(s);
        let c = (53 - b) as nat;
        let t = n * pow2(c);
        lemma_pow2_pos(s);
        lemma_pow2_pos(c);
        lemma_pow2_adds(c, s);
        assert(c + s == 1074);
        assert(q == t * p) by (nonlinear_arith)
            requires
                q == n * u,
                u == pow2(c) * p,
                t == n * pow2(c),
        ;
        lemma_pow2_adds((b - 1) as nat, c);
        lemma_pow2_adds(b, c);
        assert(b - 1 + c == 52);
        assert(b + c == 53);
        assert(pow2(52) <= t < pow2(53)) by (nonlinear_arith)
            requires
                pow2((b - 1) as nat) <= n < pow2(b),
                pow2((b - 1) as nat) * pow2(c) == pow2(52),
                pow2(b) * pow2(c) == pow2(53),
                t == n * pow2(c),
                pow2(c) > 0,
        ;
        lemma_fundamental_div_mod_converse(q as int, p as int, t as int, 0);
        assert(1 * p == p);
        assert(nearest_integer(q, p) == t);
        let m = (s * STEP + t) as nat;
        assert(q / 1 == q);
        assert(nearest(q, 1) == m);
        assert(m / STEP as nat == s + 1);
        assert(shift_of(m) == s);
        assert(significand_of(m) == t);
        assert(units_of(m) == q);
        lemma_fundamental_div_mod_converse(q as int, u as int, n as int, 0);
    }
}

/// Rounding keeps the order of values.
pub proof fn rounding_keeps_order(a: nat, b: nat, d: nat)
    requires
        a <= b,
        d > 0,
    ensures
        nearest(a, d) <= nearest(b, d),
{
    let (qa, qb) = (a / d, b / d);
    lemma_div_is_ordered(a as int, b as int, d as int);
    let (sa, sb) = (excess_bits(qa), excess_bits(qb));
    lemma_excess_grows(qa, qb);
    let (pa, pb) = (pow2(sa), pow2(sb));
    lemma_pow2_pos(sa);
    lemma_pow2_pos(sb);
    assert(d * pa > 0 && d * pb > 0) by (nonlinear_arith)
        requires
            d > 0,
            pa > 0,
            pb > 0,
    ;
    if sa == sb {
        lemma_nearest_integer_ordered(a, b, d * pa);
    } else {
        lemma_excess_bounds(qa);
        lemma_excess_bounds(qb);
        lemma_div_denominator(a as int, d as int, pa as int);
        lemma_div_denominator(b as int, d as int, pb as int);
        assert(nearest_integer(a, d * pa) <= qa / pa + 1);
        assert(nearest_integer(b, d * pb) >= qb / pb);
    }
}

proof fn lemma_excess_grows(a: nat, b: nat)
    requires
        a <= b,
    ensures
        excess_bits(a) <= excess_bits(b),
    decreases b,
{
    if a >= 2 * STEP {
        lemma_excess_grows(a / 2, b / 2);
    }
}

/// What is left of `q` without its excess bits has no more than 53 of them, and
/// no fewer where there was an excess.
proof fn lemma_excess_bounds(q: nat)
    ensures
        q / pow2(excess_bits(q)) < 2 * STEP,
        excess_bits(q) > 0 ==> q / pow2(excess_bits(q)) >= STEP,
    decreases q,
{
    lemma2_to64();
    if q >= 2 * STEP {
        let h = q / 2;
        lemma_excess_bounds(h);
        let k = excess_bits(h);
        lemma_pow2_unfold(k + 1);
        lemma_pow2_pos(k);
        lemma_div_denominator(q as int, 2, pow2(k) as int);
    }
}

proof fn lemma_nearest_integer_ordered(a: nat, b: nat, d: nat)
    requires
        a <= b,
        d > 0,
    ensures
        nearest_integer(a, d) <= nearest_integer(b, d),
{
    lemma_div_is_ordered(a as int, b as int, d as int);
    lemma_fundamental_div_mod(a as int, d as int);
    lemma_fundamental_div_mod(b as int, d as int);
}

/// Products with one reading that is not negative keep the order of readings
/// that are not negative, and so do their nearest integers.
pub proof fn products_keep_order(a: Reading, b: Reading, by: Reading, max: nat)
    requires
        a.finite() && b.finite() && by.finite(),
        !a.negative() && !b.negative() && !by.negative(),
        a.magnitude() <= b.magnitude(),
    ensures
        a.product(by).nearest_natural(max) <= b.product(by).nearest_natural(max),
{
    lemma_units_monotone(a.magnitude(), b.magnitude());
    let u = pow2(1074);
    lemma_pow2_pos(1074);
    lemma_pow2_pos(1075);
    let (x, y) = (a.units() * by.units(), b.units() * by.units());
    assert(x <= y) by (nonlinear_arith)
        requires
            x == a.units() * by.units(),
            y == b.units() * by.units(),
            a.units() <= b.units(),
            by.units() >= 0,
    ;
    rounding_keeps_order(x, y, u);
    let (p, q) = (a.product(by), b.product(by));
    assert(p.magnitude() == nearest(x, u) && q.magnitude() == nearest(y, u));
    if !q.infinite() {
        lemma_units_monotone(p.magnitude(), q.magnitude());
        lemma_div_is_ordered(
            (2 * p.units() + u) as int,
            (2 * q.units() + u) as int,
            pow2(1075) as int,
        );
    }
}

/// The units of a magnitude round to that magnitude.
proof fn lemma_units_round_back(m: nat)
    requires
        m < INFINITE,
    ensures
        nearest(units_of(m), 1) == m,
{
    lemma_unpacked(m);
    lemma_step();
    lemma2_to64();
    let (sig, s) = (significand_of(m), shift_of(m));
    let (q, p) = (units_of(m), pow2(s));
    lemma_pow2_pos(s);
    assert(q / 1 == q);
    if m < STEP {
        assert(q == sig) by (nonlinear_arith)
            requires
                q == sig * p,
                p == 1,
        ;
        lemma_excess_bits_small(q);
    } else {
        lemma_pow2_adds(52, s);
        lemma_pow2_adds(53, s);
        assert(pow2(52 + s) <= q < pow2(53 + s)) by (nonlinear_arith)
            requires
                q == sig * p,
                STEP <= sig < 2 * STEP,
                pow2(52 + s) == STEP * p,
                pow2(53 + s) == (2 * STEP) * p,
                p > 0,
        ;
        lemma_excess_bits(q, 53 + s);
    }
    assert(excess_bits(q) == s);
    assert(1 * p == p);
    assert(q == sig * p + 0);
    lemma_fundamental_div_mod_converse(q as int, p as int, sig as int, 0);
}

/// One times a finite reading that is not negative is that reading.
pub proof fn one_times_a_reading(one: Reading, by: Reading)
    requires
        one.bits == 0x3ff0_0000_0000_0000,
        by.finite(),
        !by.negative(),
    ensures
        one.product(by) == by,
{
    let u = pow2(1074);
    lemma_step();
    lemma_pow2_pos(1074);
    lemma_pow2_adds(52, 1022);
    assert(one.magnitude() / STEP as nat == 1023);
    assert(one.units() == u);
    assert(u * by.units() == by.units() * u) by (nonlinear_arith);
    assert(1 * u == u);
    lemma_nearest_scale(by.units(), 1, u);
    lemma_units_round_back(by.magnitude());
}

/// A small whole number is the nearest integer of its reading.
pub proof fn small_naturals_are_nearest(n: nat, max: nat)
    requires
        n < 2 * STEP,
        n <= max,
    ensures
        Reading::of_natural(n).nearest_natural(max) == n,
{
    let u = pow2(1074);
    small_naturals_read_back(n, max);
    naturals_are_finite(n);
    lemma_pow2_pos(1074);
    lemma_pow2_unfold(1075);
    let t = (2 * (n * u) + u) as int;
    assert(t == n * (2 * u) + u) by (nonlinear_arith)
        requires
            t == 2 * (n * u) + u,
    ;
    lemma_fundamental_div_mod_converse(t, (2 * u) as int, n as int, u as int);
}

/// Nothing times a finite reading is nothing.
pub proof fn nothing_times_a_reading(zero: Reading, by: Reading, max: nat)
    requires
        zero.zero(),
        by.finite(),
    ensures
        zero.product(by).nearest_natural(max) == 0,
{
    lemma_units_zero(0);
    let u = pow2(1074);
    lemma_pow2_pos(1074);
    lemma_pow2_unfold(1075);
    assert(0 * by.units() == 0) by (nonlinear_arith);
    assert(1 * u == u && 0 * u == 0);
    lemma_nearest_scale(0, 1, u);
    lemma_nearest_zero();
    lemma_basic_div((2 * 0 + u) as int, pow2(1075) as int);
}

/// What rounding leaves in units: a multiple of the place that it rounds to.
proof fn lemma_rounded_units(n: nat, d: nat)
    requires
        d > 0,
        nearest(n, d) < INFINITE,
    ensures
        ({
            let s = excess_bits(n / d);
            let m = nearest_integer(n, d * pow2(s));
            &&& units_of(nearest(n, d)) == m * pow2(s)
            &&& nearest(n, d) == s * STEP + m
            &&& shift_of(nearest(n, d)) >= s
        }),
{
    let q = n / d;
    let s = excess_bits(q);
    let p = pow2(s);
    lemma_pow2_pos(s);
    lemma2_to64();
    assert(d * p > 0) by (nonlinear_arith)
        requires
            d > 0,
            p > 0,
    ;
    lemma_excess_bounds(q);
    lemma_div_denominator(n as int, d as int, p as int);
    let m = nearest_integer(n, d * p);
    assert(m <= 2 * STEP);
    assert(s > 0 ==> m >= STEP);
    let r = nearest(n, d);
    assert(r == s * STEP + m);
    if m == 2 * STEP {
        assert(r / STEP as nat == s + 2);
        lemma_pow2_unfold(s + 1);
        assert(STEP * (2 * p) == (2 * STEP) * p) by (nonlinear_arith);
    } else if m >= STEP {
        assert(r / STEP as nat == s + 1);
    } else {
        assert(s == 0);
    }
}

proof fn lemma_nearest_integer_error(n: nat, d: nat)
    requires
        d > 0,
    ensures
        -(d as int) <= 2 * (nearest_integer(n, d) * d - n) <= d,
{
    let (q, r) = (n / d, n % d);
    lemma_fundamental_div_mod(n as int, d as int);
    assert((q + 1) * d == q * d + d) by (nonlinear_arith);
    assert(q * d == d * q) by (nonlinear_arith);
}

proof fn lemma_nearest_integer_of(n: nat, d: nat, k: nat)
    requires
        d > 0,
        -(d as int) < 2 * (k * d - n) < d,
    ensures
        nearest_integer(n, d) == k,
{
    let (q, r) = (n / d, n % d);
    lemma_fundamental_div_mod(n as int, d as int);
    assert(q * d == d * q) by (nonlinear_arith);
    let e = (k - q) as int;
    assert(k * d == q * d + e * d) by (nonlinear_arith)
        requires
            e == k - q,
    ;
    assert(0 <= e <= 1) by (nonlinear_arith)
        requires
            -(d as int) < 2 * (e * d - r) < d,
            0 <= r < d,
            d > 0,
    ;
    assert(e == 0 ==> e * d == 0) by (nonlinear_arith);
    assert(e == 1 ==> e * d == d) by (nonlinear_arith);
}

/// A number with one decimal is written with that decimal: rounding the reading
/// of `k / 10` to tenths and reading them again gives the same reading.
pub(crate) proof fn lemma_tenths_come_back(k: nat)
    requires
        nearest(k * pow2(1074), 10) < INFINITE,
    ensures
        ({
            let m = nearest(k * pow2(1074), 10);
            nearest(nearest_integer(units_of(m) * 10, pow2(1074)) * pow2(1074), 10) == m
        }),
{
    let u = pow2(1074);
    let n = k * u;
    let m = nearest(n, 10);
    let x = units_of(m);
    lemma_pow2_pos(1074);
    lemma_rounded_units(n, 10);
    let s = excess_bits(n / 10);
    let p = pow2(s);
    lemma_pow2_pos(s);
    let tenths = nearest_integer(x * 10, u);
    if s <= 1070 {
        let place = nearest_integer(n, 10 * p);
        lemma_nearest_integer_error(n, 10 * p);
        assert(x * 10 == place * (10 * p)) by (nonlinear_arith)
            requires
                x == place * p,
        ;
        lemma_pow2_adds(1070, 4);
        lemma2_to64();
        if s < 1070 {
            lemma_pow2_strictly_increases(s, 1070);
        }
        lemma_nearest_integer_of(x * 10, u, k);
    } else {
        let t = shift_of(m);
        assert(t >= 1071);
        lemma_coarse_tenths(m);
    }
}

/// Where a step of the significand is more than a tenth, tenths come back too.
proof fn lemma_coarse_tenths(m: nat)
    requires
        m < INFINITE,
        shift_of(m) >= 1071,
    ensures
        nearest(nearest_integer(units_of(m) * 10, pow2(1074)) * pow2(1074), 10) == m,
{
    let u = pow2(1074);
    let (sig, t) = (significand_of(m), shift_of(m));
    let x = units_of(m);
    let p = pow2(t);
    lemma_unpacked(m);
    lemma_step();
    lemma2_to64();
    lemma_pow2_pos(1074);
    lemma_pow2_pos(t);
    let k = nearest_integer(x * 10, u);
    let y = k * u;
    if sig == STEP {
        let g = (52 + t - 1074) as nat;
        lemma_pow2_adds(52, t);
        lemma_pow2_adds(g, 1074);
        let c = pow2(g);
        assert(x == c * u);
        assert(x * 10 == (c * 10) * u) by (nonlinear_arith)
            requires
                x == c * u,
        ;
        lemma_nearest_integer_of(x * 10, u, c * 10);
        assert(y == x * 10);
        assert(1 * 10 == 10);
        lemma_nearest_scale(x, 1, 10);
        lemma_units_round_back(m);
    } else {
        lemma_nearest_integer_error(x * 10, u);
        // a step is at least an eighth
        lemma_pow2_adds(1071, 3);
        if t > 1071 {
            lemma_pow2_strictly_increases(1071, t);
        }
        assert(8 * p >= u);
        assert(x * 10 == sig * (10 * p)) by (nonlinear_arith)
            requires
                x == sig * p,
        ;
        let d = 10 * p;
        assert(d > u);
        assert(-(d as int) < 2 * (sig * d - y) < d);
        lemma_pow2_adds(52, t);
        lemma_pow2_adds(53, t);
        assert(10 * (STEP * p) <= y < 10 * ((2 * STEP) * p)) by (nonlinear_arith)
            requires
                -(d as int) < 2 * (sig * d - y) < d,
                d == 10 * p,
                STEP + 1 <= sig <= 2 * STEP - 1,
                p > 0,
        ;
        lemma_floor_between(y, 10, 53 + t);
        lemma_nearest_integer_of(y, d, sig);
    }
}

/// A whole number of places that fits a significand is its own rounding.
proof fn lemma_dyadic_is_exact(t: nat, j: nat)
    requires
        t < 2 * STEP,
        nearest(t * pow2(j), 1) < INFINITE,
    ensures
        units_of(nearest(t * pow2(j), 1)) == t * pow2(j),
{
    let x = t * pow2(j);
    lemma_step();
    lemma_pow2_pos(j);
    lemma_rounded_units(x, 1);
    let s = excess_bits(x / 1);
    assert(x / 1 == x);
    lemma_pow2_pos(s);
    if x == 0 {
        assert(s == 0);
        lemma2_to64();
        assert(1 * pow2(0) == 1);
        assert(nearest_integer(0, 1) == 0);
        assert(0 * pow2(0) == 0);
    } else {
        if s > j {
            lemma_excess_bounds(x);
            lemma_fundamental_div_mod(x as int, pow2(s) as int);
            lemma_pow2_adds(52, s);
            lemma_pow2_adds(53, j);
            assert(x >= pow2(52) * pow2(s)) by (nonlinear_arith)
                requires
                    x / pow2(s) >= pow2(52),
                    x == pow2(s) * (x / pow2(s)) + x % pow2(s),
                    x % pow2(s) >= 0,
                    pow2(s) > 0,
            ;
            assert(x < pow2(53) * pow2(j)) by (nonlinear_arith)
                requires
                    x == t * pow2(j),
                    t < pow2(53),
                    pow2(j) > 0,
            ;
            if 52 + s > 53 + j {
                lemma_pow2_strictly_increases(53 + j, 52 + s);
            }
            assert(false);
        }
        let d = (j - s) as nat;
        lemma_pow2_adds(d, s);
        let k = t * pow2(d);
        assert(x == k * pow2(s)) by (nonlinear_arith)
            requires
                x == t * pow2(j),
                pow2(j) == pow2(d) * pow2(s),
                k == t * pow2(d),
        ;
        lemma_fundamental_div_mod_converse(x as int, pow2(s) as int, k as int, 0);
        assert(1 * pow2(s) == pow2(s));
        assert(nearest_integer(x, pow2(s)) == k);
    }
}

/// Whole numbers add up exactly as long as their sum is below 2^53, zero of
/// either sign among them.
pub proof fn small_naturals_add_up(a: nat, b: nat)
    requires
        a + b < 2 * STEP,
    ensures
        Reading::of_natural(a).sum(Reading::of_natural(b)) == Reading::of_natural(a + b),
        (Reading { bits: SIGN }).sum(Reading::of_natural(b)) == Reading::of_natural(b),
        (Reading { bits: 0 }).sum(Reading::of_natural(b)) == Reading::of_natural(b),
{
    let u = pow2(1074);
    lemma_pow2_pos(1074);
    small_naturals_read_back(a, a);
    small_naturals_read_back(b, b);
    naturals_are_finite(a);
    naturals_are_finite(b);
    assert((a + b) * u == a * u + b * u) by (nonlinear_arith);
    assert(0nat * u == 0);
    lemma_units_zero(0);
    lemma_nearest_zero();
    assert((a + b) * u == 0 ==> a + b == 0) by (nonlinear_arith)
        requires
            u > 0,
    ;
    assert(b * u == 0 ==> b == 0) by (nonlinear_arith)
        requires
            u > 0,
    ;
}

/// A division of whole numbers, cut to its integer part, is the division of
/// integers: rounding never reaches the next whole number.
pub proof fn quotients_cut_to_integers(n: nat, d: nat, max: nat)
    requires
        d > 0,
        n + d <= STEP,
        n / d <= max,
    ensures
        Reading::of_natural(n).quotient(Reading::of_natural(d)).integer_part(max) == n / d,
        Reading::of_natural(n).quotient(Reading::of_natural(d)).finite(),
        !Reading::of_natural(n).quotient(Reading::of_natural(d)).negative(),
{
    let u = pow2(1074);
    let (a, b) = (Reading::of_natural(n), Reading::of_natural(d));
    let q = a.quotient(b);
    let f = n / d;
    lemma_step();
    lemma_pow2_pos(1074);
    small_naturals_read_back(n, n);
    small_naturals_read_back(d, d);
    naturals_are_finite(n);
    naturals_are_finite(d);
    lemma_units_zero(b.magnitude());
    assert(d * u > 0) by (nonlinear_arith)
        requires
            d > 0,
            u > 0,
    ;
    lemma_nearest_scale(n * u, d, u);
    assert(!b.zero());
    assert(a.units() * u == (n * u) * u);
    assert(b.units() == d * u);
    let m = nearest(n * u, d);
    lemma_fundamental_div_mod(n as int, d as int);
    lemma_div_pos_is_pos(n as int, d as int);
    // from below
    assert((f * u) * d <= n * u) by (nonlinear_arith)
        requires
            n >= d * f,
            u > 0,
    ;
    rounding_keeps_order((f * u) * d, n * u, d);
    assert(1 * d == d);
    lemma_nearest_scale(f * u, 1, d);
    assert(f <= n) by (nonlinear_arith)
        requires
            n >= d * f,
            d >= 1,
            f >= 0,
    ;
    small_naturals_read_back(f, f);
    naturals_are_finite(f);
    // from above
    let k = choose_length(d);
    lemma_pow2_unfold(k);
    if k > 53 {
        if k > 54 {
            lemma_pow2_strictly_increases(53, (k - 1) as nat);
        }
        assert(false);
    }
    let j = (1074 - k) as nat;
    lemma_pow2_adds(k, j);
    lemma_pow2_pos(k);
    lemma_pow2_pos(j);
    let t = ((f + 1) * pow2(k) - 1) as nat;
    assert((f + 1) * pow2(k) >= 1) by (nonlinear_arith)
        requires
            f >= 0,
            pow2(k) > 0,
    ;
    assert((f + 1) * pow2(k) <= 2 * (n + d)) by (nonlinear_arith)
        requires
            pow2(k) <= 2 * d,
            d * f <= n,
            f >= 0,
    ;
    let x = t * pow2(j);
    assert(x == (f + 1) * u - pow2(j)) by (nonlinear_arith)
        requires
            x == t * pow2(j),
            t == (f + 1) * pow2(k) - 1,
            u == pow2(k) * pow2(j),
    ;
    assert(n * u <= x * d) by (nonlinear_arith)
        requires
            x == (f + 1) * u - pow2(j),
            n + 1 <= d * f + d,
            d <= pow2(k),
            u == pow2(k) * pow2(j),
            u > 0,
            pow2(j) > 0,
    ;
    rounding_keeps_order(n * u, x * d, d);
    lemma_nearest_scale(x, 1, d);
    small_naturals_read_back(f + 1, f + 1);
    naturals_are_finite(f + 1);
    rounding_keeps_order(x, (f + 1) * u, 1);
    lemma_dyadic_is_exact(t, j);
    lemma_units_monotone(nearest(f * u, 1), m);
    lemma_units_monotone(m, nearest(x, 1));
    assert(q.magnitude() == m);
    let y = q.units();
    assert(f * u <= y < (f + 1) * u);
    let r = (y - f * u) as int;
    assert((f + 1) * u == f * u + u) by (nonlinear_arith);
    lemma_fundamental_div_mod_converse(y as int, u as int, f as int, r);
}

/// The reading of the number zero.
pub proof fn nothing_is_zero()
    ensures
        Reading::of_natural(0) == (Reading { bits: 0 }),
        (Reading { bits: 0 }).value() == 0,
{
    assert(0nat * pow2(1074) == 0);
    lemma_nearest_zero();
    lemma_units_zero(0);
}

/// A quotient of whole numbers is finite, and zero only where the dividend is;
/// what does not exceed its divisor goes into it at most once.
pub proof fn naturals_divide(n: nat, d: nat)
    requires
        n < 2 * STEP,
        0 < d < 2 * STEP,
    ensures
        ({
            let q = Reading::of_natural(n).quotient(Reading::of_natural(d));
            &&& q.finite() && !q.negative()
            &&& q.zero() == (n == 0)
            &&& n == 0 ==> q == (Reading { bits: 0 })
            &&& n <= d ==> q.units() <= pow2(1074)
            &&& n == d ==> q == Reading::of_natural(1)
            &&& q.magnitude() == nearest(n * pow2(1074), d)
        }),
{
    let u = pow2(1074);
    let (a, b) = (Reading::of_natural(n), Reading::of_natural(d));
    lemma_pow2_pos(1074);
    lemma_step();
    small_naturals_read_back(n, n);
    small_naturals_read_back(d, d);
    naturals_are_finite(n);
    naturals_are_finite(d);
    lemma_units_zero(b.magnitude());
    assert(d * u > 0) by (nonlinear_arith)
        requires
            d > 0,
            u > 0,
    ;
    lemma_nearest_scale(n * u, d, u);
    let m = nearest(n * u, d);
    // from above
    assert(n * u <= (n * u) * d) by (nonlinear_arith)
        requires
            d >= 1,
            n * u >= 0,
    ;
    rounding_keeps_order(n * u, (n * u) * d, d);
    assert(1 * d == d);
    lemma_nearest_scale(n * u, 1, d);
    assert(m < INFINITE);
    if n == 0 {
        assert(0nat * u == 0);
        lemma_basic_div(0, d as int);
        lemma_excess_bits_small(0);
        lemma2_to64();
        let one = pow2(0);
        assert(d * one == d) by (nonlinear_arith)
            requires
                one == 1,
        ;
        assert(nearest_integer(0, d) == 0);
    } else {
        assert(n * u >= d) by {
            lemma_pow2_strictly_increases(53, 1074);
            assert(n * u >= u) by (nonlinear_arith)
                requires
                    n >= 1,
                    u > 0,
            ;
        }
        rounding_keeps_order(1 * d, n * u, d);
        lemma_nearest_scale(1, 1, d);
        lemma2_to64();
        assert(nearest(1, 1) == 1) by {
            lemma_excess_bits_small(1);
            assert(1nat / 1 == 1);
            assert(1 * pow2(0) == 1);
        }
    }
    if n <= d {
        assert(n * u <= (1 * u) * d) by (nonlinear_arith)
            requires
                n <= d,
                u > 0,
        ;
        rounding_keeps_order(n * u, (1 * u) * d, d);
        lemma_nearest_scale(1 * u, 1, d);
        small_naturals_read_back(1, 1);
        naturals_are_finite(1);
        lemma_units_monotone(m, nearest(1 * u, 1));
        assert(1 * u == u);
        if n == d {
            assert(d * u == (1 * u) * d) by (nonlinear_arith);
        }
    }
}

/// A whole number and a part of one add up to something finite, to zero only
/// where both are zero.
pub proof fn readings_add_up_to_more(a: Reading, b: Reading, n: nat)
    requires
        n + 1 < 2 * STEP,
        a == Reading::of_natural(n),
        b.finite() && !b.negative(),
        b.units() <= pow2(1074),
    ensures
        a.sum(b).finite() && !a.sum(b).negative(),
        a.sum(b).zero() == (a.zero() && b.zero()),
        a.zero() == (n == 0),
{
    let u = pow2(1074);
    lemma_pow2_pos(1074);
    small_naturals_read_back(n, n);
    naturals_are_finite(n);
    naturals_are_finite(n + 1);
    lemma_units_zero(a.magnitude());
    lemma_units_zero(b.magnitude());
    let t = (n * u + b.units()) as nat;
    assert(t <= (n + 1) * u) by (nonlinear_arith)
        requires
            t <= n * u + u,
    ;
    rounding_keeps_order(t, (n + 1) * u, 1);
    assert(n * u == 0 ==> n == 0) by (nonlinear_arith)
        requires
            u > 0,
    ;
    if n == 0 {
        assert(0nat * u == 0);
    }
    if t > 0 {
        rounding_keeps_order(1, t, 1);
        lemma2_to64();
        lemma_excess_bits_small(1);
        assert(1nat / 1 == 1);
        assert(1 * pow2(0) == 1);
        assert(nearest(1, 1) == 1);
    }
}

/// Whole numbers multiply exactly as long as their product is below 2^53.
pub proof fn small_naturals_multiply(a: nat, b: nat)
    requires
        a < 2 * STEP,
        b < 2 * STEP,
        a * b < 2 * STEP,
    ensures
        Reading::of_natural(a).product(Reading::of_natural(b)) == Reading::of_natural(a * b),
{
    let u = pow2(1074);
    lemma_pow2_pos(1074);
    small_naturals_read_back(a, a);
    small_naturals_read_back(b, b);
    naturals_are_finite(a);
    naturals_are_finite(b);
    assert((a * u) * (b * u) == ((a * b) * u) * u) by (nonlinear_arith);
    assert(1 * u == u);
    lemma_nearest_scale((a * b) * u, 1, u);
}

/// The bit pattern of a whole number, by the units that it stands for.
pub proof fn bits_of_a_natural(n: nat, bits: u64)
    requires
        bits < INFINITE,
        units_of(bits as nat) == n * pow2(1074),
    ensures
        Reading::of_natural(n) == (Reading { bits }),
{
    lemma_units_round_back(bits as nat);
}

/// The bit pattern of a power of two.
pub proof fn bits_of_a_power(e: nat)
    requires
        e <= 63,
    ensures
        Reading::of_natural(pow2(e)) == (Reading { bits: ((e + 1023) * STEP) as u64 }),
{
    let m = ((e + 1023) * STEP) as nat;
    lemma_step();
    lemma_pow2_adds(52, e + 1022);
    lemma_pow2_adds(e, 1074);
    assert(m < INFINITE);
    assert(m / STEP as nat == e + 1023);
    assert(shift_of(m) == e + 1022);
    assert(significand_of(m) == STEP);
    bits_of_a_natural(pow2(e), m as u64);
}

/// The bit pattern nearest to a fraction, worked out at the scale at which its
/// significand fills 53 bits.
pub proof fn bits_of_a_fraction(n: nat, d: nat, j: nat, significand: nat)
    requires
        d > 0,
        52 <= j <= 1074,
        STEP <= n * pow2(j) / d < 2 * STEP,
        nearest_integer(n * pow2(j), d) == significand,
        significand < 2 * STEP,
    ensures
        nearest(n * pow2(1074), d) == (1074 - j) * STEP + significand,
{
    let u = pow2(1074);
    let s = (1074 - j) as nat;
    lemma_pow2_adds(j, s);
    lemma_pow2_pos(s);
    lemma_pow2_pos(j);
    let x = n * pow2(j);
    let p = pow2(s);
    assert(n * u == x * p) by (nonlinear_arith)
        requires
            u == pow2(j) * p,
            x == n * pow2(j),
    ;
    // the quotient has 53 bits beyond the shift
    let q = (x * p) / d;
    lemma_step();
    lemma_fundamental_div_mod(x as int, d as int);
    lemma_pow2_adds(52, s);
    lemma_pow2_adds(53, s);
    assert(STEP * d <= x < (2 * STEP) * d) by (nonlinear_arith)
        requires
            x == d * (x / d) + x % d,
            0 <= x % d < d,
            STEP <= x / d < 2 * STEP,
    ;
    assert((STEP * p) * d <= x * p < ((2 * STEP) * p) * d) by (nonlinear_arith)
        requires
            STEP * d <= x < (2 * STEP) * d,
            p > 0,
    ;
    lemma_div_is_ordered(((STEP * p) * d) as int, (x * p) as int, d as int);
    lemma_div_multiples_vanish((STEP * p) as int, d as int);
    assert(((STEP * p) * d) == d * (STEP * p)) by (nonlinear_arith);
    lemma_div_strictly_bounded((x * p) as int, d as int, ((2 * STEP) * p) as int);
    lemma_excess_bits(q, 53 + s);
    lemma_nearest_integer_scale(x, d, p);
}

/// A whole number is written in its decimal digits, with as many zeros behind
/// the point as places are asked for.
pub proof fn whole_numbers_are_written_plainly(n: nat)
    requires
        n < 2 * STEP,
    ensures
        Reading::of_natural(n).fixed(0) == decimal(n),
        Reading::of_natural(n).fixed(1) == decimal(n) + "."@ + seq!['0'],
{
    let u = pow2(1074);
    let r = Reading::of_natural(n);
    lemma_pow2_pos(1074);
    small_naturals_read_back(n, n);
    naturals_are_finite(n);
    lemma_pow0(10);
    lemma_pow1(10);
    assert((n * u) * 1 == n * u);
    lemma_fundamental_div_mod_converse((n * u) as int, u as int, n as int, 0);
    assert(r.decimal_units(0) == n);
    assert(n / 1 == n);
    assert((n * u) * 10 == (n * 10) * u) by (nonlinear_arith);
    lemma_fundamental_div_mod_converse(((n * 10) * u) as int, u as int, (n * 10) as int, 0);
    assert(r.decimal_units(1) == n * 10);
    assert((n * 10) / 10 == n && (n * 10) % 10 == 0);
    assert(padded(0, 1) == seq!['0']) by {
        assert(padded(0, 0) == Seq::<char>::empty());
        assert(seq![].push('0') == seq!['0']);
    }
    reveal_strlit("");
    assert(""@ + decimal(n) == decimal(n));
    assert(""@ + (decimal(n) + "."@ + seq!['0']) == decimal(n) + "."@ + seq!['0']);
}

/// A multiple of a whole number divides evenly.
pub proof fn multiples_divide_evenly(k: nat, d: nat)
    requires
        0 < d < 2 * STEP,
        k * d < 2 * STEP,
        k < 2 * STEP,
    ensures
        Reading::of_natural(k * d).quotient(Reading::of_natural(d)) == Reading::of_natural(k),
{
    let u = pow2(1074);
    naturals_divide(k * d, d);
    assert((k * d) * u == (k * u) * d) by (nonlinear_arith);
    assert(1 * d == d);
    lemma_nearest_scale(k * u, 1, d);
}

/// Larger whole numbers have readings that are not smaller, and readings of small
/// ones tell them apart.
pub proof fn naturals_keep_their_order(a: nat, b: nat)
    requires
        a <= u64::MAX,
        b <= u64::MAX,
    ensures
        a <= b ==> Reading::of_natural(b).at_least(Reading::of_natural(a)),
        Reading::of_natural(a).rank() < Reading::of_natural(b).rank() ==> a < b,
        a < 2 * STEP && b < 2 * STEP ==> (Reading::of_natural(b).at_least(
            Reading::of_natural(a),
        ) == (a <= b)),
{
    let u = pow2(1074);
    lemma_pow2_pos(1074);
    naturals_are_finite(a);
    naturals_are_finite(b);
    if a <= b {
        assert(a * u <= b * u) by (nonlinear_arith)
            requires
                a <= b,
                u > 0,
        ;
        rounding_keeps_order(a * u, b * u, 1);
    }
    if b <= a {
        assert(b * u <= a * u) by (nonlinear_arith)
            requires
                b <= a,
                u > 0,
        ;
        rounding_keeps_order(b * u, a * u, 1);
    }
    if a < 2 * STEP && b < 2 * STEP {
        small_naturals_read_back(a, a);
        small_naturals_read_back(b, b);
        if Reading::of_natural(b).magnitude() == Reading::of_natural(a).magnitude() {
            assert(a == b) by (nonlinear_arith)
                requires
                    a * u == b * u,
                    u > 0,
            ;
        }
    }
}

} // verus!
