//! Single precision: binary32 values, each carried by the binary64 reading of
//! the same value.
//!
//! An operation on binary32 values rounds like the operation on their readings
//! followed by narrowing: twice 24 significant bits and two more fit the 53 of
//! a reading.
use vstd::arithmetic::div_mod::*;
use vstd::arithmetic::power2::*;
use vstd::prelude::*;

use crate::reading::{
    bit_length, lemma_div_strictly_bounded, lemma_nearest_integer_scale, lemma_nearest_zero,
    nearest, nearest_integer, round_exponents, signed, two_to, undefined, unpack, Reading,
    INFINITE, SIGN, UNDEFINED,
};

verus! {

/// How many bits of `q` lie beyond the 24 that a significand holds.
pub open spec fn surplus_bits(q: nat) -> nat
    decreases q,
{
    if q < 0x100_0000 {
        0
    } else {
        1 + surplus_bits(q / 2)
    }
}

/// The binary32 value nearest to `u` units of 2^-1074, ties to the even
/// significand, in such units and as if none were too large. The smallest is
/// 2^-149, that is 2^925 units.
pub open spec fn single_units(u: nat) -> nat {
    let step = pow2(925 + surplus_bits(u / pow2(925)));
    nearest_integer(u, step) * step
}

/// The magnitude of the binary32 value nearest to `u` units, infinite from
/// 2^128 on.
pub open spec fn single_magnitude(u: nat) -> nat {
    let r = single_units(u);
    if r < pow2(1202) {
        nearest(r, 1)
    } else {
        INFINITE as nat
    }
}

proof fn lemma_surplus_bits(q: nat, b: nat)
    requires
        b >= 1,
        pow2((b - 1) as nat) <= q < pow2(b),
    ensures
        surplus_bits(q) == if b <= 24 {
            0
        } else {
            (b - 24) as nat
        },
    decreases b,
{
    lemma2_to64();
    if b <= 24 {
        if b < 24 {
            lemma_pow2_strictly_increases(b, 24);
        }
    } else {
        if b > 25 {
            lemma_pow2_strictly_increases(24, (b - 1) as nat);
        }
        lemma_pow2_unfold(b);
        lemma_pow2_unfold((b - 1) as nat);
        lemma_surplus_bits(q / 2, (b - 1) as nat);
    }
}

/// The size of `t * 2^e`, and how many of its bits are too many.
proof fn lemma_reach(t: nat, e: nat, length: nat)
    requires
        length >= 1,
        pow2((length - 1) as nat) <= t < pow2(length),
    ensures
        pow2((length - 1 + e) as nat) <= t * pow2(e) < pow2(length + e),
        surplus_bits((t * pow2(e)) / pow2(925)) == if length + e > 949 {
            (length + e - 949) as nat
        } else {
            0
        },
{
    let n = t * pow2(e);
    let d = pow2(925);
    lemma_pow2_pos(e);
    lemma_pow2_pos(925);
    lemma_pow2_adds(length, e);
    lemma_pow2_adds((length - 1) as nat, e);
    assert(pow2((length - 1 + e) as nat) <= n < pow2(length + e)) by (nonlinear_arith)
        requires
            pow2((length - 1) as nat) <= t < pow2(length),
            n == t * pow2(e),
            pow2(e) > 0,
            pow2((length - 1 + e) as nat) == pow2((length - 1) as nat) * pow2(e),
            pow2(length + e) == pow2(length) * pow2(e),
    ;
    if length + e <= 925 {
        if length + e < 925 {
            lemma_pow2_strictly_increases(length + e, 925);
        }
        lemma_basic_div(n as int, d as int);
    } else {
        let b = (length + e - 925) as nat;
        lemma_pow2_adds(925, b);
        lemma_pow2_adds(925, (b - 1) as nat);
        lemma_div_strictly_bounded(n as int, d as int, pow2(b) as int);
        lemma_div_is_ordered((d * pow2((b - 1) as nat)) as int, n as int, d as int);
        lemma_div_multiples_vanish(pow2((b - 1) as nat) as int, d as int);
        lemma_surplus_bits(n / d, b);
    }
}

/// `t / 2^k` rounded to the nearest integer, ties to even.
fn halved(t: u64, k: u32) -> (r: u128)
    ensures
        r == nearest_integer(t as nat, pow2(k as nat)),
        r <= t + 1,
{
    proof {
        lemma2_to64();
        lemma2_to64_rest();
        lemma_pow2_pos(k as nat);
    }
    if k > 64 {
        proof {
            lemma_pow2_unfold(k as nat);
            if k > 65 {
                lemma_pow2_strictly_increases(64, (k - 1) as nat);
            }
            lemma_basic_div(t as int, pow2(k as nat) as int);
            lemma_small_mod(t as nat, pow2(k as nat));
        }
        return 0;
    }
    let d: u128 = two_to(k);
    let q: u128 = t as u128 / d;
    let r: u128 = t as u128 % d;
    proof {
        lemma_div_nonincreasing(t as int, d as int);
        if k < 64 {
            lemma_pow2_strictly_increases(k as nat, 64);
        }
    }
    if 2 * r < d || (2 * r == d && q % 2 == 0) {
        q
    } else {
        q + 1
    }
}

/// The magnitude of the binary32 value nearest to `t * 2^e` units.
fn round_single(t: u64, e: u32) -> (magnitude: u64)
    requires
        e <= 2045,
    ensures
        magnitude == single_magnitude(t as nat * pow2(e as nat)),
        magnitude <= INFINITE,
{
    let ghost u = t as nat * pow2(e as nat);
    proof {
        lemma_pow2_pos(925);
        lemma_pow2_pos(1202);
        lemma2_to64();
    }
    if t == 0 {
        proof {
            assert(u == 0);
            lemma_div_of0(pow2(925) as int);
            lemma_small_mod(0, pow2(925));
            assert(nearest_integer(0, pow2(925)) == 0);
            assert(0 * pow2(925) == 0);
            lemma_nearest_zero();
        }
        return 0;
    }
    let length: u32 = bit_length(t as u128);
    let reach: u32 = length + e;
    let s: u32 = if reach > 949 {
        reach - 949
    } else {
        0
    };
    let base: u32 = 925 + s;
    proof {
        lemma_reach(t as nat, e as nat, length as nat);
        lemma_pow2_pos(base as nat);
    }
    if e >= base {
        proof {
            let gap = (e - base) as nat;
            let n = t as nat * pow2(gap);
            lemma_pow2_adds(gap, base as nat);
            assert(u == n * pow2(base as nat)) by (nonlinear_arith)
                requires
                    u == t as nat * pow2(e as nat),
                    n == t as nat * pow2(gap),
                    pow2(e as nat) == pow2(gap) * pow2(base as nat),
            ;
            lemma_nearest_integer_scale(n, 1, pow2(base as nat));
            assert(1 * pow2(base as nat) == pow2(base as nat));
            lemma_div_basics(n as int);
            assert(n % 1 == 0);
            assert(single_units(u) == u);
        }
        if reach > 1202 {
            proof {
                if reach - 1 > 1202 {
                    lemma_pow2_strictly_increases(1202, (reach - 1) as nat);
                }
            }
            return INFINITE;
        }
        proof {
            if reach < 1202 {
                lemma_pow2_strictly_increases(reach as nat, 1202);
            }
        }
        round_exponents(t as u128, e, 0)
    } else {
        let k: u32 = base - e;
        let m: u128 = halved(t, k);
        proof {
            lemma_pow2_adds(k as nat, e as nat);
            lemma_pow2_pos(k as nat);
            lemma_pow2_pos(e as nat);
            lemma_nearest_integer_scale(t as nat, pow2(k as nat), pow2(e as nat));
            assert(single_units(u) == m as nat * pow2(base as nat));
        }
        if m == 0 {
            proof {
                assert(0 * pow2(base as nat) == 0);
                lemma_nearest_zero();
            }
            return 0;
        }
        let bits: u32 = bit_length(m);
        proof {
            lemma_reach(m as nat, base as nat, bits as nat);
        }
        if bits + base > 1202 {
            proof {
                if bits + base - 1 > 1202 {
                    lemma_pow2_strictly_increases(1202, (bits + base - 1) as nat);
                }
            }
            return INFINITE;
        }
        proof {
            if bits + base < 1202 {
                lemma_pow2_strictly_increases((bits + base) as nat, 1202);
            }
        }
        round_exponents(m, base, 0)
    }
}

impl Reading {
    /// The nearest binary32 value.
    pub open spec fn narrowed(self) -> Reading {
        if self.is_undefined() {
            undefined()
        } else if self.infinite() {
            self
        } else {
            signed(self.negative(), single_magnitude(self.units()))
        }
    }

    /// The binary32 value nearest to a natural number.
    pub open spec fn single_of(n: nat) -> Reading {
        signed(false, single_magnitude(n * pow2(1074)))
    }

    /// The nearest binary32 value.
    pub fn narrow(self) -> (r: Reading)
        ensures
            r == self.narrowed(),
    {
        let a: u64 = self.magnitude_bits();
        if a > INFINITE {
            return Reading { bits: UNDEFINED };
        }
        if a == INFINITE {
            return self;
        }
        let (m, s) = unpack(a);
        Reading::with_sign(self.bits >= SIGN, round_single(m, s))
    }

    /// The binary32 value nearest to `n`.
    pub fn single_from(n: u64) -> (r: Reading)
        ensures
            r == Reading::single_of(n as nat),
    {
        Reading::with_sign(false, round_single(n, 1074))
    }
}

} // verus!
