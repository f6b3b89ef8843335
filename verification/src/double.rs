//! Real-valued policy parameters, held as IEEE-754 double bit patterns and compared exactly.
use vstd::arithmetic::power2;
use vstd::prelude::*;

verus! {

/// A real number, held as the bit pattern of an IEEE-754 double.
#[derive(Debug, Clone, Copy, PartialEq, Eq, Structural)]
pub struct Double {
    pub bits: u64,
}

impl Double {
    /// The sign bit is set.
    pub open spec fn negative(self) -> bool {
        self.bits as int >= 0x8000_0000_0000_0000
    }

    /// The eleven exponent bits.
    pub open spec fn exponent_field(self) -> int {
        (self.bits as int / 0x10_0000_0000_0000) % 0x800
    }

    /// The fifty-two fraction bits.
    pub open spec fn fraction_field(self) -> int {
        self.bits as int % 0x10_0000_0000_0000
    }

    /// Not a number.
    pub open spec fn is_nan(self) -> bool {
        self.exponent_field() == 0x7ff && self.fraction_field() != 0
    }

    /// Positive or negative infinity.
    pub open spec fn is_infinite(self) -> bool {
        self.exponent_field() == 0x7ff && self.fraction_field() == 0
    }

    /// The integer significand of a finite number.
    pub open spec fn significand(self) -> int {
        if self.exponent_field() == 0 {
            self.fraction_field()
        } else {
            self.fraction_field() + 0x10_0000_0000_0000
        }
    }

    /// The power of two by which the significand of a finite number counts.
    pub open spec fn scale(self) -> int {
        if self.exponent_field() == 0 {
            -1074
        } else {
            self.exponent_field() - 1075
        }
    }

    /// Zero or less.
    pub open spec fn at_most_zero(self) -> bool {
        !self.is_nan() && (self.negative() || self.significand() == 0 && !self.is_infinite())
    }
}

/// The position of the highest bit of `n`.
pub open spec fn top_bit(n: nat) -> nat
    decreases n,
{
    if n <= 1 {
        0
    } else {
        1 + top_bit(n / 2)
    }
}

/// `n` shifted so that its highest bit stands at position 52: the significand of the double `n`.
pub open spec fn normalized(n: nat) -> nat {
    if top_bit(n) <= 52 {
        n * power2::pow2((52 - top_bit(n)) as nat)
    } else {
        n / power2::pow2((top_bit(n) - 52) as nat)
    }
}

/// The integer `count` is at least the double nearest to the product `p * 2^scale`.
///
/// The product is rounded to nearest, ties to even. So it rounds to at most `count` where it lies
/// below the midpoint between `count` and the next double, `(2s + 1) * 2^(k - 53)` with `k` the top
/// bit of `count` and `s` its significand, or on the midpoint with `s` even. Both sides are scaled by
/// `2^1127` to stay whole. Nothing positive rounds to zero here: a positive product is no smaller
/// than the smallest positive double.
pub open spec fn at_least_rounded(count: nat, p: nat, scale: int) -> bool {
    if p == 0 {
        true
    } else if count == 0 {
        false
    } else {
        let s = normalized(count);
        let product = p * power2::pow2((scale + 1127) as nat);
        let midpoint = (2 * s + 1) * power2::pow2((top_bit(count) + 1074) as nat);
        product < midpoint || (product == midpoint && s % 2 == 0)
    }
}

/// `count >= fraction * total`, as IEEE-754 double arithmetic decides it.
pub open spec fn reaches(count: nat, fraction: Double, total: nat) -> bool {
    if fraction.is_nan() {
        false
    } else if fraction.at_most_zero() {
        true
    } else if fraction.is_infinite() {
        false
    } else {
        at_least_rounded(count, (fraction.significand() * total) as nat, fraction.scale())
    }
}

impl Double {
    /// Is the number zero or less? Not a number is neither.
    pub fn is_at_most_zero(self) -> (yes: bool)
        ensures
            yes == self.at_most_zero(),
    {
        let exponent: u64 = (self.bits / 0x10_0000_0000_0000) % 0x800;
        let fraction: u64 = self.bits % 0x10_0000_0000_0000;
        let negative: bool = self.bits >= 0x8000_0000_0000_0000;
        if exponent == 0x7ff {
            fraction == 0 && negative
        } else {
            negative || (exponent == 0 && fraction == 0)
        }
    }
}

proof fn lemma_top_bit(n: nat, k: nat)
    requires
        power2::pow2(k) <= n < power2::pow2(k + 1),
    ensures
        top_bit(n) == k,
    decreases k,
{
    power2::lemma_pow2_unfold(k + 1);
    if k == 0 {
        power2::lemma2_to64();
    } else {
        power2::lemma_pow2_unfold(k);
        power2::lemma_pow2_pos((k - 1) as nat);
        lemma_top_bit(n / 2, (k - 1) as nat);
    }
}

/// The position of the highest bit, and two to that power.
fn highest_bit(n: u64) -> (top: (u32, u64))
    requires
        n > 0,
    ensures
        top.0 == top_bit(n as nat),
        top.0 < 64,
        top.1 == power2::pow2(top.0 as nat),
        top.1 <= n < 2 * top.1,
{
    let mut k: u32 = 0;
    let mut p: u64 = 1;
    proof {
        power2::lemma2_to64();
    }
    while p <= n / 2
        invariant
            p == power2::pow2(k as nat),
            0 < p <= n,
            k < 64,
            n > 0,
        decreases n - p,
    {
        proof {
            power2::lemma_pow2_unfold((k + 1) as nat);
            if k == 63 {
                power2::lemma2_to64_rest();
            }
        }
        p = p * 2;
        k = k + 1;
    }
    proof {
        power2::lemma_pow2_unfold((k + 1) as nat);
        lemma_top_bit(n as nat, k as nat);
    }
    (k, p)
}

proof fn lemma_times_pow2_monotone(x: nat, i: nat, d: nat)
    requires
        i <= d,
    ensures
        x * power2::pow2(i) <= x * power2::pow2(d),
{
    if i < d {
        power2::lemma_pow2_strictly_increases(i, d);
    }
    vstd::arithmetic::mul::lemma_mul_inequality(power2::pow2(i) as int, power2::pow2(d) as int, x as int);
    vstd::arithmetic::mul::lemma_mul_is_commutative(power2::pow2(i) as int, x as int);
    vstd::arithmetic::mul::lemma_mul_is_commutative(power2::pow2(d) as int, x as int);
}

/// `x * 2^d`, where it stays below `limit`.
fn scaled_up(x: u128, d: u32, limit: u128) -> (scaled: Option<u128>)
    requires
        limit <= 0x1_0000_0000_0000_0000_0000_0000_0000,
    ensures
        match scaled {
            Some(v) => v == x * power2::pow2(d as nat) && v < limit,
            None => x * power2::pow2(d as nat) >= limit,
        },
{
    let mut i: u32 = 0;
    let mut v: u128 = x;
    proof {
        power2::lemma2_to64();
    }
    while i < d
        invariant_except_break
            i <= d,
            v == x * power2::pow2(i as nat),
        invariant
            limit <= 0x1_0000_0000_0000_0000_0000_0000_0000,
        ensures
            v == x * power2::pow2(d as nat) || (v >= limit && x * power2::pow2(d as nat) >= limit),
        decreases d - i,
    {
        if v >= limit {
            proof {
                lemma_times_pow2_monotone(x as nat, i as nat, d as nat);
            }
            break;
        }
        proof {
            power2::lemma_pow2_unfold((i + 1) as nat);
            vstd::arithmetic::mul::lemma_mul_is_associative(x as int, power2::pow2(i as nat) as int, 2);
            vstd::arithmetic::mul::lemma_mul_is_commutative(power2::pow2(i as nat) as int, 2);
        }
        v = v * 2;
        i = i + 1;
    }
    if v < limit {
        Some(v)
    } else {
        None
    }
}

/// Comparing `p * 2^a` with `q * 2^b` when `a = b + d`.
proof fn lemma_cross(p: nat, q: nat, a: nat, b: nat, d: nat)
    requires
        a == b + d,
    ensures
        p * power2::pow2(a) < q * power2::pow2(b) <==> p * power2::pow2(d) < q,
        p * power2::pow2(a) == q * power2::pow2(b) <==> p * power2::pow2(d) == q,
{
    power2::lemma_pow2_adds(d, b);
    power2::lemma_pow2_pos(b);
    let c = power2::pow2(b) as int;
    let x = p * power2::pow2(d);
    vstd::arithmetic::mul::lemma_mul_is_associative(p as int, power2::pow2(d) as int, c);
    assert(p * power2::pow2(a) == x * c);
    assert(x * c < q * c <==> x < q) by (nonlinear_arith)
        requires
            c > 0,
    ;
    assert(x * c == q * c <==> x == q) by (nonlinear_arith)
        requires
            c > 0,
    ;
}

/// Is `count >= fraction * total` in IEEE-754 double arithmetic? Decided in integers.
pub fn reaches_fraction(count: u64, fraction: Double, total: u64) -> (yes: bool)
    requires
        count <= 0x20_0000_0000_0000,
        0 < total <= 0x20_0000_0000_0000,
    ensures
        yes == reaches(count as nat, fraction, total as nat),
{
    let exponent: u64 = (fraction.bits / 0x10_0000_0000_0000) % 0x800;
    let digits: u64 = fraction.bits % 0x10_0000_0000_0000;
    if exponent == 0x7ff {
        return digits == 0 && fraction.is_at_most_zero();
    }
    if fraction.is_at_most_zero() {
        return true;
    }
    let significand: u64 = if exponent == 0 {
        digits
    } else {
        digits + 0x10_0000_0000_0000
    };
    let scale: i64 = if exponent == 0 {
        -1074
    } else {
        exponent as i64 - 1075
    };
    assert(0 < significand * total <= 0x20_0000_0000_0000 * 0x20_0000_0000_0000) by (nonlinear_arith)
        requires
            0 < significand <= 0x20_0000_0000_0000,
            0 < total <= 0x20_0000_0000_0000,
    ;
    let p: u128 = significand as u128 * total as u128;
    if count == 0 {
        return false;
    }
    let (k, s) = normalize(count);
    let q: u128 = 2 * s as u128 + 1;
    let ghost a = (scale + 1127) as nat;
    let ghost b = (k + 1074) as nat;
    let d: i64 = scale + 53 - k as i64;
    if d >= 0 {
        proof {
            lemma_cross(p as nat, q as nat, a, b, d as nat);
        }
        match scaled_up(p, d as u32, 0x1000_0000_0000_0000) {
            Some(v) => v < q || (v == q && s % 2 == 0),
            None => false,
        }
    } else {
        proof {
            lemma_cross(q as nat, p as nat, b, a, (-d) as nat);
        }
        match scaled_up(q, (-d) as u32, 0x1_0000_0000_0000_0000_0000_0000_0000) {
            Some(v) => p < v || (p == v && s % 2 == 0),
            None => true,
        }
    }
}

/// The double that equals the whole number `n`, where `n` has at most 53 bits.
pub open spec fn whole(n: int) -> Double {
    let size = (if n < 0 {
        -n
    } else {
        n
    }) as nat;
    Double {
        bits: if n == 0 {
            0
        } else {
            ((if n < 0 {
                0x8000_0000_0000_0000int
            } else {
                0
            }) + (top_bit(size) + 1023) * 0x10_0000_0000_0000 + (normalized(size) - 0x10_0000_0000_0000)) as u64
        },
    }
}

/// The significand of a count, without its top bit's place lost.
fn normalize(count: u64) -> (parts: (u64, u64))
    requires
        0 < count <= 0x20_0000_0000_0000,
    ensures
        parts.0 == top_bit(count as nat),
        parts.0 <= 53,
        parts.1 == normalized(count as nat),
        0x10_0000_0000_0000 <= parts.1 < 0x20_0000_0000_0000,
{
    let (k, power) = highest_bit(count);
    proof {
        power2::lemma2_to64();
        power2::lemma2_to64_rest();
        if k > 53 {
            power2::lemma_pow2_strictly_increases(53, k as nat);
        }
    }
    if k == 53 {
        (53, 0x10_0000_0000_0000)
    } else {
        let step: u64 = 0x10_0000_0000_0000 / power;
        proof {
            power2::lemma_pow2_adds(k as nat, (52 - k) as nat);
            power2::lemma_pow2_pos(k as nat);
            let left = power2::pow2((52 - k) as nat);
            assert(step == left) by {
                vstd::arithmetic::div_mod::lemma_div_multiples_vanish(left as int, power as int);
                vstd::arithmetic::mul::lemma_mul_is_commutative(power as int, left as int);
            }
            assert(0x10_0000_0000_0000 <= count * step < 2 * 0x10_0000_0000_0000) by (nonlinear_arith)
                requires
                    power <= count < 2 * power,
                    power * step == 0x10_0000_0000_0000,
                    step >= 1,
            ;
        }
        (k as u64, count * step)
    }
}

impl Double {
    /// The double that equals `n`.
    pub fn of_whole(n: i64) -> (d: Double)
        requires
            -0x20_0000_0000_0000 <= n <= 0x20_0000_0000_0000,
        ensures
            d == whole(n as int),
    {
        if n == 0 {
            return Double { bits: 0 };
        }
        let size: u64 = if n < 0 {
            (-n) as u64
        } else {
            n as u64
        };
        let (k, s) = normalize(size);
        let sign: u64 = if n < 0 {
            0x8000_0000_0000_0000
        } else {
            0
        };
        Double { bits: sign + (k + 1023) * 0x10_0000_0000_0000 + (s - 0x10_0000_0000_0000) }
    }
}

impl Double {
    /// Where a number stands among the doubles: their order is that of sign and magnitude.
    pub open spec fn place(self) -> int {
        if self.negative() {
            0x8000_0000_0000_0000 - self.bits
        } else {
            self.bits as int
        }
    }

    /// `self < other` in IEEE-754: not a number is never less, and the two zeros are equal.
    pub open spec fn less(self, other: Double) -> bool {
        !self.is_nan() && !other.is_nan() && self.place() < other.place()
    }

    /// Is the number less than `other`?
    pub fn is_less(self, other: Double) -> (yes: bool)
        ensures
            yes == self.less(other),
    {
        if self.is_not_a_number() || other.is_not_a_number() {
            return false;
        }
        let a: u64 = self.bits % 0x8000_0000_0000_0000;
        let b: u64 = other.bits % 0x8000_0000_0000_0000;
        let an: bool = self.bits >= 0x8000_0000_0000_0000;
        let bn: bool = other.bits >= 0x8000_0000_0000_0000;
        if an {
            if bn {
                b < a
            } else {
                a > 0 || b > 0
            }
        } else if bn {
            false
        } else {
            a < b
        }
    }

    /// Is this not a number?
    fn is_not_a_number(self) -> (yes: bool)
        ensures
            yes == self.is_nan(),
    {
        (self.bits / 0x10_0000_0000_0000) % 0x800 == 0x7ff && self.bits % 0x10_0000_0000_0000 != 0
    }
}

// ----- what the numbers mean -----

proof fn lemma_top_bit_bounds(n: nat)
    requires
        n > 0,
    ensures
        power2::pow2(top_bit(n)) <= n < power2::pow2(top_bit(n) + 1),
    decreases n,
{
    power2::lemma2_to64();
    if n > 1 {
        lemma_top_bit_bounds(n / 2);
        power2::lemma_pow2_unfold(top_bit(n));
        power2::lemma_pow2_unfold(top_bit(n) + 1);
    }
}

/// The top bit of a count below `2^53` stands at most at place 52, and shifting the count up to there
/// loses nothing of it.
proof fn lemma_normalized(n: nat)
    requires
        0 < n < 0x20_0000_0000_0000,
    ensures
        top_bit(n) <= 52,
        normalized(n) * power2::pow2(top_bit(n)) == n * 0x10_0000_0000_0000,
        0x10_0000_0000_0000 <= normalized(n) < 0x20_0000_0000_0000,
{
    let k = top_bit(n);
    lemma_top_bit_bounds(n);
    power2::lemma2_to64();
    power2::lemma2_to64_rest();
    if k > 52 {
        if k > 53 {
            power2::lemma_pow2_strictly_increases(53, k);
        }
        assert(false);
    }
    let up = power2::pow2((52 - k) as nat);
    let power = power2::pow2(k);
    power2::lemma_pow2_adds((52 - k) as nat, k);
    power2::lemma_pow2_unfold(k + 1);
    power2::lemma_pow2_pos((52 - k) as nat);
    assert((n * up) * power == n * (up * power)) by (nonlinear_arith);
    assert(0x10_0000_0000_0000 <= n * up < 0x20_0000_0000_0000) by (nonlinear_arith)
        requires
            power <= n < 2 * power,
            up * power == 0x10_0000_0000_0000,
            up > 0,
    ;
}

/// Where the midpoint above a count lies: above the count and below the next.
proof fn lemma_midpoint(count: nat)
    requires
        0 < count < 0x20_0000_0000_0000,
    ensures
        ({
            let midpoint = (2 * normalized(count) + 1) * power2::pow2((top_bit(count) + 1074) as nat);
            count * power2::pow2(1127) < midpoint < (count + 1) * power2::pow2(1127)
        }),
{
    let k = top_bit(count);
    let s = normalized(count);
    lemma_normalized(count);
    let unit = power2::pow2(1127);
    let half = power2::pow2((k + 1074) as nat);
    let power = power2::pow2(k);
    let deep = power2::pow2(1074);
    power2::lemma_pow2_adds(k, 1074);
    power2::lemma_pow2_adds(53, 1074);
    power2::lemma2_to64();
    power2::lemma2_to64_rest();
    power2::lemma_pow2_pos((k + 1074) as nat);
    assert(half == power * deep);
    assert(unit == 0x20_0000_0000_0000 * deep);
    assert((2 * s + 1) * half == count * unit + half) by (nonlinear_arith)
        requires
            half == power * deep,
            unit == 0x20_0000_0000_0000 * deep,
            s * power == count * 0x10_0000_0000_0000,
    ;
    power2::lemma_pow2_strictly_increases((k + 1074) as nat, 1127);
    assert((count + 1) * unit == count * unit + unit) by (nonlinear_arith);
}

/// A fraction of a total is reached as the exact numbers have it, to within a single vote: where the exact
/// product of the fraction and the total is at most the count, the count reaches it, and where the product
/// is at least one more than the count, it does not. The fraction is `significand * 2^scale`; both sides
/// are scaled by `2^1127` to stay whole.
pub proof fn law_fraction_is_reached_as_exactly(count: nat, fraction: Double, total: nat)
    requires
        count < 0x20_0000_0000_0000,
        !fraction.is_nan(),
        !fraction.is_infinite(),
        !fraction.negative(),
    ensures
        ({
            let product = (fraction.significand() * total) * power2::pow2((fraction.scale() + 1127) as nat);
            let unit = power2::pow2(1127);
            &&& product <= count * unit ==> reaches(count, fraction, total)
            &&& product >= (count + 1) * unit ==> !reaches(count, fraction, total)
        }),
{
    let p = (fraction.significand() * total) as nat;
    let scale = fraction.scale();
    let power = power2::pow2((scale + 1127) as nat);
    let unit = power2::pow2(1127);
    assert(fraction.significand() * total >= 0) by (nonlinear_arith)
        requires
            fraction.significand() >= 0,
    ;
    power2::lemma_pow2_pos((scale + 1127) as nat);
    power2::lemma_pow2_pos(1127);
    if p == 0 {
        assert(0 * power == 0);
        assert((count + 1) * unit > 0) by (nonlinear_arith)
            requires
                unit > 0,
        ;
    } else {
        assert(p * power > 0) by (nonlinear_arith)
            requires
                p > 0,
                power > 0,
        ;
        if fraction.significand() == 0 {
            assert(fraction.significand() * total == 0) by (nonlinear_arith)
                requires
                    fraction.significand() == 0,
            ;
        }
        if count == 0 {
            assert(0 * unit == 0);
        } else {
            lemma_midpoint(count);
        }
    }
}

/// More support never hurts: a count that reaches the fraction is reached by every larger one too.
pub proof fn law_more_support_never_hurts(count: nat, more: nat, fraction: Double, total: nat)
    requires
        count <= more < 0x20_0000_0000_0000,
        reaches(count, fraction, total),
    ensures
        reaches(more, fraction, total),
{
    if count < more && !fraction.at_most_zero() {
        let product = (fraction.significand() * total) * power2::pow2((fraction.scale() + 1127) as nat);
        let unit = power2::pow2(1127);
        law_fraction_is_reached_as_exactly(count, fraction, total);
        law_fraction_is_reached_as_exactly(more, fraction, total);
        power2::lemma_pow2_pos(1127);
        assert((count + 1) * unit <= more * unit) by (nonlinear_arith)
            requires
                count + 1 <= more,
                unit > 0,
        ;
    }
}

/// The parts of a double that is put together from a sign, an exponent and a fraction.
proof fn lemma_fields(d: Double, sign: int, exponent: int, fraction: int)
    requires
        sign == 0 || sign == 1,
        0 <= exponent < 0x800,
        0 <= fraction < 0x10_0000_0000_0000,
        d.bits == sign * 0x8000_0000_0000_0000 + exponent * 0x10_0000_0000_0000 + fraction,
    ensures
        d.negative() <==> sign == 1,
        d.exponent_field() == exponent,
        d.fraction_field() == fraction,
{
    let high = sign * 0x800 + exponent;
    assert(d.bits == high * 0x10_0000_0000_0000 + fraction);
    vstd::arithmetic::div_mod::lemma_fundamental_div_mod_converse(
        d.bits as int,
        0x10_0000_0000_0000,
        high,
        fraction,
    );
    vstd::arithmetic::div_mod::lemma_fundamental_div_mod_converse(high, 0x800, sign, exponent);
}

proof fn lemma_whole(n: int)
    requires
        -0x20_0000_0000_0000 < n < 0x20_0000_0000_0000,
        n != 0,
    ensures
        ({
            let size = (if n < 0 {
                -n
            } else {
                n
            }) as nat;
            let d = whole(n);
            &&& d.negative() <==> n < 0
            &&& d.exponent_field() == top_bit(size) + 1023
            &&& d.significand() == normalized(size)
            &&& d.scale() == top_bit(size) - 52
            &&& top_bit(size) <= 52
            &&& d.bits == (if n < 0 {
                0x8000_0000_0000_0000int
            } else {
                0
            }) + (top_bit(size) + 1023) * 0x10_0000_0000_0000 + (normalized(size) - 0x10_0000_0000_0000)
        }),
{
    let size = (if n < 0 {
        -n
    } else {
        n
    }) as nat;
    lemma_normalized(size);
    let d = whole(n);
    let sign = if n < 0 {
        1int
    } else {
        0
    };
    lemma_fields(d, sign, (top_bit(size) + 1023) as int, normalized(size) - 0x10_0000_0000_0000);
}

/// The double of a whole number is that number: its sign is that of the number, and its significand times
/// its power of two is the number's size. Both sides are scaled by `2^52` to stay whole.
pub proof fn law_whole_is_exact(n: int)
    requires
        -0x20_0000_0000_0000 < n < 0x20_0000_0000_0000,
    ensures
        ({
            let d = whole(n);
            let size = if n < 0 {
                -n
            } else {
                n
            };
            &&& !d.is_nan()
            &&& !d.is_infinite()
            &&& d.negative() <==> n < 0
            &&& n == 0 ==> d.bits == 0
            &&& n != 0 ==> d.significand() * power2::pow2((d.scale() + 52) as nat) == size * 0x10_0000_0000_0000
        }),
{
    if n != 0 {
        lemma_whole(n);
        let size = (if n < 0 {
            -n
        } else {
            n
        }) as nat;
        lemma_normalized(size);
    }
}

/// Larger counts have larger patterns.
proof fn lemma_patterns_grow(a: nat, b: nat)
    requires
        0 < a < b < 0x20_0000_0000_0000,
    ensures
        top_bit(a) * 0x10_0000_0000_0000 + normalized(a) < top_bit(b) * 0x10_0000_0000_0000 + normalized(b),
{
    lemma_normalized(a);
    lemma_normalized(b);
    lemma_top_bit_bounds(a);
    lemma_top_bit_bounds(b);
    let (j, k) = (top_bit(a), top_bit(b));
    if j > k {
        if k + 1 < j {
            power2::lemma_pow2_strictly_increases(k + 1, j);
        }
        assert(false);
    } else if j == k {
        let power = power2::pow2(k);
        power2::lemma_pow2_pos(k);
        assert(normalized(a) < normalized(b)) by (nonlinear_arith)
            requires
                normalized(a) * power == a * 0x10_0000_0000_0000,
                normalized(b) * power == b * 0x10_0000_0000_0000,
                a < b,
                power > 0,
        ;
    }
}

/// Doubles of whole numbers compare as the numbers do.
pub proof fn law_whole_numbers_compare_as_numbers(a: int, b: int)
    requires
        -0x20_0000_0000_0000 < a < 0x20_0000_0000_0000,
        -0x20_0000_0000_0000 < b < 0x20_0000_0000_0000,
    ensures
        whole(a).less(whole(b)) <==> a < b,
        whole(a).at_most_zero() <==> a <= 0,
{
    law_whole_is_exact(a);
    law_whole_is_exact(b);
    let x = (if a < 0 {
        -a
    } else {
        a
    }) as nat;
    let y = (if b < 0 {
        -b
    } else {
        b
    }) as nat;
    if a != 0 {
        lemma_whole(a);
        lemma_normalized(x);
    }
    if b != 0 {
        lemma_whole(b);
        lemma_normalized(y);
    }
    if 0 < x < y {
        lemma_patterns_grow(x, y);
    }
    if 0 < y < x {
        lemma_patterns_grow(y, x);
    }
}

/// Less is a strict order: of two numbers at most one is less, what is less than something less than a third
/// is less than the third, what is not a number is never less, and below zero is less than above.
pub proof fn law_less_is_an_order(a: Double, b: Double, c: Double)
    ensures
        a.less(b) ==> !b.less(a),
        a.less(b) && b.less(c) ==> a.less(c),
        a.is_nan() || b.is_nan() ==> !a.less(b),
        !a.is_nan() && !b.is_nan() && a.negative() && !b.negative() && b.significand() > 0 ==> a.less(b),
{
}

} // verus!
