//! `binary64` arithmetic on bit patterns.
//!
//! Each operation gives the value of the format nearest to the exact result, the even one
//! of two that are equally near, an infinity where that lies beyond the greatest value,
//! and where there is no result a quiet value that is not a number.

use vstd::arithmetic::power2::*;
use vstd::prelude::*;

use crate::ieee::{Double, Single};
use crate::rounding::{round, round_ratio, scaled, Scaled, TWO_53};

verus! {

/// The bit pattern of infinity.
pub const INFINITY: u64 = 0x7ff0_0000_0000_0000;

/// The bit pattern of the sign.
pub const SIGN: u64 = 0x8000_0000_0000_0000;

/// A bit pattern that stands for no number.
pub const NOT_A_NUMBER: u64 = 0x7ff8_0000_0000_0000;

/// The bits below the sign that stand for `mag` least positive values. From the second
/// range of values on, twice the value is one more in the exponent field.
pub open spec fn bits_of(mag: nat) -> nat
    decreases mag,
{
    if mag < TWO_53 {
        mag
    } else {
        bits_of(mag / 2) + 0x10_0000_0000_0000
    }
}

/// The value of that sign and magnitude: an infinity from the magnitude on that lies
/// beyond the greatest value.
pub open spec fn encoded(negative: bool, mag: nat) -> Double {
    let low = if mag >= pow2(2098) {
        INFINITY as nat
    } else {
        bits_of(mag)
    };
    Double {
        bits: (low + if negative {
            SIGN as nat
        } else {
            0
        }) as u64,
    }
}

/// A whole number of least positive values, rounded.
pub open spec fn signed(v: int) -> Double {
    if v < 0 {
        encoded(true, crate::rounding::rounded((-v) as nat))
    } else {
        encoded(false, crate::rounding::rounded(v as nat))
    }
}

/// No number.
pub open spec fn no_number() -> Double {
    Double { bits: NOT_A_NUMBER }
}

/// `d` with the other sign.
pub open spec fn negated(d: Double) -> Double {
    Double {
        bits: if d.negative() {
            (d.bits - SIGN) as u64
        } else {
            (d.bits + SIGN) as u64
        },
    }
}

/// `a + b`.
pub open spec fn plus(a: Double, b: Double) -> Double {
    if a.is_nan() || b.is_nan() {
        no_number()
    } else if a.is_infinite() {
        if b.is_infinite() && a != b {
            no_number()
        } else {
            a
        }
    } else if b.is_infinite() {
        b
    } else if a.value() + b.value() == 0 && a.negative() && b.negative() {
        a
    } else {
        signed(a.value() + b.value())
    }
}

/// `a - b`.
pub open spec fn minus(a: Double, b: Double) -> Double {
    plus(a, negated(b))
}

/// `a * b`.
pub open spec fn times(a: Double, b: Double) -> Double {
    let negative = a.negative() != b.negative();
    if a.is_nan() || b.is_nan() {
        no_number()
    } else if a.is_infinite() || b.is_infinite() {
        if a.value() == 0 || b.value() == 0 {
            no_number()
        } else {
            encoded(negative, pow2(2098))
        }
    } else {
        encoded(
            negative,
            crate::rounding::rounded_ratio(a.mag() * b.mag(), crate::rounding::one()),
        )
    }
}

/// `a / b`.
pub open spec fn over(a: Double, b: Double) -> Double {
    let negative = a.negative() != b.negative();
    if a.is_nan() || b.is_nan() || (a.is_infinite() && b.is_infinite()) || (a.value() == 0
        && b.value() == 0) {
        no_number()
    } else if a.is_infinite() || b.value() == 0 {
        encoded(negative, pow2(2098))
    } else if b.is_infinite() {
        encoded(negative, 0)
    } else {
        encoded(
            negative,
            crate::rounding::rounded_ratio(a.mag() * crate::rounding::one(), b.mag()),
        )
    }
}

/// The square root of `a`.
pub open spec fn root(a: Double) -> Double {
    if a.is_nan() || a.value() < 0 {
        no_number()
    } else if a.is_infinite() || a.value() == 0 {
        a
    } else {
        encoded(false, crate::rounding::rounded_root(a.mag() * crate::rounding::one()))
    }
}

/// A whole number, as `binary64`.
pub open spec fn whole(n: nat) -> Double {
    encoded(false, crate::rounding::rounded(n * crate::rounding::one()))
}

/// A `binary32` value, as `binary64`.
pub open spec fn widened(a: Single) -> Double {
    if a.is_nan() {
        no_number()
    } else if a.is_infinite() {
        encoded(a.negative(), pow2(2098))
    } else {
        encoded(a.negative(), a.mag() * pow2(925))
    }
}

/// `a`, or zero where it is not above it.
pub open spec fn at_least_zero(a: Double) -> Double {
    let zero = Double { bits: 0 };
    if zero.lt(a) {
        a
    } else {
        zero
    }
}

/// The bits of a scaled number.
proof fn lemma_bits_scaled(n: nat, k: nat)
    requires
        0x10_0000_0000_0000 <= n < TWO_53,
    ensures
        bits_of(n * pow2(k)) == n + k * 0x10_0000_0000_0000,
    decreases k,
{
    lemma2_to64();
    if k == 0 {
        assert(n * 1 == n);
    } else {
        let i = (k - 1) as nat;
        lemma_bits_scaled(n, i);
        lemma_pow2_adds(1, i);
        lemma_pow2_pos(i);
        assert(n * pow2(k) == 2 * (n * pow2(i)) && n * pow2(i) >= n) by (nonlinear_arith)
            requires
                pow2(k) == 2 * pow2(i),
                pow2(i) >= 1,
        ;
        assert(n * pow2(k) / 2 == n * pow2(i));
    }
}

/// The value of that sign and magnitude.
fn encode(negative: bool, x: Scaled) -> (r: Double)
    requires
        x.n <= TWO_53,
        x.shift <= 10_000,
    ensures
        r == encoded(negative, x.value()),
{
    let sign: u64 = if negative {
        SIGN
    } else {
        0
    };
    let mut n: u64 = x.n;
    let mut shift: u32 = x.shift;
    proof {
        lemma2_to64();
        lemma2_to64_rest();
        lemma_pow2_pos(shift as nat);
        lemma_pow2_adds(52, 2046);
        lemma_pow2_pos(2046);
        assert(0 * pow2(shift as nat) == 0);
    }
    if n == 0 {
        return Double { bits: sign };
    }
    if n as u128 == TWO_53 {
        proof {
            lemma_pow2_adds(1, shift as nat);
            assert(0x10_0000_0000_0000 * (2 * pow2(shift as nat)) == TWO_53 * pow2(shift as nat))
                by (nonlinear_arith);
        }
        n = 0x10_0000_0000_0000;
        shift = shift + 1;
    }
    while shift > 0 && n < 0x10_0000_0000_0000
        invariant
            0 < n < TWO_53,
            shift <= 10_001,
            n as nat * pow2(shift as nat) == x.value(),
        decreases shift,
    {
        proof {
            let i = (shift - 1) as nat;
            lemma_pow2_adds(1, i);
            lemma2_to64();
            assert(n as nat * pow2(shift as nat) == (2 * n as nat) * pow2(i)) by (nonlinear_arith)
                requires
                    pow2(shift as nat) == 2 * pow2(i),
            ;
        }
        n = 2 * n;
        shift = shift - 1;
    }
    let ghost m = n as nat * pow2(shift as nat);
    if n < 0x10_0000_0000_0000 {
        assert(m == n) by {
            assert(shift == 0);
            lemma2_to64();
            assert(n as nat * 1 == n);
        }
        assert(pow2(2098) >= 0x10_0000_0000_0000) by (nonlinear_arith)
            requires
                pow2(2098) == pow2(52) * pow2(2046),
                pow2(52) == 0x10_0000_0000_0000,
                pow2(2046) >= 1,
        ;
        Double { bits: sign + n }
    } else if shift >= 2046 {
        proof {
            if shift > 2046 {
                lemma_pow2_strictly_increases(2046, shift as nat);
            }
            assert(m >= pow2(2098)) by (nonlinear_arith)
                requires
                    m == n as nat * pow2(shift as nat),
                    n >= 0x10_0000_0000_0000,
                    pow2(shift as nat) >= pow2(2046),
                    pow2(2098) == 0x10_0000_0000_0000 * pow2(2046),
            ;
        }
        Double { bits: sign + INFINITY }
    } else {
        proof {
            lemma_bits_scaled(n as nat, shift as nat);
            lemma_pow2_adds(1, shift as nat);
            if shift < 2045 {
                lemma_pow2_strictly_increases((shift + 1) as nat, 2046);
            }
            assert(m < pow2(2098)) by (nonlinear_arith)
                requires
                    m == n as nat * pow2(shift as nat),
                    n < TWO_53,
                    2 * pow2(shift as nat) <= pow2(2046),
                    pow2(shift as nat) > 0,
                    pow2(2098) == 0x10_0000_0000_0000 * pow2(2046),
            ;
        }
        Double { bits: sign + n + shift as u64 * 0x10_0000_0000_0000 }
    }
}

/// `n * 2^k`.
fn shift_left(n: u64, k: u32) -> (r: u128)
    requires
        n <= TWO_53,
        k <= 64,
    ensures
        r == n as nat * pow2(k as nat),
        r <= n * 0x1_0000_0000_0000_0000,
{
    let mut r: u128 = n as u128;
    let mut i: u32 = 0;
    proof {
        lemma2_to64();
        assert(n as nat * 1 == n);
    }
    while i < k
        invariant
            i <= k <= 64,
            n <= TWO_53,
            r == n as nat * pow2(i as nat),
            r <= n * 0x1_0000_0000_0000_0000,
        decreases k - i,
    {
        proof {
            lemma_pow2_adds(1, i as nat);
            lemma2_to64();
            lemma2_to64_rest();
            assert(n as nat * pow2((i + 1) as nat) == 2 * (n as nat * pow2(i as nat)))
                by (nonlinear_arith)
                requires
                    pow2((i + 1) as nat) == 2 * pow2(i as nat),
            ;
            if i + 1 < 64 {
                lemma_pow2_strictly_increases((i + 1) as nat, 64);
            }
            assert(n as nat * pow2((i + 1) as nat) <= n * 0x1_0000_0000_0000_0000)
                by (nonlinear_arith)
                requires
                    pow2((i + 1) as nat) <= 0x1_0000_0000_0000_0000,
            ;
        }
        r = 2 * r;
        i = i + 1;
    }
    r
}

/// A number so small beside another that adding it or taking it away changes nothing.
proof fn lemma_absorbed(n: nat, s: nat, e: nat)
    requires
        0x10_0000_0000_0000 <= n < TWO_53,
        s >= 2,
        e < pow2((s - 2) as nat),
    ensures
        crate::rounding::rounded(n * pow2(s) + e) == n * pow2(s),
        e <= n * pow2(s),
        crate::rounding::rounded((n * pow2(s) - e) as nat) == n * pow2(s),
{
    let u = pow2(s);
    let v = pow2((s - 1) as nat);
    let w = pow2((s - 2) as nat);
    lemma2_to64();
    lemma_pow2_adds(1, (s - 1) as nat);
    lemma_pow2_adds(1, (s - 2) as nat);
    assert(u == 2 * v && v == 2 * w && w > e);
    assert(n * u >= u) by (nonlinear_arith)
        requires
            n >= 1,
            u > 0,
    ;
    let x = n * u + e;
    vstd::arithmetic::div_mod::lemma_fundamental_div_mod_converse(
        x as int,
        u as int,
        n as int,
        e as int,
    );
    crate::rounding::lemma_last_place_shifted(x, s);
    assert(crate::rounding::last_place(n) == 1);
    assert(u * 1 == u);
    if e > 0 {
        let y = (n * u - e) as nat;
        if n > 0x10_0000_0000_0000 {
            assert(y == (n - 1) * u + (u - e)) by (nonlinear_arith)
                requires
                    y == n * u - e,
            ;
            vstd::arithmetic::div_mod::lemma_fundamental_div_mod_converse(
                y as int,
                u as int,
                n - 1,
                u - e,
            );
            crate::rounding::lemma_last_place_shifted(y, s);
            assert(crate::rounding::last_place((n - 1) as nat) == 1);
        } else {
            assert(y == (2 * n - 1) * v + (v - e)) by (nonlinear_arith)
                requires
                    y == n * u - e,
                    u == 2 * v,
            ;
            vstd::arithmetic::div_mod::lemma_fundamental_div_mod_converse(
                y as int,
                v as int,
                2 * n - 1,
                v - e,
            );
            crate::rounding::lemma_last_place_shifted(y, (s - 1) as nat);
            assert(crate::rounding::last_place((2 * n - 1) as nat) == 1);
            assert(v * 1 == v);
            assert((2 * n) * v == n * u) by (nonlinear_arith)
                requires
                    u == 2 * v,
            ;
        }
    }
}

/// Scaling once more adds the shifts.
proof fn lemma_scaled_again(x: Scaled, shift: nat)
    ensures
        x.n as nat * pow2(x.shift as nat + shift) == x.value() * pow2(shift),
{
    lemma_pow2_adds(x.shift as nat, shift);
    let a = pow2(x.shift as nat);
    let b = pow2(shift);
    assert(x.n as nat * (a * b) == (x.n as nat * a) * b) by (nonlinear_arith);
}

/// Whether a scaled number is one that stands in a bit pattern.
pub open spec fn packed(x: Scaled) -> bool {
    &&& x.n < TWO_53
    &&& x.shift <= 2046
    &&& x.shift > 0 ==> x.n >= 0x10_0000_0000_0000
}

/// The sum or the difference of two numbers, the first of which has the greater shift.
/// For a difference it must not be the smaller number.
fn combine(x: Scaled, y: Scaled, subtract: bool) -> (r: Scaled)
    requires
        packed(x),
        packed(y),
        x.shift >= y.shift,
        subtract ==> x.value() >= y.value(),
    ensures
        r.value() == crate::rounding::rounded(
            if subtract {
                (x.value() - y.value()) as nat
            } else {
                x.value() + y.value()
            },
        ),
        r.n <= TWO_53,
        r.shift <= 2200,
{
    let d: u32 = x.shift - y.shift;
    let ghost b = pow2(y.shift as nat);
    proof {
        lemma_pow2_adds(y.shift as nat, d as nat);
        lemma_pow2_pos(y.shift as nat);
    }
    if d <= 64 {
        let big: u128 = shift_left(x.n, d);
        let ghost wide = x.n as nat * pow2(d as nat);
        assert(wide * b == x.value()) by {
            let c = pow2(d as nat);
            assert(x.n as nat * (b * c) == (x.n as nat * c) * b) by (nonlinear_arith);
        }
        assert(subtract ==> big >= y.n) by (nonlinear_arith)
            requires
                subtract ==> wide * b >= y.n as nat * b,
                b > 0,
                big == wide,
        ;
        let m: u128 = if subtract {
            big - y.n as u128
        } else {
            big + y.n as u128
        };
        let p: Scaled = round(m);
        proof {
            assert((wide + y.n) * b == wide * b + y.n as nat * b) by (nonlinear_arith);
            assert((wide - y.n) * b == wide * b - y.n as nat * b) by (nonlinear_arith);
            crate::rounding::lemma_rounded_scaled(m as nat, y.shift as nat);
            lemma_scaled_again(p, y.shift as nat);
        }
        Scaled { n: p.n, shift: p.shift + y.shift }
    } else {
        proof {
            let s = x.shift as nat;
            lemma2_to64();
            lemma2_to64_rest();
            lemma_pow2_adds(53, y.shift as nat);
            if 53 + y.shift < s - 2 {
                lemma_pow2_strictly_increases((53 + y.shift) as nat, (s - 2) as nat);
            }
            assert(y.value() < pow2((53 + y.shift) as nat)) by (nonlinear_arith)
                requires
                    y.value() == y.n as nat * b,
                    y.n < TWO_53,
                    b > 0,
                    pow2((53 + y.shift) as nat) == TWO_53 * b,
            ;
            lemma_absorbed(x.n as nat, s, y.value());
        }
        x
    }
}

impl Double {
    /// Whether this is not a number.
    fn not_a_number(self) -> (r: bool)
        ensures
            r == self.is_nan(),
    {
        self.bits % SIGN > INFINITY
    }

    /// Whether this is an infinity.
    fn infinite(self) -> (r: bool)
        ensures
            r == self.is_infinite(),
    {
        self.bits % SIGN == INFINITY
    }

    /// The value with the other sign.
    fn negate(self) -> (r: Double)
        ensures
            r == negated(self),
    {
        Double {
            bits: if self.bits >= SIGN {
                self.bits - SIGN
            } else {
                self.bits + SIGN
            },
        }
    }

    /// `self + other`.
    pub fn sum(self, other: Double) -> (r: Double)
        ensures
            r == plus(self, other),
    {
        if self.not_a_number() || other.not_a_number() {
            return Double { bits: NOT_A_NUMBER };
        }
        if self.infinite() {
            return if other.infinite() && self.bits != other.bits {
                Double { bits: NOT_A_NUMBER }
            } else {
                self
            };
        }
        if other.infinite() {
            return other;
        }
        self.finite_sum(other)
    }

    /// The value without its sign.
    fn unsigned(self) -> (r: Double)
        ensures
            !r.negative(),
            r.is_nan() == self.is_nan(),
            r.mag() == self.mag(),
    {
        let r = Double { bits: self.bits % SIGN };
        assert(r.exp() == self.exp() && r.man() == self.man());
        r
    }

    /// `self + other` of finite numbers.
    fn finite_sum(self, other: Double) -> (r: Double)
        requires
            !self.is_nan() && !self.is_infinite(),
            !other.is_nan() && !other.is_infinite(),
        ensures
            r == plus(self, other),
    {
        let x: Scaled = scaled(self);
        let y: Scaled = scaled(other);
        let minus_x: bool = self.bits >= SIGN;
        let minus_y: bool = other.bits >= SIGN;
        proof {
            lemma_zero(x);
            lemma_zero(y);
            if x.value() >= y.value() {
                lemma_greater_shift(x, y);
            }
            if y.value() >= x.value() {
                lemma_greater_shift(y, x);
            }
        }
        if minus_x == minus_y {
            if minus_x && x.n == 0 && y.n == 0 {
                return self;
            }
            let m: Scaled = if x.shift >= y.shift {
                combine(x, y, false)
            } else {
                combine(y, x, false)
            };
            encode(minus_x, m)
        } else {
            let a: Double = self.unsigned();
            let b: Double = other.unsigned();
            if a.less(b) {
                encode(minus_y, combine(y, x, true))
            } else if b.less(a) {
                encode(minus_x, combine(x, y, true))
            } else {
                proof {
                    crate::rounding::lemma_small_is_exact(0);
                    lemma_pow2_pos(2098);
                }
                Double { bits: 0 }
            }
        }
    }
}

/// A scaled number is zero where its leading part is.
proof fn lemma_zero(x: Scaled)
    ensures
        x.value() == 0 <==> x.n == 0,
{
    lemma_pow2_pos(x.shift as nat);
    assert(x.n as nat * pow2(x.shift as nat) == 0 <==> x.n == 0) by (nonlinear_arith)
        requires
            pow2(x.shift as nat) > 0,
    ;
}

/// The greater of two numbers that stand in bit patterns has no smaller shift.
proof fn lemma_greater_shift(x: Scaled, y: Scaled)
    requires
        packed(x),
        packed(y),
        x.value() >= y.value(),
    ensures
        x.shift >= y.shift,
{
    if y.shift > x.shift {
        let a = pow2(x.shift as nat);
        let b = pow2(y.shift as nat);
        lemma_pow2_pos(x.shift as nat);
        lemma_pow2_adds(1, x.shift as nat);
        lemma2_to64();
        if y.shift > x.shift + 1 {
            lemma_pow2_strictly_increases((x.shift + 1) as nat, y.shift as nat);
        }
        assert(x.n as nat * a < y.n as nat * b) by (nonlinear_arith)
            requires
                x.n < TWO_53,
                y.n >= 0x10_0000_0000_0000,
                b >= 2 * a,
                a > 0,
        ;
    }
}

/// A ratio whose parts share a power of two.
proof fn lemma_shared_shift(num: nat, den: nat, k: nat)
    requires
        den > 0,
    ensures
        crate::rounding::rounded_ratio(num * pow2(k), den * pow2(k))
            == crate::rounding::rounded_ratio(num, den),
{
    let c = pow2(k);
    lemma_pow2_pos(k);
    assert(num * c == c * num && den * c == c * den) by (nonlinear_arith);
    vstd::arithmetic::div_mod::lemma_div_multiples_vanish_quotient(c as int, num as int, den as int);
    crate::rounding::lemma_last_place_pos(num / den);
    crate::rounding::lemma_common_factor(num, den, crate::rounding::last_place(num / den), c);
}

/// A ratio below one half is rounded to zero.
pub proof fn lemma_rounds_to_zero(num: nat, den: nat)
    requires
        2 * num < den,
    ensures
        crate::rounding::rounded_ratio(num, den) == 0,
{
    vstd::arithmetic::div_mod::lemma_small_mod(num, den);
    vstd::arithmetic::div_mod::lemma_basic_div(num as int, den as int);
    assert(den * 1 == den);
}

/// The rounded product of two magnitudes.
fn product_of(x: Scaled, y: Scaled) -> (r: Scaled)
    requires
        packed(x),
        packed(y),
    ensures
        r.value() == crate::rounding::rounded_ratio(
            x.value() * y.value(),
            crate::rounding::one(),
        ),
        r.n <= TWO_53,
        r.shift <= 4200,
{
    let ghost a = pow2(x.shift as nat);
    let ghost b = pow2(y.shift as nat);
    assert(x.n * y.n < TWO_53 * TWO_53) by (nonlinear_arith)
        requires
            x.n < TWO_53,
            y.n < TWO_53,
    ;
    let p: u128 = x.n as u128 * y.n as u128;
    let shift: u32 = x.shift + y.shift;
    let ghost n = p as nat;
    proof {
        lemma_pow2_adds(x.shift as nat, y.shift as nat);
        assert((x.n as nat * a) * (y.n as nat * b) == n * (a * b)) by (nonlinear_arith)
            requires
                n == x.n as nat * y.n as nat,
        ;
        lemma_pow2_pos(1074);
    }
    if shift >= 1074 {
        let q: Scaled = round(p);
        proof {
            let k = (shift - 1074) as nat;
            let c = pow2(k);
            let o = crate::rounding::one();
            lemma_pow2_adds(1074, k);
            assert(n * (o * c) == o * (n * c)) by (nonlinear_arith);
            crate::rounding::lemma_whole_ratio(n * c, o);
            crate::rounding::lemma_rounded_scaled(n, k);
            lemma_scaled_again(q, k);
        }
        Scaled { n: q.n, shift: q.shift + (shift - 1074) }
    } else {
        let k: u32 = 1074 - shift;
        proof {
            lemma_pow2_adds(k as nat, shift as nat);
            lemma_pow2_pos(k as nat);
            lemma_shared_shift(n, pow2(k as nat), shift as nat);
        }
        if k <= 64 {
            let d: u128 = shift_left(1, k);
            assert(1 * pow2(k as nat) == pow2(k as nat));
            round_ratio(p, d)
        } else if k <= 118 {
            let d: u128 = shift_left(1, k - 64);
            proof {
                lemma_pow2_adds(64, (k - 64) as nat);
                lemma2_to64_rest();
                assert(1 * pow2((k - 64) as nat) == pow2((k - 64) as nat));
                lemma_pow2_adds(64, 54);
                if k < 118 {
                    lemma_pow2_strictly_increases(k as nat, 118);
                }
            }
            round_ratio(p, d * 0x1_0000_0000_0000_0000)
        } else {
            proof {
                lemma2_to64_rest();
                lemma_pow2_adds(64, 54);
                lemma_pow2_strictly_increases(118, k as nat);
                lemma_rounds_to_zero(n, pow2(k as nat));
                assert(0 * pow2(0) == 0);
            }
            Scaled { n: 0, shift: 0 }
        }
    }
}

impl Double {
    /// `self - other`.
    pub fn difference(self, other: Double) -> (r: Double)
        ensures
            r == minus(self, other),
    {
        self.sum(other.negate())
    }

    /// `self * other`.
    pub fn product(self, other: Double) -> (r: Double)
        ensures
            r == times(self, other),
    {
        if self.not_a_number() || other.not_a_number() {
            return Double { bits: NOT_A_NUMBER };
        }
        let x: Scaled = scaled(self);
        let y: Scaled = scaled(other);
        let negative: bool = (self.bits >= SIGN) != (other.bits >= SIGN);
        proof {
            lemma_zero(x);
            lemma_zero(y);
        }
        if self.infinite() || other.infinite() {
            return if x.n == 0 || y.n == 0 {
                Double { bits: NOT_A_NUMBER }
            } else {
                infinity(negative)
            };
        }
        encode(negative, product_of(x, y))
    }
}

/// An infinity.
fn infinity(negative: bool) -> (r: Double)
    ensures
        r == encoded(negative, pow2(2098)),
{
    Double {
        bits: if negative {
            INFINITY + SIGN
        } else {
            INFINITY
        },
    }
}

/// A positive number as a leading part of 53 bits and a shift. The number is multiplied
/// by one, in least positive values, so that the shift stays above zero.
fn normalized(x: Scaled) -> (r: Scaled)
    requires
        packed(x),
        x.n > 0,
    ensures
        r.value() == x.value() * crate::rounding::one(),
        0x10_0000_0000_0000 <= r.n < TWO_53,
        1000 <= r.shift <= 3120,
{
    let mut n: u64 = x.n;
    let mut shift: u32 = x.shift + 1074;
    proof {
        lemma_scaled_again(x, 1074);
        lemma2_to64();
        assert(n as nat * 1 == n);
    }
    let mut i: u32 = 0;
    while n < 0x10_0000_0000_0000
        invariant
            n as nat * pow2(shift as nat) == x.value() * crate::rounding::one(),
            0 < n < TWO_53,
            n >= pow2(i as nat),
            i <= 52,
            i + shift == x.shift + 1074,
            x.shift <= 2046,
        decreases TWO_53 - n,
    {
        proof {
            let k = (shift - 1) as nat;
            lemma_pow2_adds(1, k);
            lemma_pow2_adds(1, i as nat);
            lemma2_to64();
            lemma2_to64_rest();
            assert(n as nat * pow2(shift as nat) == (2 * n as nat) * pow2(k)) by (nonlinear_arith)
                requires
                    pow2(shift as nat) == 2 * pow2(k),
            ;
        }
        n = 2 * n;
        shift = shift - 1;
        i = i + 1;
    }
    Scaled { n, shift }
}

/// A number with one more bit, which says whether anything lies below it, rounded and
/// scaled.
fn round_sticky(a: u128, sticky: bool, t: u32) -> (r: Scaled)
    requires
        2 * TWO_53 <= a < 0x10_0000_0000_0000_0000_0000_0000_0000,
        t <= 4000,
    ensures
        2 * r.value() == crate::rounding::rounded(
            2 * a as nat + if sticky {
                1nat
            } else {
                0nat
            },
        ) * pow2(t as nat),
        r.n <= TWO_53,
        r.shift <= 4100,
{
    let p: Scaled = round(
        2 * a + if sticky {
            1
        } else {
            0
        },
    );
    proof {
        let k = (p.shift + t - 1) as nat;
        lemma_scaled_again(p, t as nat);
        lemma_pow2_adds(1, k);
        lemma2_to64();
        assert(2 * (p.n as nat * pow2(k)) == p.n as nat * (2 * pow2(k))) by (nonlinear_arith);
    }
    Scaled { n: p.n, shift: p.shift + t - 1 }
}

/// The rounded quotient of two magnitudes.
fn quotient_of(x: Scaled, y: Scaled) -> (r: Scaled)
    requires
        packed(x),
        packed(y),
        x.n > 0,
        y.n > 0,
    ensures
        r.value() == crate::rounding::rounded_ratio(
            x.value() * crate::rounding::one(),
            y.value(),
        ),
        r.n <= TWO_53,
        r.shift <= 4200,
{
    let m: Scaled = normalized(x);
    let ghost n = m.n as nat;
    let ghost d = y.n as nat;
    let ghost c = pow2(y.shift as nat);
    if m.shift >= y.shift + 60 {
        let t: u32 = m.shift - y.shift - 60;
        let wide: u128 = shift_left(m.n, 60);
        let a: u128 = wide / y.n as u128;
        let rest: u128 = wide % y.n as u128;
        proof {
            let w = wide as nat;
            let tt = pow2(t as nat);
            lemma2_to64_rest();
            lemma_pow2_adds(60, t as nat);
            lemma_pow2_adds((60 + t) as nat, y.shift as nat);
            lemma_pow2_pos(t as nat);
            vstd::arithmetic::div_mod::lemma_fundamental_div_mod(w as int, d as int);
            assert(n * ((pow2(60) * tt) * c) == ((n * pow2(60)) * tt) * c) by (nonlinear_arith);
            lemma_shared_shift(w * tt, d, y.shift as nat);
            assert(w * tt == (d * tt) * a as nat + rest as nat * tt) by (nonlinear_arith)
                requires
                    w == d * a as nat + rest as nat,
            ;
            assert(rest as nat * tt < d * tt && (rest > 0 <==> rest as nat * tt > 0))
                by (nonlinear_arith)
                requires
                    rest < d,
                    tt > 0,
            ;
            assert(2 * TWO_53 <= a <= w) by (nonlinear_arith)
                requires
                    w == d * a as nat + rest as nat,
                    w >= 0x10_0000_0000_0000 * 0x1000_0000_0000_0000,
                    0 < d < TWO_53,
                    rest < d,
            ;
            assert(w < TWO_53 * 0x1000_0000_0000_0000);
            crate::rounding::lemma_sticky_ratio(
                w * tt,
                d,
                a as nat,
                rest as nat * tt,
                t as nat,
            );
        }
        round_sticky(a, rest > 0, t)
    } else if m.shift >= y.shift {
        let k: u32 = m.shift - y.shift;
        proof {
            lemma_pow2_adds(k as nat, y.shift as nat);
            assert(n * (pow2(k as nat) * c) == (n * pow2(k as nat)) * c) by (nonlinear_arith);
            lemma_shared_shift(n * pow2(k as nat), d, y.shift as nat);
        }
        let wide: u128 = shift_left(m.n, k);
        round_ratio(wide, y.n as u128)
    } else {
        let k: u32 = y.shift - m.shift;
        proof {
            let e = pow2(k as nat);
            lemma_pow2_adds(k as nat, m.shift as nat);
            lemma_pow2_pos(k as nat);
            assert(d * (e * pow2(m.shift as nat)) == (d * e) * pow2(m.shift as nat)) by (nonlinear_arith);
            assert(d * e >= e) by (nonlinear_arith)
                requires
                    d > 0,
            ;
            lemma_shared_shift(n, d * e, m.shift as nat);
        }
        if k <= 64 {
            round_ratio(m.n as u128, shift_left(y.n, k))
        } else {
            proof {
                lemma2_to64_rest();
                lemma_pow2_strictly_increases(64, k as nat);
                lemma_rounds_to_zero(n, d * pow2(k as nat));
                assert(0 * pow2(0) == 0);
            }
            Scaled { n: 0, shift: 0 }
        }
    }
}

impl Double {
    /// `self / other`.
    pub fn quotient(self, other: Double) -> (r: Double)
        ensures
            r == over(self, other),
    {
        let x: Scaled = scaled(self);
        let y: Scaled = scaled(other);
        let negative: bool = (self.bits >= SIGN) != (other.bits >= SIGN);
        proof {
            lemma_zero(x);
            lemma_zero(y);
            lemma_pow2_pos(1074);
        }
        if self.not_a_number() || other.not_a_number() || (self.infinite() && other.infinite())
            || (x.n == 0 && y.n == 0) {
            return Double { bits: NOT_A_NUMBER };
        }
        if self.infinite() || y.n == 0 {
            return infinity(negative);
        }
        if other.infinite() {
            assert(0 * pow2(0) == 0);
            return encode(negative, Scaled { n: 0, shift: 0 });
        }
        if x.n == 0 {
            assert(0 * crate::rounding::one() == 0);
            proof {
                lemma_rounds_to_zero(0, y.value());
            }
            assert(0 * pow2(0) == 0);
            return encode(negative, Scaled { n: 0, shift: 0 });
        }
        encode(negative, quotient_of(x, y))
    }
}

/// Every number has a whole part of its square root.
pub proof fn lemma_root_exists(x: nat) -> (s: nat)
    ensures
        crate::rounding::is_whole_root(s, x),
    decreases x,
{
    if x == 0 {
        let s: nat = 0;
        assert(s * s <= 0 < (s + 1) * (s + 1)) by (nonlinear_arith)
            requires
                s == 0,
        ;
        s
    } else {
        let s = lemma_root_exists((x - 1) as nat);
        if x < (s + 1) * (s + 1) {
            assert(s * s <= x);
            s
        } else {
            let next = s + 1;
            assert(next * next < (next + 1) * (next + 1)) by (nonlinear_arith);
            next
        }
    }
}

/// The whole part of a square root.
fn root_of(n: u128) -> (r: u128)
    requires
        n < 0x1_0000_0000_0000_0000_0000_0000_0000,
    ensures
        crate::rounding::is_whole_root(r as nat, n as nat),
        r < 0x100_0000_0000_0000,
{
    let mut low: u128 = 0;
    let mut high: u128 = 0x100_0000_0000_0000;
    while high - low > 1
        invariant
            low < high <= 0x100_0000_0000_0000,
            low * low <= n < high * high,
        decreases high - low,
    {
        let middle: u128 = low + (high - low) / 2;
        assert(middle * middle <= 0x100_0000_0000_0000 * 0x100_0000_0000_0000) by (nonlinear_arith)
            requires
                middle <= 0x100_0000_0000_0000,
        ;
        if middle * middle <= n {
            low = middle;
        } else {
            high = middle;
        }
    }
    low
}

/// The rounded square root of a magnitude.
fn square_root_of(x: Scaled) -> (r: Scaled)
    requires
        packed(x),
        x.n > 0,
    ensures
        r.value() == crate::rounding::rounded_root(x.value() * crate::rounding::one()),
        r.n <= TWO_53,
        r.shift <= 4200,
{
    let m: Scaled = normalized(x);
    let k: u32 = if m.shift % 2 == 0 {
        58
    } else {
        59
    };
    let t: u32 = (m.shift - k) / 2;
    let n: u128 = shift_left(m.n, k);
    proof {
        lemma2_to64_rest();
        assert(pow2(k as nat) == 0x400_0000_0000_0000 || pow2(k as nat) == 0x800_0000_0000_0000);
        assert(0x10_0000_0000_0000 * 0x400_0000_0000_0000 <= n < TWO_53 * 0x800_0000_0000_0000)
            by (nonlinear_arith)
            requires
                n == m.n as nat * pow2(k as nat),
                0x10_0000_0000_0000 <= m.n < TWO_53,
                0x400_0000_0000_0000 <= pow2(k as nat) <= 0x800_0000_0000_0000,
        ;
    }
    let a: u128 = root_of(n);
    let exact: bool = a * a == n;
    proof {
        let tt = pow2(t as nat);
        assert(a >= 2 * TWO_53) by (nonlinear_arith)
            requires
                n < (a + 1) * (a + 1),
                n >= 0x10_0000_0000_0000 * 0x400_0000_0000_0000,
        ;
        lemma_pow2_adds(t as nat, t as nat);
        lemma_pow2_adds(k as nat, (t + t) as nat);
        assert(m.n as nat * (pow2(k as nat) * (tt * tt)) == (m.n as nat * pow2(k as nat)) * (tt
            * tt)) by (nonlinear_arith);
        let whole = lemma_root_exists(n as nat * (tt * tt));
        crate::rounding::lemma_sticky_root(n as nat, a as nat, whole, t as nat);
    }
    round_sticky(a, !exact, t)
}

impl Double {
    /// The square root.
    pub fn square_root(self) -> (r: Double)
        ensures
            r == root(self),
    {
        let x: Scaled = scaled(self);
        proof {
            lemma_zero(x);
        }
        if self.not_a_number() || (self.bits >= SIGN && x.n != 0) {
            return Double { bits: NOT_A_NUMBER };
        }
        if self.infinite() || x.n == 0 {
            return self;
        }
        encode(false, square_root_of(x))
    }

    /// A whole number.
    pub fn from_whole(n: u64) -> (r: Double)
        ensures
            r == whole(n as nat),
    {
        let p: Scaled = round(n as u128);
        proof {
            crate::rounding::lemma_rounded_scaled(n as nat, 1074);
            lemma_scaled_again(p, 1074);
        }
        encode(false, Scaled { n: p.n, shift: p.shift + 1074 })
    }

    /// The value, or zero where it is not above it.
    pub fn or_zero(self) -> (r: Double)
        ensures
            r == at_least_zero(self),
    {
        let zero = Double { bits: 0 };
        if zero.less(self) {
            self
        } else {
            zero
        }
    }
}

impl Single {
    /// The same value, as `binary64`.
    pub fn widen(self) -> (r: Double)
        ensures
            r == widened(self),
    {
        let low: u32 = self.bits % 0x8000_0000;
        let negative: bool = self.bits >= 0x8000_0000;
        let exp: u32 = low / 0x80_0000;
        let man: u32 = low % 0x80_0000;
        assert(exp == self.exp() && man == self.man());
        if exp == 0xff {
            return if man == 0 {
                infinity(negative)
            } else {
                Double { bits: NOT_A_NUMBER }
            };
        }
        let x: Scaled = if exp == 0 {
            Scaled { n: man as u64, shift: 0 }
        } else {
            Scaled { n: 0x80_0000 + man as u64, shift: exp - 1 }
        };
        proof {
            lemma2_to64();
            assert(x.n as nat * 1 == x.n);
            assert(x.value() == self.mag());
            lemma_scaled_again(x, 925);
        }
        encode(negative, Scaled { n: x.n, shift: x.shift + 925 })
    }
}

/// The fields of the bits that stand for a magnitude give it back.
proof fn lemma_bits_fields(mag: nat)
    requires
        crate::rounding::rounded(mag) == mag,
    ensures
        crate::ieee::magnitude(
            bits_of(mag) / 0x10_0000_0000_0000,
            bits_of(mag) % 0x10_0000_0000_0000,
            52,
        ) == mag,
        mag >= 0x10_0000_0000_0000 ==> bits_of(mag) >= 0x10_0000_0000_0000,
    decreases mag,
{
    lemma2_to64();
    lemma2_to64_rest();
    let p: nat = 0x10_0000_0000_0000;
    if mag < TWO_53 {
        if mag >= p {
            assert((pow2(52) + mag % p) * 1 == mag);
        }
    } else {
        let u = crate::rounding::last_place(mag / 2);
        let half = mag / 2;
        assert(mag == 2 * half) by {
            let q = mag / (2 * u);
            let d = 1 * crate::rounding::last_place(mag);
            assert(d == 2 * u);
            assert(q * (2 * u) == 2 * (q * u)) by (nonlinear_arith);
            assert((q + 1) * (2 * u) == 2 * ((q + 1) * u)) by (nonlinear_arith);
        }
        crate::rounding::lemma_rounded_double(half);
        lemma_bits_fields(half);
        let b = bits_of(half);
        let e = b / p;
        let m = b % p;
        assert(bits_of(mag) == b + p);
        assert(bits_of(mag) / p == e + 1 && bits_of(mag) % p == m);
        lemma_pow2_adds(1, (e - 1) as nat);
        assert((pow2(52) + m) * pow2(e) == 2 * ((pow2(52) + m) * pow2((e - 1) as nat)))
            by (nonlinear_arith)
            requires
                pow2(e) == 2 * pow2((e - 1) as nat),
        ;
    }
}

/// A magnitude that needs no rounding, and does not lie beyond the greatest value, is that
/// of the value that stands for it.
pub proof fn lemma_encoded(negative: bool, mag: nat)
    requires
        crate::rounding::rounded(mag) == mag,
        mag < pow2(2098),
    ensures
        encoded(negative, mag).is_finite(),
        encoded(negative, mag).mag() == mag,
        encoded(negative, mag).negative() == negative,
        bits_of(mag) < INFINITY,
{
    let p: nat = 0x10_0000_0000_0000;
    let b = bits_of(mag);
    let e = b / p;
    let m = b % p;
    lemma_bits_fields(mag);
    lemma2_to64();
    lemma2_to64_rest();
    if e >= 0x7ff {
        lemma_pow2_adds(52, 2046);
        if e - 1 > 2046 {
            lemma_pow2_strictly_increases(2046, (e - 1) as nat);
        }
        assert((pow2(52) + m) * pow2((e - 1) as nat) >= pow2(52) * pow2(2046)) by (nonlinear_arith)
            requires
                pow2((e - 1) as nat) >= pow2(2046),
        ;
    }
    assert(b < 0x7ff * p);
    let d = encoded(negative, mag);
    assert(d.exp() == e && d.man() == m);
}

/// A finite value is the one that stands for its sign and its magnitude.
pub proof fn lemma_reads_back(d: Double)
    requires
        d.is_finite(),
    ensures
        encoded(d.negative(), d.mag()) == d,
{
    let p: nat = 0x10_0000_0000_0000;
    lemma2_to64();
    lemma2_to64_rest();
    lemma_pow2_adds(52, 2046);
    crate::ieee::lemma_magnitude_order(d.exp(), d.man(), 0x7ff, 0, 52);
    if d.exp() > 0 {
        lemma_bits_scaled(p + d.man(), (d.exp() - 1) as nat);
    }
    assert(bits_of(d.mag()) == d.exp() * p + d.man());
}

/// Whether a value is finite, and no greater than `2^j` least positive values.
pub open spec fn within(d: Double, j: nat) -> bool {
    d.is_finite() && d.mag() <= pow2(j)
}

proof fn lemma_finite_bound(j: nat)
    requires
        j <= 2000,
    ensures
        pow2(j) < pow2(2098),
{
    lemma_pow2_strictly_increases(j, 2098);
}

/// A value that came of rounding within a bound.
proof fn lemma_encoded_within(negative: bool, mag: nat, j: nat)
    requires
        crate::rounding::rounded(mag) == mag,
        mag <= pow2(j),
        j <= 2000,
    ensures
        within(encoded(negative, mag), j),
        encoded(negative, mag).mag() == mag,
        encoded(negative, mag).negative() == negative,
{
    lemma_finite_bound(j);
    lemma_encoded(negative, mag);
}

/// A rounded whole number of least positive values.
proof fn lemma_signed(v: int, j: nat)
    requires
        -pow2(j) <= v <= pow2(j),
        j <= 2000,
    ensures
        within(signed(v), j),
        v >= 0 ==> signed(v).value() == crate::rounding::rounded(v as nat),
        v <= 0 ==> signed(v).value() == -crate::rounding::rounded((-v) as nat),
{
    let m: nat = if v < 0 {
        (-v) as nat
    } else {
        v as nat
    };
    crate::rounding::lemma_rounded_is_exact(m);
    crate::rounding::lemma_rounded_at_most(m, j);
    lemma_encoded_within(v < 0, crate::rounding::rounded(m), j);
    crate::rounding::lemma_small_is_exact(0);
}

/// The sign of a rounded whole number of least positive values.
pub proof fn lemma_signed_sign(v: int, j: nat)
    requires
        -pow2(j) <= v <= pow2(j),
        j <= 2000,
    ensures
        signed(v).negative() == (v < 0),
{
    let m: nat = if v < 0 {
        (-v) as nat
    } else {
        v as nat
    };
    crate::rounding::lemma_rounded_is_exact(m);
    crate::rounding::lemma_rounded_at_most(m, j);
    lemma_encoded_within(v < 0, crate::rounding::rounded(m), j);
}

/// A sum is no greater than twice the bound of its terms, and is the rounded sum of
/// their values.
pub proof fn lemma_plus(a: Double, b: Double, j: nat)
    requires
        within(a, j),
        within(b, j),
        j < 2000,
    ensures
        within(plus(a, b), j + 1),
        plus(a, b).value() == rounded_value(a.value() + b.value()),
{
    let v = a.value() + b.value();
    lemma_pow2_adds(1, j);
    lemma2_to64();
    lemma_signed(v, j + 1);
    crate::rounding::lemma_small_is_exact(0);
}

/// A whole number of least positive values, rounded.
pub open spec fn rounded_value(v: int) -> int {
    if v < 0 {
        -crate::rounding::rounded((-v) as nat)
    } else {
        crate::rounding::rounded(v as nat) as int
    }
}

/// Adding a term that is small beside a bound does not pass it: where it would, the term
/// is lost in rounding.
pub proof fn lemma_plus_small(a: Double, b: Double, i: nat, j: nat)
    requires
        within(a, j),
        within(b, i),
        i + 55 <= j,
        j < 2000,
    ensures
        within(plus(a, b), j),
{
    let v = a.value() + b.value();
    let m: nat = if v < 0 {
        (-v) as nat
    } else {
        v as nat
    };
    lemma_pow2_strictly_increases(i, (j - 54) as nat);
    lemma_pow2_strictly_increases(i, j);
    lemma_plus(a, b, j);
    if m <= pow2(j) {
        lemma_signed(v, j);
    } else {
        let e = (m - pow2(j)) as nat;
        lemma2_to64_rest();
        lemma_pow2_adds(52, (j - 52) as nat);
        lemma_absorbed(0x10_0000_0000_0000, (j - 52) as nat, e);
    }
}

/// A difference, likewise.
pub proof fn lemma_minus(a: Double, b: Double, j: nat)
    requires
        within(a, j),
        within(b, j),
        j < 2000,
    ensures
        within(minus(a, b), j + 1),
        minus(a, b).value() == rounded_value(a.value() - b.value()),
{
    let c = negated(b);
    assert(c.exp() == b.exp() && c.man() == b.man());
    assert(c.value() == -b.value());
    lemma_plus(a, c, j);
}

/// A product within the product of two bounds: the rounded product of the magnitudes.
pub proof fn lemma_times(a: Double, b: Double, i: nat, j: nat)
    requires
        within(a, i),
        within(b, j),
        1074 <= i + j <= 3000,
    ensures
        within(times(a, b), (i + j - 1074) as nat),
        times(a, b).negative() == (a.negative() != b.negative()),
        times(a, b).mag() == crate::rounding::rounded_ratio(
            a.mag() * b.mag(),
            crate::rounding::one(),
        ),
{
    let o = crate::rounding::one();
    let k = (i + j - 1074) as nat;
    let num = a.mag() * b.mag();
    lemma_pow2_pos(1074);
    lemma_pow2_adds(i, j);
    lemma_pow2_adds(1074, k);
    assert(num <= pow2(i) * pow2(j)) by (nonlinear_arith)
        requires
            num == a.mag() * b.mag(),
            a.mag() <= pow2(i),
            b.mag() <= pow2(j),
    ;
    crate::rounding::lemma_ratio_at_most(num, o, k);
    crate::rounding::lemma_rounded_ratio_is_exact(num, o);
    lemma_encoded_within(
        a.negative() != b.negative(),
        crate::rounding::rounded_ratio(num, o),
        k,
    );
}

/// A quotient by one or more is no greater than the dividend's bound, and is the rounded
/// quotient of the magnitudes.
pub proof fn lemma_over(a: Double, b: Double, j: nat)
    requires
        within(a, j),
        b.is_finite(),
        !b.negative(),
        b.mag() >= crate::rounding::one(),
        j <= 2000,
    ensures
        within(over(a, b), j),
        over(a, b).mag() == crate::rounding::rounded_ratio(
            a.mag() * crate::rounding::one(),
            b.mag(),
        ),
        over(a, b).negative() == a.negative(),
{
    let o = crate::rounding::one();
    let num = a.mag() * o;
    lemma_pow2_pos(1074);
    assert(num <= b.mag() * pow2(j)) by (nonlinear_arith)
        requires
            num == a.mag() * o,
            a.mag() <= pow2(j),
            o <= b.mag(),
            o >= 0,
    ;
    crate::rounding::lemma_ratio_at_most(num, b.mag(), j);
    crate::rounding::lemma_rounded_ratio_is_exact(num, b.mag());
    lemma_encoded_within(a.negative(), crate::rounding::rounded_ratio(num, b.mag()), j);
}

/// A square root within the root of a bound.
pub proof fn lemma_root(a: Double, j: nat)
    requires
        a.is_finite(),
        a.value() >= 0,
        a.mag() * crate::rounding::one() <= pow2(j) * pow2(j),
        j <= 2000,
    ensures
        root(a).is_finite(),
        root(a).value() >= 0,
        a.value() == 0 ==> root(a).value() == 0,
        a.value() > 0 ==> root(a).value() == crate::rounding::rounded_root(
            a.mag() * crate::rounding::one(),
        ),
{
    if a.value() != 0 {
        let x = a.mag() * crate::rounding::one();
        let s = lemma_root_exists(x);
        crate::rounding::lemma_root_at_most(x, s, j);
        crate::rounding::lemma_rounded_root_is_exact(x);
        lemma_encoded_within(false, crate::rounding::rounded_root(x), j);
    }
}

/// A whole number is at least one where it is not zero, and keeps its bound.
pub proof fn lemma_whole(n: nat, j: nat)
    requires
        n <= pow2(j),
        j <= 900,
    ensures
        within(whole(n), 1074 + j),
        !whole(n).negative(),
        whole(n).mag() == crate::rounding::rounded(n * crate::rounding::one()),
        n > 0 ==> whole(n).mag() >= crate::rounding::one(),
        n == 0 ==> whole(n).mag() == 0,
{
    let o = crate::rounding::one();
    lemma_pow2_pos(1074);
    lemma_pow2_adds(1074, j);
    assert(n * o <= o * pow2(j)) by (nonlinear_arith)
        requires
            n <= pow2(j),
            o > 0,
    ;
    crate::rounding::lemma_rounded_at_most(n * o, 1074 + j);
    crate::rounding::lemma_rounded_is_exact(n * o);
    lemma_encoded_within(false, crate::rounding::rounded(n * o), 1074 + j);
    if n > 0 {
        assert(n * o >= o) by (nonlinear_arith)
            requires
                n >= 1,
                o > 0,
        ;
        crate::rounding::lemma_rounded_at_least(n * o, 1074);
    } else {
        assert(0 * o == 0);
        crate::rounding::lemma_small_is_exact(0);
    }
}

/// Widening keeps the value, counted in the least positive values of the wider format.
pub proof fn lemma_widened(a: Single)
    requires
        a.is_finite(),
    ensures
        within(widened(a), 1202),
        widened(a).value() == a.value() * pow2(925),
        widened(a).negative() == a.negative(),
        widened(a).mag() == a.mag() * pow2(925),
{
    lemma2_to64();
    let m = a.mag();
    let k = pow2(925);
    lemma_pow2_adds(277, 925);
    lemma_pow2_pos(925);
    if a.exp() == 0 {
        crate::rounding::lemma_rounded_scaled(m, 925);
        crate::rounding::lemma_small_is_exact(m);
        lemma_pow2_strictly_increases(23, 277);
    } else {
        let e = (a.exp() - 1) as nat;
        let n = pow2(23) + a.man();
        lemma_pow2_adds(e, 925);
        assert((n * pow2(e)) * k == n * (pow2(e) * k)) by (nonlinear_arith);
        crate::rounding::lemma_rounded_scaled(n, e + 925);
        crate::rounding::lemma_small_is_exact(n);
        lemma_pow2_adds(24, 253);
        if e < 253 {
            lemma_pow2_strictly_increases(e, 253);
        }
        assert(n * pow2(e) <= pow2(24) * pow2(253)) by (nonlinear_arith)
            requires
                n <= pow2(24),
                pow2(e) <= pow2(253),
        ;
    }
    assert(m * k <= pow2(277) * k) by (nonlinear_arith)
        requires
            m <= pow2(277),
    ;
    lemma_encoded_within(a.negative(), m * k, 1202);
    assert((-m) * k == -(m * k)) by (nonlinear_arith);
}

/// What the operations make of values that are not finite: a value that is not a number
/// stays so; an infinity stays one, but for the difference of two, for its product with
/// zero and for its quotient by another.
pub proof fn lemma_values_that_are_not_finite(a: Double, b: Double)
    ensures
        a.is_nan() || b.is_nan() ==> plus(a, b).is_nan() && times(a, b).is_nan() && over(a, b).is_nan(),
        a.is_nan() ==> root(a).is_nan(),
        a.is_infinite() && b.is_finite() ==> plus(a, b) == a && plus(b, a) == a,
        a.is_infinite() && b == a ==> plus(a, b) == a,
        a.is_infinite() && b == negated(a) ==> plus(a, b).is_nan(),
        a.is_infinite() && b.is_infinite() ==> over(a, b).is_nan(),
        a.is_infinite() && !b.is_nan() && b.mag() != 0 ==> times(a, b).is_infinite() && times(
            b,
            a,
        ).is_infinite(),
        a.is_infinite() && b.mag() == 0 ==> times(a, b).is_nan() && times(b, a).is_nan(),
        a.is_infinite() && b.is_finite() ==> over(a, b).is_infinite(),
        a.is_infinite() && !a.negative() ==> root(a) == a,
        !a.is_nan() && a.value() < 0 ==> root(a).is_nan(),
{
    lemma2_to64_rest();
    assert(no_number().is_nan());
    lemma_pow2_pos(2098);
    assert(encoded(true, pow2(2098)).is_infinite());
    assert(encoded(false, pow2(2098)).is_infinite());
    if a.is_infinite() {
        lemma_pow2_adds(52, 2046);
        assert(a.mag() == pow2(2098));
        assert(negated(a).exp() == a.exp() && negated(a).man() == a.man());
    }
}

/// Zero takes the place of what lies below it or is not a number, and of nothing else.
pub proof fn lemma_at_least_zero(a: Double)
    ensures
        a.is_nan() || a.value() <= 0 ==> at_least_zero(a).bits == 0,
        !a.is_nan() && a.value() > 0 ==> at_least_zero(a) == a,
{
}

/// A finite value needs no rounding.
proof fn lemma_value_is_exact(c: Double)
    requires
        c.is_finite(),
    ensures
        crate::rounding::rounded(c.mag()) == c.mag(),
{
    lemma2_to64();
    lemma2_to64_rest();
    if c.exp() == 0 {
        crate::rounding::lemma_small_is_exact(c.mag());
    } else {
        let n = pow2(52) + c.man();
        crate::rounding::lemma_rounded_scaled(n, (c.exp() - 1) as nat);
        crate::rounding::lemma_small_is_exact(n);
    }
}

/// The last bit of a value is the last of its significant bits.
proof fn lemma_last_bit(mag: nat)
    ensures
        bits_of(mag) % 2 == (mag / crate::rounding::last_place(mag)) % 2,
    decreases mag,
{
    if mag < TWO_53 {
        assert(mag / 1 == mag);
    } else {
        lemma_last_bit(mag / 2);
        let u = crate::rounding::last_place(mag / 2);
        crate::rounding::lemma_last_place_pos(mag / 2);
        vstd::arithmetic::div_mod::lemma_div_denominator(mag as int, 2, u as int);
    }
}

/// A value that stands for a rounded ratio lies nearest to it.
proof fn lemma_encoded_is_nearest(negative: bool, num: nat, den: nat, c: Double)
    requires
        den > 0,
        c.is_finite(),
        encoded(negative, crate::rounding::rounded_ratio(num, den)).is_finite(),
    ensures
        ({
            let r = encoded(negative, crate::rounding::rounded_ratio(num, den));
            let exact: int = if negative {
                -num
            } else {
                num as int
            };
            let off = vstd::math::abs(exact - r.value() * den);
            let other = vstd::math::abs(exact - c.value() * den);
            &&& off <= other
            &&& off == other && c.value() != r.value() ==> r.bits % 2 == 0
        }),
{
    let m = crate::rounding::rounded_ratio(num, den);
    let r = encoded(negative, m);
    let y = c.mag();
    assert(m < pow2(2098)) by {
        if m >= pow2(2098) {
            assert(r.exp() == 0x7ff);
        }
    }
    crate::rounding::lemma_rounded_ratio_is_exact(num, den);
    lemma_encoded(negative, m);
    lemma_value_is_exact(c);
    lemma_last_bit(m);
    crate::rounding::lemma_small_is_exact(0);
    crate::rounding::lemma_ratio_is_nearest(num, den, y);
    crate::rounding::lemma_ratio_is_nearest(num, den, 0);
    assert(0 * den == 0);
    assert((-m) * den == -(m * den) && (-y) * den == -(y * den)) by (nonlinear_arith);
    assert(y > 0 ==> y * den > 0) by (nonlinear_arith)
        requires
            den > 0,
    ;
    assert(r.bits % 2 == bits_of(m) % 2);
}

/// A sum is the value nearest to the exact sum: no other lies nearer, and where another lies
/// as near, its last bit is zero.
pub proof fn lemma_sum_is_nearest(a: Double, b: Double, c: Double)
    requires
        a.is_finite(),
        b.is_finite(),
        c.is_finite(),
        plus(a, b).is_finite(),
    ensures
        ({
            let exact = a.value() + b.value();
            let r = plus(a, b);
            let off = vstd::math::abs(exact - r.value());
            let other = vstd::math::abs(exact - c.value());
            &&& off <= other
            &&& off == other && c.value() != r.value() ==> r.bits % 2 == 0
        }),
{
    let v = a.value() + b.value();
    if v != 0 || !(a.negative() && b.negative()) {
        let m = vstd::math::abs(v);
        crate::rounding::lemma_whole_ratio(m, 1);
        assert(1 * m == m);
        lemma_encoded_is_nearest(v < 0, m, 1, c);
        assert(c.value() * 1 == c.value() && plus(a, b).value() * 1 == plus(a, b).value());
    }
}

/// A product, likewise.
pub proof fn lemma_product_is_nearest(a: Double, b: Double, c: Double)
    requires
        a.is_finite(),
        b.is_finite(),
        c.is_finite(),
        times(a, b).is_finite(),
    ensures
        ({
            let exact = a.value() * b.value();
            let r = times(a, b);
            let off = vstd::math::abs(exact - r.value() * pow2(1074));
            let other = vstd::math::abs(exact - c.value() * pow2(1074));
            &&& off <= other
            &&& off == other && c.value() != r.value() ==> r.bits % 2 == 0
        }),
{
    let (x, y) = (a.mag(), b.mag());
    lemma_pow2_pos(1074);
    lemma_encoded_is_nearest(a.negative() != b.negative(), x * y, pow2(1074), c);
    assert((-x) * y == -(x * y) && x * (-y) == -(x * y) && (-x) * (-y) == x * y)
        by (nonlinear_arith);
}

/// A quotient, likewise.
pub proof fn lemma_quotient_is_nearest(a: Double, b: Double, c: Double)
    requires
        a.is_finite(),
        b.is_finite(),
        c.is_finite(),
        b.value() != 0,
        over(a, b).is_finite(),
    ensures
        ({
            let exact = a.value() * pow2(1074);
            let r = over(a, b);
            let off = vstd::math::abs(exact - r.value() * b.value());
            let other = vstd::math::abs(exact - c.value() * b.value());
            &&& off <= other
            &&& off == other && c.value() != r.value() ==> r.bits % 2 == 0
        }),
{
    let (x, y, o) = (a.mag(), b.mag(), pow2(1074));
    let r = over(a, b);
    lemma_encoded_is_nearest(a.negative() != b.negative(), x * o, y, c);
    assert((-x) * o == -(x * o)) by (nonlinear_arith);
    assert(r.value() * (-y) == -(r.value() * y) && c.value() * (-y) == -(c.value() * y))
        by (nonlinear_arith);
}

/// A square root is the value nearest to the exact root: the middle between it and any other
/// does not lie on its own side of the root.
pub proof fn lemma_root_value_is_nearest(a: Double, c: Double)
    requires
        a.is_finite(),
        a.value() > 0,
        c.is_finite(),
        c.value() >= 0,
        root(a).is_finite(),
    ensures
        ({
            let exact = a.value() * pow2(1074);
            let r = root(a).value();
            let both = r + c.value();
            &&& r >= 0
            &&& c.value() > r ==> 4 * exact <= both * both
            &&& c.value() < r ==> both * both <= 4 * exact
        }),
{
    let x = a.mag() * pow2(1074);
    let s = lemma_root_exists(x);
    let m = crate::rounding::rounded_root(x);
    assert(m < pow2(2098)) by {
        if m >= pow2(2098) {
            assert(root(a).exp() == 0x7ff);
        }
    }
    crate::rounding::lemma_rounded_root_is_exact(x);
    lemma_encoded(false, m);
    lemma_value_is_exact(c);
    crate::rounding::lemma_root_is_nearest(x, s, c.mag());
}

/// The sign of a result: that of the sum where it is not zero, and otherwise negative only
/// where both terms are; of a product or a quotient, negative where the signs differ; a
/// square root keeps that of zero.
pub proof fn lemma_signs(a: Double, b: Double)
    requires
        a.is_finite(),
        b.is_finite(),
    ensures
        a.value() + b.value() == 0 ==> plus(a, b).negative() == (a.negative() && b.negative())
            && plus(a, b).value() == 0,
        times(a, b).is_finite() ==> times(a, b).negative() == (a.negative() != b.negative()),
        over(a, b).is_finite() ==> over(a, b).negative() == (a.negative() != b.negative()),
        a.value() == 0 ==> root(a) == a,
{
    lemma_pow2_pos(1074);
    lemma_pow2_pos(2098);
    crate::rounding::lemma_small_is_exact(0);
    lemma_encoded(false, 0);
    let negative = a.negative() != b.negative();
    let p = crate::rounding::rounded_ratio(a.mag() * b.mag(), pow2(1074));
    crate::rounding::lemma_rounded_ratio_is_exact(a.mag() * b.mag(), pow2(1074));
    if p < pow2(2098) {
        lemma_encoded(negative, p);
    } else {
        assert(encoded(negative, p).exp() == 0x7ff);
    }
    if b.value() != 0 {
        let q = crate::rounding::rounded_ratio(a.mag() * pow2(1074), b.mag());
        crate::rounding::lemma_rounded_ratio_is_exact(a.mag() * pow2(1074), b.mag());
        if q < pow2(2098) {
            lemma_encoded(negative, q);
        } else {
            assert(encoded(negative, q).exp() == 0x7ff);
        }
    } else {
        assert(encoded(negative, pow2(2098)).exp() == 0x7ff);
        assert(no_number().exp() == 0x7ff);
    }
}

} // verus!
