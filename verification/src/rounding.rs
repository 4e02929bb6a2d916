//! Rounding to 53 significant bits, as `binary64` arithmetic does it: to nearest, ties to
//! even.
//!
//! Values are counted in least positive values of the format. Below `2^53` of them every
//! whole number of them is a value of the format, so that nothing is lost there but what
//! lies below one of them.

use vstd::arithmetic::power2::*;
use vstd::prelude::*;

use crate::ieee::Double;

verus! {

/// Two to the power of 53: below it every whole number has 53 significant bits.
pub const TWO_53: u128 = 0x20_0000_0000_0000;

/// Two to the power of 64.
pub const TWO_64: u128 = 0x1_0000_0000_0000_0000;

/// Two to the power of 119.
pub const TWO_119: u128 = 0x80_0000_0000_0000_0000_0000_0000_0000;

/// One, in least positive values.
pub open spec fn one() -> nat {
    pow2(1074)
}

/// The weight of the last of the 53 significant bits of `x`.
pub open spec fn last_place(x: nat) -> nat
    decreases x,
{
    if x < TWO_53 {
        1
    } else {
        2 * last_place(x / 2)
    }
}

/// The multiple of `unit` nearest to `num / den`, and halfway between two of them the
/// even one.
pub open spec fn nearest_multiple(num: nat, den: nat, unit: nat) -> nat {
    let d = den * unit;
    let q = num / d;
    let r = num % d;
    if 2 * r < d || (2 * r == d && q % 2 == 0) {
        q * unit
    } else {
        (q + 1) * unit
    }
}

/// `x`, rounded to 53 significant bits: what `binary64` arithmetic makes of an exact
/// result of that many least positive values.
pub open spec fn rounded(x: nat) -> nat {
    nearest_multiple(x, 1, last_place(x))
}

/// `num / den`, rounded to 53 significant bits.
pub open spec fn rounded_ratio(num: nat, den: nat) -> nat {
    nearest_multiple(num, den, last_place(num / den))
}

/// Whether `s` is the whole part of the square root of `x`.
pub open spec fn is_whole_root(s: nat, x: nat) -> bool {
    s * s <= x < (s + 1) * (s + 1)
}

/// The whole part of the square root of `x`.
pub open spec fn whole_root(x: nat) -> nat {
    choose|s: nat| is_whole_root(s, x)
}

/// The square root of `x`, rounded to 53 significant bits: it is held against the middle
/// of two neighbours by their squares.
pub open spec fn rounded_root(x: nat) -> nat {
    let unit = last_place(whole_root(x));
    let q = whole_root(x) / unit;
    let middle = (2 * q + 1) * unit;
    if 4 * x < middle * middle || (4 * x == middle * middle && q % 2 == 0) {
        q * unit
    } else {
        (q + 1) * unit
    }
}

/// The last place has a weight.
pub proof fn lemma_last_place_pos(x: nat)
    ensures
        last_place(x) > 0,
    decreases x,
{
    if x >= TWO_53 {
        lemma_last_place_pos(x / 2);
    }
}

/// A common factor of a ratio does not show.
pub proof fn lemma_common_factor(num: nat, den: nat, unit: nat, c: nat)
    requires
        den > 0,
        unit > 0,
        c > 0,
    ensures
        nearest_multiple(c * num, c * den, unit) == nearest_multiple(num, den, unit),
{
    let d = den * unit;
    let q = num / d;
    let r = num % d;
    assert(d > 0 && c * d > 0 && (c * den) * unit == c * d) by (nonlinear_arith)
        requires
            den > 0,
            unit > 0,
            c > 0,
            d == den * unit,
    ;
    vstd::arithmetic::div_mod::lemma_fundamental_div_mod(num as int, d as int);
    assert(c * num == q * (c * d) + c * r && 0 <= c * r < c * d) by (nonlinear_arith)
        requires
            num == d * q + r,
            0 <= r < d,
            c > 0,
    ;
    vstd::arithmetic::div_mod::lemma_fundamental_div_mod_converse(
        (c * num) as int,
        (c * d) as int,
        q as int,
        (c * r) as int,
    );
    assert((2 * r < d <==> 2 * (c * r) < c * d) && (2 * r == d <==> 2 * (c * r) == c * d))
        by (nonlinear_arith)
        requires
            c > 0,
    ;
}

/// A ratio that is a whole number is rounded as that number is.
pub proof fn lemma_whole_ratio(x: nat, den: nat)
    requires
        den > 0,
    ensures
        rounded_ratio(den * x, den) == rounded(x),
{
    lemma_last_place_pos(x);
    vstd::arithmetic::div_mod::lemma_div_multiples_vanish(x as int, den as int);
    assert(den * 1 == den);
    lemma_common_factor(x, 1, last_place(x), den);
}

/// Twice a number lies nearest to twice the multiple, of twice the unit.
pub proof fn lemma_double_multiple(x: nat, unit: nat)
    requires
        unit > 0,
    ensures
        nearest_multiple(2 * x, 1, 2 * unit) == 2 * nearest_multiple(x, 1, unit),
{
    let q = x / unit;
    let r = x % unit;
    vstd::arithmetic::div_mod::lemma_fundamental_div_mod(x as int, unit as int);
    assert(2 * x == q * (2 * unit) + 2 * r) by (nonlinear_arith)
        requires
            x == unit * q + r,
    ;
    vstd::arithmetic::div_mod::lemma_fundamental_div_mod_converse(
        2 * x as int,
        2 * unit as int,
        q as int,
        2 * r as int,
    );
    assert(q * (2 * unit) == 2 * (q * unit)) by (nonlinear_arith);
    assert((q + 1) * (2 * unit) == 2 * ((q + 1) * unit)) by (nonlinear_arith);
}

/// Rounding keeps a factor of two.
pub proof fn lemma_rounded_double(x: nat)
    ensures
        rounded(2 * x) == 2 * rounded(x),
{
    lemma_last_place_pos(x);
    if 2 * x < TWO_53 {
        assert(rounded(x) == x) by {
            lemma_small_is_exact(x);
        }
        lemma_small_is_exact(2 * x);
    } else {
        assert((2 * x) / 2 == x);
        assert(last_place(2 * x) == 2 * last_place(x));
        lemma_double_multiple(x, last_place(x));
    }
}

/// A number of at most 53 bits needs no rounding.
pub proof fn lemma_small_is_exact(x: nat)
    requires
        x < TWO_53,
    ensures
        rounded(x) == x,
{
    assert(x / 1 == x && x % 1 == 0);
}

/// Rounding keeps a factor that is a power of two.
pub proof fn lemma_rounded_scaled(x: nat, j: nat)
    ensures
        rounded(x * pow2(j)) == rounded(x) * pow2(j),
    decreases j,
{
    lemma2_to64();
    if j == 0 {
        assert(x * 1 == x && rounded(x) * 1 == rounded(x));
    } else {
        let i = (j - 1) as nat;
        lemma_rounded_scaled(x, i);
        lemma_pow2_adds(1, i);
        assert(x * pow2(j) == 2 * (x * pow2(i))) by (nonlinear_arith)
            requires
                pow2(j) == 2 * pow2(i),
        ;
        assert(rounded(x) * pow2(j) == 2 * (rounded(x) * pow2(i))) by (nonlinear_arith)
            requires
                pow2(j) == 2 * pow2(i),
        ;
        lemma_rounded_double(x * pow2(i));
    }
}

/// `n * 2^shift`, with `n` of at most 53 bits or a power of two.
#[derive(Clone, Copy, Debug)]
pub struct Scaled {
    pub n: u64,
    pub shift: u32,
}

impl Scaled {
    /// The number.
    pub open spec fn value(self) -> nat {
        self.n as nat * pow2(self.shift as nat)
    }
}

/// The magnitude of a number.
pub fn scaled(d: Double) -> (r: Scaled)
    ensures
        r.value() == d.mag(),
        r.n < TWO_53,
        r.shift <= 2046,
        r.shift > 0 ==> r.n >= 0x10_0000_0000_0000,
{
    let low: u64 = d.bits % 0x8000_0000_0000_0000;
    let exp: u64 = low / 0x10_0000_0000_0000;
    let man: u64 = low % 0x10_0000_0000_0000;
    proof {
        lemma2_to64();
        lemma2_to64_rest();
        assert(exp == d.exp() && man == d.man());
    }
    if exp == 0 {
        assert(man * pow2(0) == man);
        Scaled { n: man, shift: 0 }
    } else {
        Scaled { n: 0x10_0000_0000_0000 + man, shift: (exp - 1) as u32 }
    }
}

/// The weight of the last of the 53 significant bits of `x`, and which power of two it
/// is.
pub fn place(x: u128) -> (r: (u128, u32))
    requires
        x < TWO_119,
    ensures
        r.0 == last_place(x as nat),
        r.0 == pow2(r.1 as nat),
        r.0 == 1 || r.0 <= x,
        x / r.0 < TWO_53,
        0 < r.0,
        r.1 <= 66,
        x >= TWO_53 ==> r.1 > 0,
{
    let mut top: u128 = x;
    let mut unit: u128 = 1;
    let mut shift: u32 = 0;
    proof {
        lemma2_to64();
    }
    while top >= TWO_53
        invariant
            shift <= 66,
            unit == pow2(shift as nat),
            0 < unit <= 0x8_0000_0000_0000_0000,
            unit == 1 || unit <= x,
            shift == 0 ==> top == x,
            last_place(x as nat) == unit * last_place(top as nat),
            top == x as nat / unit as nat,
            x < TWO_119,
        decreases top,
    {
        proof {
            lemma_pow2_adds(1, shift as nat);
            lemma2_to64();
            let rest = last_place(top as nat / 2);
            assert(unit * (2 * rest) == (2 * unit) * rest) by (nonlinear_arith);
            vstd::arithmetic::div_mod::lemma_div_denominator(x as int, unit as int, 2);
            vstd::arithmetic::div_mod::lemma_fundamental_div_mod(x as int, unit as int);
            assert(unit * TWO_53 <= x) by (nonlinear_arith)
                requires
                    x >= unit * top,
                    top >= TWO_53,
                    unit > 0,
            ;
            if shift == 66 {
                lemma_pow2_adds(64, 2);
                lemma2_to64_rest();
            }
        }
        top = top / 2;
        unit = unit * 2;
        shift = shift + 1;
    }
    assert(last_place(top as nat) == 1);
    assert(unit * 1 == unit);
    (unit, shift)
}

/// A ratio, rounded to 53 significant bits.
pub fn round_ratio(num: u128, den: u128) -> (r: Scaled)
    requires
        0 < den < TWO_119,
        num < TWO_119,
    ensures
        r.value() == rounded_ratio(num as nat, den as nat),
        r.n <= TWO_53,
        r.shift <= 66,
        num / den >= TWO_53 ==> r.shift > 0,
{
    let whole: u128 = num / den;
    proof {
        vstd::arithmetic::div_mod::lemma_fundamental_div_mod(num as int, den as int);
        assert(whole <= num) by (nonlinear_arith)
            requires
                num >= den * whole,
                den > 0,
        ;
    }
    let (unit, shift): (u128, u32) = place(whole);
    proof {
        assert(unit <= whole ==> den * unit <= num) by (nonlinear_arith)
            requires
                num >= den * whole,
                den > 0,
        ;
        assert(den * 1 == den);
        assert(den * unit > 0) by (nonlinear_arith)
            requires
                den > 0,
                unit > 0,
        ;
        vstd::arithmetic::div_mod::lemma_div_denominator(num as int, den as int, unit as int);
    }
    let d: u128 = den * unit;
    let q: u128 = num / d;
    let rest: u128 = num % d;
    let up: bool = 2 * rest > d || (2 * rest == d && q % 2 == 1);
    if up {
        Scaled { n: q as u64 + 1, shift }
    } else {
        Scaled { n: q as u64, shift }
    }
}

/// A whole number, rounded to 53 significant bits.
pub fn round(x: u128) -> (r: Scaled)
    requires
        x < TWO_119,
    ensures
        r.value() == rounded(x as nat),
        r.n <= TWO_53,
        r.shift <= 66,
        x >= TWO_53 ==> r.shift > 0,
{
    proof {
        lemma_whole_ratio(x as nat, 1);
    }
    round_ratio(x, 1)
}

/// The last place is a small part of a number that needs rounding.
pub proof fn lemma_last_place_small(x: nat)
    ensures
        last_place(x) == 1 || last_place(x) * 0x10_0000_0000_0000 <= x,
    decreases x,
{
    if x >= TWO_53 {
        lemma_last_place_small(x / 2);
    }
}

/// Rounding takes away no more than one part in `2^53`.
pub proof fn lemma_rounded_close(x: nat)
    ensures
        (x - rounded(x)) * TWO_53 <= x,
{
    let u = last_place(x);
    let q = x / u;
    let r = x % u;
    lemma_last_place_pos(x);
    lemma_last_place_small(x);
    vstd::arithmetic::div_mod::lemma_fundamental_div_mod(x as int, u as int);
    assert(q * u == u * q && (q + 1) * u == u * q + u) by (nonlinear_arith);
    if rounded(x) == q * u {
        assert(2 * r <= u);
        if u == 1 {
            assert(r == 0);
        }
    } else {
        assert(rounded(x) >= x);
    }
}

/// The last place of a number is that of its leading part, scaled.
pub proof fn lemma_last_place_shifted(x: nat, t: nat)
    requires
        x / pow2(t) >= 0x10_0000_0000_0000,
    ensures
        last_place(x) == pow2(t) * last_place(x / pow2(t)),
    decreases t,
{
    lemma2_to64();
    if t == 0 {
        assert(x / 1 == x);
    } else {
        let i = (t - 1) as nat;
        lemma_pow2_adds(1, i);
        lemma_pow2_pos(i);
        vstd::arithmetic::div_mod::lemma_div_denominator(x as int, 2, pow2(i) as int);
        vstd::arithmetic::div_mod::lemma_fundamental_div_mod(x as int, pow2(t) as int);
        assert(x >= TWO_53) by (nonlinear_arith)
            requires
                x >= pow2(t) * (x / pow2(t)),
                x / pow2(t) >= 0x10_0000_0000_0000,
                pow2(t) == 2 * pow2(i),
                pow2(i) >= 1,
        ;
        lemma_last_place_shifted(x / 2, i);
        let w = last_place(x / pow2(t));
        assert(2 * (pow2(i) * w) == (2 * pow2(i)) * w) by (nonlinear_arith);
    }
}

/// Where the leading part of a ratio has a bit to spare, what lies below it matters only
/// in being there: the ratio is rounded as if one more bit said so.
pub proof fn lemma_sticky_ratio(num: nat, den: nat, a: nat, rest: nat, t: nat)
    requires
        den > 0,
        a >= 2 * TWO_53,
        num == (den * pow2(t)) * a + rest,
        rest < den * pow2(t),
    ensures
        2 * rounded_ratio(num, den) == rounded(
            2 * a + if rest > 0 {
                1nat
            } else {
                0nat
            },
        ) * pow2(t),
{
    let tt = pow2(t);
    let dd = den * tt;
    let sticky: nat = if rest > 0 {
        1
    } else {
        0
    };
    let x = 2 * a + sticky;
    let w = last_place(a);
    let h = last_place(a / 2);
    let k = a / w;
    let b = a % w;
    let r = dd * b + rest;
    lemma_pow2_pos(t);
    lemma_last_place_pos(a);
    lemma_last_place_pos(a / 2);
    assert(w == 2 * h);
    assert(dd * a == a * dd) by (nonlinear_arith);
    vstd::arithmetic::div_mod::lemma_fundamental_div_mod_converse(
        num as int,
        dd as int,
        a as int,
        rest as int,
    );
    vstd::arithmetic::div_mod::lemma_div_denominator(num as int, den as int, tt as int);
    lemma_last_place_shifted(num / den, t);
    assert(last_place(num / den) == tt * w);
    vstd::arithmetic::div_mod::lemma_fundamental_div_mod(a as int, w as int);
    let d = dd * w;
    assert(den * (tt * w) == d) by (nonlinear_arith)
        requires
            dd == den * tt,
            d == dd * w,
    ;
    assert(num == k * d + r && 0 <= r < d) by (nonlinear_arith)
        requires
            num == dd * a + rest,
            a == w * k + b,
            r == dd * b + rest,
            d == dd * w,
            0 <= b < w,
            rest < dd,
    ;
    vstd::arithmetic::div_mod::lemma_fundamental_div_mod_converse(
        num as int,
        d as int,
        k as int,
        r as int,
    );
    assert(x / 2 == a);
    assert(last_place(x) == 2 * w);
    assert(x == k * (2 * w) + (2 * b + sticky)) by (nonlinear_arith)
        requires
            x == 2 * a + sticky,
            a == w * k + b,
    ;
    vstd::arithmetic::div_mod::lemma_fundamental_div_mod_converse(
        x as int,
        (2 * w) as int,
        k as int,
        (2 * b + sticky) as int,
    );
    if b < h {
        assert(2 * r < d) by (nonlinear_arith)
            requires
                r == dd * b + rest,
                rest < dd,
                d == dd * w,
                w == 2 * h,
                b + 1 <= h,
        ;
    } else if b == h {
        assert(2 * r == d + 2 * rest) by (nonlinear_arith)
            requires
                r == dd * b + rest,
                d == dd * w,
                w == 2 * h,
                b == h,
        ;
    } else {
        assert(2 * r > d) by (nonlinear_arith)
            requires
                r == dd * b + rest,
                d == dd * w,
                w == 2 * h,
                b >= h + 1,
                rest < dd,
                rest >= 0,
        ;
    }
    assert(2 * (k * (tt * w)) == (k * (2 * w)) * tt) by (nonlinear_arith);
    assert(2 * ((k + 1) * (tt * w)) == ((k + 1) * (2 * w)) * tt) by (nonlinear_arith);
}

/// There is only one whole part of a square root.
pub proof fn lemma_whole_root(s: nat, x: nat)
    requires
        is_whole_root(s, x),
    ensures
        whole_root(x) == s,
{
    let r = whole_root(x);
    assert(is_whole_root(r, x));
    assert(r == s) by (nonlinear_arith)
        requires
            r * r <= x < (r + 1) * (r + 1),
            s * s <= x < (s + 1) * (s + 1),
    ;
}

/// The same of a square root: where its leading part has a bit to spare, what lies below
/// it matters only in being there.
pub proof fn lemma_sticky_root(n: nat, a: nat, s: nat, t: nat)
    requires
        a >= 2 * TWO_53,
        is_whole_root(a, n),
        is_whole_root(s, n * (pow2(t) * pow2(t))),
    ensures
        2 * rounded_root(n * (pow2(t) * pow2(t))) == rounded(
            2 * a + if n > a * a {
                1nat
            } else {
                0nat
            },
        ) * pow2(t),
{
    let tt = pow2(t);
    let x = n * (tt * tt);
    let sticky: nat = if n > a * a {
        1
    } else {
        0
    };
    let y = 2 * a + sticky;
    let w = last_place(a);
    let h = last_place(a / 2);
    let k = a / w;
    let b = a % w;
    lemma_pow2_pos(t);
    lemma_last_place_pos(a);
    lemma_last_place_pos(a / 2);
    lemma_whole_root(s, x);
    assert(w == 2 * h);
    assert(a * tt <= s < (a + 1) * tt) by (nonlinear_arith)
        requires
            a * a <= n < (a + 1) * (a + 1),
            s * s <= n * (tt * tt) < (s + 1) * (s + 1),
            tt > 0,
    {
        assert((a * tt) * (a * tt) == (a * a) * (tt * tt));
        assert(((a + 1) * tt) * ((a + 1) * tt) == ((a + 1) * (a + 1)) * (tt * tt));
        assert((a * a) * (tt * tt) <= n * (tt * tt));
        assert(n * (tt * tt) < ((a + 1) * (a + 1)) * (tt * tt));
    }
    let low = (s - a * tt) as nat;
    assert((a + 1) * tt == a * tt + tt) by (nonlinear_arith);
    vstd::arithmetic::div_mod::lemma_fundamental_div_mod_converse(
        s as int,
        tt as int,
        a as int,
        low as int,
    );
    lemma_last_place_shifted(s, t);
    vstd::arithmetic::div_mod::lemma_div_denominator(s as int, tt as int, w as int);
    vstd::arithmetic::div_mod::lemma_fundamental_div_mod(a as int, w as int);
    assert(s / (tt * w) == k);
    let m = (2 * k + 1) * w;
    let middle = (2 * k + 1) * (tt * w);
    assert(middle * middle == (m * m) * (tt * tt)) by (nonlinear_arith)
        requires
            m == (2 * k + 1) * w,
            middle == (2 * k + 1) * (tt * w),
    ;
    assert((4 * x < middle * middle <==> 4 * n < m * m) && (4 * x == middle * middle <==> 4 * n == m
        * m)) by (nonlinear_arith)
        requires
            x == n * (tt * tt),
            middle * middle == (m * m) * (tt * tt),
            tt > 0,
    ;
    assert(m == 2 * (w * k) + w) by (nonlinear_arith)
        requires
            m == (2 * k + 1) * w,
    ;
    assert(y / 2 == a);
    assert(last_place(y) == 2 * w);
    assert(y == k * (2 * w) + (2 * b + sticky)) by (nonlinear_arith)
        requires
            y == 2 * a + sticky,
            a == w * k + b,
    ;
    vstd::arithmetic::div_mod::lemma_fundamental_div_mod_converse(
        y as int,
        (2 * w) as int,
        k as int,
        (2 * b + sticky) as int,
    );
    assert((2 * a) * (2 * a) <= 4 * n < (2 * a + 2) * (2 * a + 2)) by (nonlinear_arith)
        requires
            a * a <= n < (a + 1) * (a + 1),
    ;
    if b < h {
        assert(4 * n < m * m) by (nonlinear_arith)
            requires
                4 * n < (2 * a + 2) * (2 * a + 2),
                2 * a + 2 <= m,
        ;
    } else if b == h {
        assert(m == 2 * a);
        assert(m * m == 4 * (a * a)) by (nonlinear_arith)
            requires
                m == 2 * a,
        ;
    } else {
        assert(4 * n > m * m) by (nonlinear_arith)
            requires
                (2 * a) * (2 * a) <= 4 * n,
                2 * a > m,
                m >= 0,
        ;
    }
    assert(2 * (k * (tt * w)) == (k * (2 * w)) * tt) by (nonlinear_arith);
    assert(2 * ((k + 1) * (tt * w)) == ((k + 1) * (2 * w)) * tt) by (nonlinear_arith);
}

/// The last place is a power of two, which divides every greater one.
pub proof fn lemma_last_place_power(x: nat) -> (j: nat)
    ensures
        last_place(x) == pow2(j),
        x / last_place(x) < TWO_53,
        x >= TWO_53 ==> x / last_place(x) >= 0x10_0000_0000_0000,
    decreases x,
{
    lemma2_to64();
    if x < TWO_53 {
        assert(x / 1 == x);
        0
    } else {
        let i = lemma_last_place_power(x / 2);
        lemma_pow2_adds(1, i);
        lemma_pow2_pos(i);
        vstd::arithmetic::div_mod::lemma_div_denominator(x as int, 2, pow2(i) as int);
        if x / 2 < TWO_53 {
            assert(last_place(x / 2) == 1);
            assert((x / 2) / 1 == x / 2);
        }
        i + 1
    }
}

/// A multiple of the last place of a number, of no more than 53 bits, needs no rounding.
pub proof fn lemma_exact_multiple(q: nat, x: nat)
    requires
        q <= TWO_53,
    ensures
        rounded(q * last_place(x)) == q * last_place(x),
{
    let j = lemma_last_place_power(x);
    lemma_rounded_scaled(q, j);
    if q < TWO_53 {
        lemma_small_is_exact(q);
    } else {
        lemma_rounded_double(0x10_0000_0000_0000);
        lemma_small_is_exact(0x10_0000_0000_0000);
    }
}

/// What was rounded needs no further rounding.
pub proof fn lemma_rounded_ratio_is_exact(num: nat, den: nat)
    requires
        den > 0,
    ensures
        rounded(rounded_ratio(num, den)) == rounded_ratio(num, den),
{
    let x = num / den;
    let u = last_place(x);
    let j = lemma_last_place_power(x);
    lemma_last_place_pos(x);
    vstd::arithmetic::div_mod::lemma_div_denominator(num as int, den as int, u as int);
    lemma_exact_multiple(num / (den * u), x);
    lemma_exact_multiple((num / (den * u) + 1) as nat, x);
}

/// What was rounded needs no further rounding.
pub proof fn lemma_rounded_is_exact(x: nat)
    ensures
        rounded(rounded(x)) == rounded(x),
{
    lemma_whole_ratio(x, 1);
    lemma_rounded_ratio_is_exact(x, 1);
}

/// What was rounded needs no further rounding.
pub proof fn lemma_rounded_root_is_exact(x: nat)
    ensures
        rounded(rounded_root(x)) == rounded_root(x),
{
    let s = whole_root(x);
    let j = lemma_last_place_power(s);
    lemma_exact_multiple(s / last_place(s), s);
    lemma_exact_multiple((s / last_place(s) + 1) as nat, s);
}

/// A number below a power of two has its last place below it by so many bits that the
/// next multiple does not pass the power.
pub proof fn lemma_next_multiple(x: nat, j: nat)
    requires
        x < pow2(j),
    ensures
        (x / last_place(x) + 1) * last_place(x) <= pow2(j),
{
    let u = last_place(x);
    let i = lemma_last_place_power(x);
    lemma_last_place_pos(x);
    vstd::arithmetic::div_mod::lemma_fundamental_div_mod(x as int, u as int);
    let q = x / u;
    assert(u * q <= x);
    if x < TWO_53 {
        lemma_small_is_exact(x);
        assert(u == 1);
        assert(x / 1 == x);
    } else {
        if i > j {
            lemma_pow2_strictly_increases(j, i);
            assert(x >= u) by (nonlinear_arith)
                requires
                    x >= u * q,
                    q >= 1,
                    u > 0,
            ;
        }
        let k = (j - i) as nat;
        lemma_pow2_adds(i, k);
        assert(q < pow2(k)) by (nonlinear_arith)
            requires
                u * q <= x,
                x < u * pow2(k),
                u > 0,
        ;
        assert((q + 1) * u <= pow2(k) * u) by (nonlinear_arith)
            requires
                q + 1 <= pow2(k),
                u > 0,
        ;
        assert(pow2(k) * u == u * pow2(k)) by (nonlinear_arith);
    }
}

/// A power of two needs no rounding.
pub proof fn lemma_power_is_exact(j: nat)
    ensures
        rounded(pow2(j)) == pow2(j),
{
    lemma_rounded_scaled(1, j);
    lemma_small_is_exact(1);
    assert(1 * pow2(j) == pow2(j));
}

/// Rounding a ratio does not pass a power of two from below.
pub proof fn lemma_ratio_at_most(num: nat, den: nat, j: nat)
    requires
        den > 0,
        num <= den * pow2(j),
    ensures
        rounded_ratio(num, den) <= pow2(j),
{
    if num == den * pow2(j) {
        lemma_whole_ratio(pow2(j), den);
        lemma_power_is_exact(j);
    } else {
        let x = num / den;
        let u = last_place(x);
        lemma_last_place_pos(x);
        vstd::arithmetic::div_mod::lemma_fundamental_div_mod(num as int, den as int);
        assert(x < pow2(j)) by (nonlinear_arith)
            requires
                num < den * pow2(j),
                num >= den * x,
                den > 0,
        ;
        vstd::arithmetic::div_mod::lemma_div_denominator(num as int, den as int, u as int);
        lemma_next_multiple(x, j);
        assert((x / u) * u <= (x / u + 1) * u) by (nonlinear_arith)
            requires
                u > 0,
        ;
    }
}

/// Rounding does not pass a power of two from below.
pub proof fn lemma_rounded_at_most(x: nat, j: nat)
    requires
        x <= pow2(j),
    ensures
        rounded(x) <= pow2(j),
{
    lemma_whole_ratio(x, 1);
    lemma_ratio_at_most(x, 1, j);
}

/// Rounding does not pass a power of two from above.
pub proof fn lemma_rounded_at_least(x: nat, j: nat)
    requires
        x >= pow2(j),
    ensures
        rounded(x) >= pow2(j),
{
    let u = last_place(x);
    let i = lemma_last_place_power(x);
    let q = x / u;
    lemma_last_place_pos(x);
    vstd::arithmetic::div_mod::lemma_fundamental_div_mod(x as int, u as int);
    if x < TWO_53 {
        lemma_small_is_exact(x);
    } else {
        lemma2_to64_rest();
        if j <= i {
            if j < i {
                lemma_pow2_strictly_increases(j, i);
            }
            assert(q * u >= u && (q + 1) * u >= u) by (nonlinear_arith)
                requires
                    q >= 1,
                    u > 0,
            ;
        } else {
            let k = (j - i) as nat;
            lemma_pow2_adds(i, k);
            assert(q >= pow2(k)) by (nonlinear_arith)
                requires
                    x == u * q + x % u,
                    x % u < u,
                    x >= u * pow2(k),
                    u > 0,
            ;
            assert(q * u >= u * pow2(k) && (q + 1) * u >= u * pow2(k)) by (nonlinear_arith)
                requires
                    q >= pow2(k),
                    u > 0,
            ;
        }
    }
}

/// A square root does not pass a power of two in rounding.
pub proof fn lemma_root_at_most(x: nat, s: nat, j: nat)
    requires
        is_whole_root(s, x),
        x <= pow2(j) * pow2(j),
    ensures
        rounded_root(x) <= pow2(j),
{
    let p = pow2(j);
    let u = last_place(s);
    let i = lemma_last_place_power(s);
    lemma_last_place_pos(s);
    lemma_whole_root(s, x);
    assert(s <= p) by (nonlinear_arith)
        requires
            s * s <= x,
            x <= p * p,
    ;
    let q = s / u;
    vstd::arithmetic::div_mod::lemma_fundamental_div_mod(s as int, u as int);
    assert(u * q == q * u) by (nonlinear_arith);
    if s < p {
        lemma_next_multiple(s, j);
        assert(q * u <= (q + 1) * u) by (nonlinear_arith)
            requires
                u > 0,
        ;
    } else {
        assert(x == p * p);
        lemma_power_is_exact(j);
        assert(q * u <= s);
        let middle = (2 * q + 1) * u;
        if s < TWO_53 {
            assert(s / 1 == s);
        }
        lemma_power_leading(j);
        assert(q * u == s);
        assert(4 * x < middle * middle) by (nonlinear_arith)
            requires
                x == s * s,
                q * u == s,
                middle == (2 * q + 1) * u,
                u > 0,
        ;
    }
}

/// A power of two is a multiple of its last place.
pub proof fn lemma_power_leading(j: nat)
    ensures
        (pow2(j) / last_place(pow2(j))) * last_place(pow2(j)) == pow2(j),
{
    let x = pow2(j);
    let u = last_place(x);
    let i = lemma_last_place_power(x);
    lemma_last_place_pos(x);
    lemma_pow2_pos(j);
    if x < TWO_53 {
        assert(x / 1 == x);
    } else {
        vstd::arithmetic::div_mod::lemma_fundamental_div_mod(x as int, u as int);
        if i > j {
            lemma_pow2_strictly_increases(j, i);
            assert(x >= u) by (nonlinear_arith)
                requires
                    x == u * (x / u) + x % u,
                    x / u >= 1,
                    x % u >= 0,
                    u > 0,
            ;
        }
        let k = (j - i) as nat;
        lemma_pow2_adds(i, k);
        vstd::arithmetic::div_mod::lemma_div_multiples_vanish(pow2(k) as int, u as int);
        assert(pow2(k) * u == u * pow2(k)) by (nonlinear_arith);
    }
}

/// The last place does not shrink as a number grows.
pub proof fn lemma_last_place_monotone(x: nat, y: nat)
    requires
        x <= y,
    ensures
        last_place(x) <= last_place(y),
    decreases y,
{
    lemma_last_place_pos(y);
    if x >= TWO_53 {
        lemma_last_place_monotone(x / 2, y / 2);
    }
}

/// Rounding keeps the order of two numbers.
pub proof fn lemma_rounded_monotone(x: nat, y: nat)
    requires
        x <= y,
    ensures
        rounded(x) <= rounded(y),
{
    let u = last_place(x);
    let v = last_place(y);
    lemma_last_place_pos(x);
    lemma_last_place_pos(y);
    lemma_last_place_monotone(x, y);
    if u == v {
        let p = x / u;
        let q = y / u;
        vstd::arithmetic::div_mod::lemma_fundamental_div_mod(x as int, u as int);
        vstd::arithmetic::div_mod::lemma_fundamental_div_mod(y as int, u as int);
        vstd::arithmetic::div_mod::lemma_div_is_ordered(x as int, y as int, u as int);
        assert(p * u <= q * u && (p + 1) * u <= (q + 1) * u && (p < q ==> (p + 1) * u <= q * u)
            && p * u <= (q + 1) * u) by (nonlinear_arith)
            requires
                p <= q,
                u > 0,
        ;
    } else {
        let i = lemma_last_place_power(y);
        let j = 52 + i;
        let b = pow2(j);
        let q = y / v;
        lemma2_to64_rest();
        lemma_pow2_adds(52, i);
        vstd::arithmetic::div_mod::lemma_fundamental_div_mod(y as int, v as int);
        assert(y >= TWO_53);
        assert(y >= b) by (nonlinear_arith)
            requires
                y >= v * q,
                q >= 0x10_0000_0000_0000,
                b == 0x10_0000_0000_0000 * v,
                v > 0,
        ;
        if x >= b {
            vstd::arithmetic::div_mod::lemma_div_is_ordered(b as int, x as int, v as int);
            vstd::arithmetic::div_mod::lemma_div_multiples_vanish(0x10_0000_0000_0000, v as int);
            assert(v * 0x10_0000_0000_0000 == b);
            lemma_last_place_shifted(x, i);
            lemma_last_place_pos(x / v);
            assert(v * last_place(x / v) >= v) by (nonlinear_arith)
                requires
                    last_place(x / v) >= 1,
                    v > 0,
            ;
        }
        lemma_rounded_at_most(x, j);
        lemma_rounded_at_least(y, j);
    }
}

/// Rounding adds no more than one part in `2^53`, and takes no more away.
pub proof fn lemma_rounding_error(x: nat)
    ensures
        (x - rounded(x)) * TWO_53 <= x,
        (rounded(x) - x) * TWO_53 <= x,
{
    let u = last_place(x);
    let q = x / u;
    let r = x % u;
    lemma_rounded_close(x);
    lemma_last_place_pos(x);
    lemma_last_place_small(x);
    vstd::arithmetic::div_mod::lemma_fundamental_div_mod(x as int, u as int);
    assert(q * u == u * q && (q + 1) * u == u * q + u) by (nonlinear_arith);
    if rounded(x) != q * u {
        assert(2 * r >= u);
        if u == 1 {
            assert(r == 0);
        }
    }
}

/// The same of a ratio, but for half of one least positive value.
pub proof fn lemma_ratio_error(num: nat, den: nat)
    requires
        den > 0,
    ensures
        (num - rounded_ratio(num, den) * den) * TWO_53 <= num + 0x10_0000_0000_0000 * den,
        (rounded_ratio(num, den) * den - num) * TWO_53 <= num + 0x10_0000_0000_0000 * den,
{
    let x = num / den;
    let u = last_place(x);
    let d = den * u;
    let q = num / d;
    let r = num % d;
    lemma_last_place_pos(x);
    lemma_last_place_small(x);
    vstd::arithmetic::div_mod::lemma_fundamental_div_mod(num as int, den as int);
    assert(d > 0) by (nonlinear_arith)
        requires
            d == den * u,
            den > 0,
            u > 0,
    ;
    vstd::arithmetic::div_mod::lemma_fundamental_div_mod(num as int, d as int);
    assert((q * u) * den == d * q && ((q + 1) * u) * den == d * q + d) by (nonlinear_arith)
        requires
            d == den * u,
    ;
    assert(u == 1 || d * 0x10_0000_0000_0000 <= num) by (nonlinear_arith)
        requires
            u == 1 || u * 0x10_0000_0000_0000 <= x,
            den * x <= num,
            d == den * u,
            den > 0,
    ;
    if u == 1 {
        assert(den * 1 == den);
    }
}

/// The square of a rounded square root is off from the number by no more than two parts in
/// `2^52`.
pub proof fn lemma_root_error(x: nat, s: nat)
    requires
        is_whole_root(s, x),
        s >= TWO_53,
    ensures
        (x - rounded_root(x) * rounded_root(x)) * 0x10_0000_0000_0000 <= 2 * x,
        (rounded_root(x) * rounded_root(x) - x) * 0x10_0000_0000_0000 <= 2 * x,
{
    let u = last_place(s);
    let q = s / u;
    let middle = (2 * q + 1) * u;
    let r = rounded_root(x);
    let p: int = 0x10_0000_0000_0000;
    lemma_whole_root(s, x);
    lemma_last_place_pos(s);
    lemma_last_place_small(s);
    lemma_last_place_pos(s / 2);
    assert(u >= 2);
    assert(u * p <= s);
    vstd::arithmetic::div_mod::lemma_fundamental_div_mod(s as int, u as int);
    assert(q * u == u * q && (q + 1) * u == u * q + u && middle == 2 * (u * q) + u)
        by (nonlinear_arith)
        requires
            middle == (2 * q + 1) * u,
    ;
    if 4 * x < middle * middle || (4 * x == middle * middle && q % 2 == 0) {
        assert(r == u * q);
        assert(x - r * r <= r * u + u * u && r * r <= x) by (nonlinear_arith)
            requires
                4 * x <= middle * middle,
                middle == 2 * r + u,
                r <= s,
                s * s <= x,
                u >= 0,
        ;
        assert((r * u + u * u) * p <= 2 * x) by (nonlinear_arith)
            requires
                u * p <= s,
                r <= s,
                u <= s,
                s * s <= x,
                p > 0,
                u > 0,
        {
            assert((r * u) * p == r * (u * p));
            assert(r * (u * p) <= s * s);
            assert((u * u) * p == u * (u * p));
            assert(u * (u * p) <= s * s);
        }
    } else {
        assert(r == u * q + u);
        assert(r * r - x <= r * u && r * r >= x) by (nonlinear_arith)
            requires
                4 * x >= middle * middle,
                middle == 2 * r - u,
                r >= s + 1,
                x < (s + 1) * (s + 1),
                u >= 0,
        ;
        assert((r * u) * p <= 2 * x) by (nonlinear_arith)
            requires
                u * p <= s,
                r <= 2 * s,
                s * s <= x,
                p > 0,
                u > 0,
                r >= 0,
        {
            assert((r * u) * p == r * (u * p));
            assert(r * (u * p) <= r * s);
            assert(r * s <= (2 * s) * s);
        }
    }
}

/// No number of 53 significant bits lies strictly between two neighbouring multiples of the
/// last place.
proof fn lemma_nothing_between(x: nat, y: nat)
    requires
        rounded(y) == y,
    ensures
        y <= (x / last_place(x)) * last_place(x) || y >= (x / last_place(x) + 1) * last_place(x),
{
    let u = last_place(x);
    let q = x / u;
    let j = lemma_last_place_power(x);
    lemma_last_place_pos(x);
    assert((q + 1) * u == q * u + u && q * u == u * q) by (nonlinear_arith);
    if q * u < y < (q + 1) * u {
        vstd::arithmetic::div_mod::lemma_fundamental_div_mod_converse(
            y as int,
            u as int,
            q as int,
            y - q * u,
        );
        if x >= TWO_53 {
            lemma_last_place_shifted(y, j);
            assert(last_place(q) == 1);
            assert(last_place(y) == u);
            assert(1 * u == u);
        }
    }
}

/// A rounded ratio lies nearest to the ratio: no number of 53 significant bits lies nearer,
/// and where another lies as near, the last of the significant bits is zero.
pub proof fn lemma_ratio_is_nearest(num: nat, den: nat, y: nat)
    requires
        den > 0,
        rounded(y) == y,
    ensures
        ({
            let r = rounded_ratio(num, den);
            let off = vstd::math::abs(num - r * den);
            let other = vstd::math::abs(num - y * den);
            &&& off <= other
            &&& off == other && y != r ==> (r / last_place(r)) % 2 == 0
        }),
{
    let x = num / den;
    let u = last_place(x);
    let d = den * u;
    let q = num / d;
    let rest = num % d;
    let r = rounded_ratio(num, den);
    let j = lemma_last_place_power(x);
    lemma_last_place_pos(x);
    lemma_nothing_between(x, y);
    vstd::arithmetic::div_mod::lemma_div_denominator(num as int, den as int, u as int);
    assert(q == x / u);
    assert(d > 0) by (nonlinear_arith)
        requires
            d == den * u,
            den > 0,
            u > 0,
    ;
    vstd::arithmetic::div_mod::lemma_fundamental_div_mod(num as int, d as int);
    assert((q * u) * den == d * q && ((q + 1) * u) * den == d * q + d && (q + 1) * u == q * u + u)
        by (nonlinear_arith)
        requires
            d == den * u,
    ;
    let low = q * u;
    let high = (q + 1) * u;
    assert(y <= low ==> y * den <= low * den) by (nonlinear_arith);
    assert(y < low ==> y * den < low * den) by (nonlinear_arith)
        requires
            den > 0,
    ;
    assert(y >= high ==> y * den >= high * den) by (nonlinear_arith);
    assert(y > high ==> y * den > high * den) by (nonlinear_arith)
        requires
            den > 0,
    ;
    let k: nat = if r == low {
        q
    } else {
        q + 1
    };
    assert(r == k * u);
    assert(k * u == u * k + 0) by (nonlinear_arith);
    vstd::arithmetic::div_mod::lemma_fundamental_div_mod_converse(r as int, u as int, k as int, 0);
    if x >= TWO_53 || k >= 0x10_0000_0000_0000 {
        lemma_last_place_shifted(r, j);
        if k < TWO_53 {
            assert(last_place(k) == 1);
            assert(u * 1 == u);
            assert(last_place(r) == u);
        } else {
            assert(k == TWO_53);
            assert(last_place(k / 2) == 1);
            assert(last_place(k) == 2);
            assert(u * 2 == 2 * u);
            assert(r == (2 * u) * 0x10_0000_0000_0000 + 0) by (nonlinear_arith)
                requires
                    r == 0x20_0000_0000_0000 * u,
            ;
            vstd::arithmetic::div_mod::lemma_fundamental_div_mod_converse(
                r as int,
                2 * u as int,
                0x10_0000_0000_0000,
                0,
            );
        }
    } else {
        assert(u == 1);
        assert(r / 1 == r);
    }
}

/// A rounded square root lies nearest to the square root: the middle between it and a number
/// of 53 significant bits does not lie on its own side of the square root.
pub proof fn lemma_root_is_nearest(x: nat, s: nat, y: nat)
    requires
        is_whole_root(s, x),
        rounded(y) == y,
    ensures
        ({
            let r = rounded_root(x);
            &&& y > r ==> 4 * x <= (r + y) * (r + y)
            &&& y < r ==> (r + y) * (r + y) <= 4 * x
        }),
{
    let u = last_place(s);
    let q = s / u;
    let r = rounded_root(x);
    let middle = (2 * q + 1) * u;
    lemma_whole_root(s, x);
    lemma_last_place_pos(s);
    lemma_nothing_between(s, y);
    vstd::arithmetic::div_mod::lemma_fundamental_div_mod(s as int, u as int);
    assert(q * u == u * q && (q + 1) * u == u * q + u && middle == 2 * (u * q) + u)
        by (nonlinear_arith)
        requires
            middle == (2 * q + 1) * u,
    ;
    let z = r + y;
    if r == q * u {
        assert(y > r ==> z >= middle);
        assert(y < r ==> z <= 2 * s);
    } else {
        assert(y > r ==> z >= 2 * (s + 1));
        assert(y < r ==> z <= middle);
    }
    assert(z >= middle ==> z * z >= middle * middle) by (nonlinear_arith)
        requires
            middle >= 0,
    ;
    assert(z <= middle ==> z * z <= middle * middle) by (nonlinear_arith)
        requires
            z >= 0,
    ;
    assert(z <= 2 * s ==> z * z <= 4 * (s * s)) by (nonlinear_arith)
        requires
            z >= 0,
    ;
    assert(z >= 2 * (s + 1) ==> z * z >= 4 * ((s + 1) * (s + 1))) by (nonlinear_arith);
}

} // verus!
