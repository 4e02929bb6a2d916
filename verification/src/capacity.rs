//! How many samples a session keeps.
//!
//! The capacity of a rolling window is the product of a sampling rate and a number of
//! seconds in `binary64` arithmetic, rounded up.

use vstd::arithmetic::power2::*;
use vstd::prelude::*;

use crate::ieee::Double;
use crate::rounding::{scaled, Scaled, TWO_53, TWO_64};

verus! {

/// The least whole number that is no less than `x` least positive values.
pub open spec fn ceiling(x: nat) -> nat {
    (x + crate::rounding::one() - 1) as nat / crate::rounding::one()
}

/// `n`, but at least one and at most what a `usize` holds.
pub open spec fn at_least_one(n: nat) -> usize {
    if n == 0 {
        1
    } else if n > usize::MAX {
        usize::MAX
    } else {
        n as usize
    }
}

/// `d`, rounded up to a whole number, but at least one: one also where it is not a number.
pub open spec fn count_up(d: Double) -> usize {
    if d.is_nan() || d.value() <= 0 {
        1
    } else {
        at_least_one(ceiling(d.mag()))
    }
}

/// How many samples a rolling window of that many seconds keeps.
pub open spec fn window_size(sps: usize, seconds: Double) -> usize {
    count_up(crate::arith::times(crate::arith::whole(sps as nat), seconds))
}

/// How many samples a capture of that many seconds keeps: those of the capture, and of
/// one second more.
pub open spec fn capture_size(sps: usize, duration: Double) -> usize {
    window_size(sps, crate::arith::plus(duration, crate::arith::whole(1)))
}

/// Halving and rounding up, then rounding up once more, is rounding up once.
proof fn lemma_halve_up(n: nat, unit: nat)
    requires
        unit > 0,
    ensures
        (n + 2 * unit - 1) / (2 * unit) as int == ((n / 2 + n % 2) + unit - 1) / unit as int,
{
    let half = n / 2 + n % 2;
    let q = (half + unit - 1) / unit as int;
    let r = (half + unit - 1) % unit as int;
    vstd::arithmetic::div_mod::lemma_fundamental_div_mod(half + unit - 1, unit as int);
    let s = n + 2 * unit - 1 - q * (2 * unit);
    assert(q * (2 * unit) == 2 * (unit * q)) by (nonlinear_arith);
    assert(0 <= s < 2 * unit);
    vstd::arithmetic::div_mod::lemma_fundamental_div_mod_converse(
        n + 2 * unit - 1,
        2 * unit as int,
        q,
        s,
    );
}

/// Rounding a scaled number up to a whole one.
proof fn lemma_ceiling(n: nat, shift: nat)
    requires
        shift <= 1074,
    ensures
        ceiling(n * pow2(shift)) == (n + pow2((1074 - shift) as nat) - 1) / pow2(
            (1074 - shift) as nat,
        ) as int,
{
    let u = pow2(shift);
    let v = pow2((1074 - shift) as nat);
    lemma_pow2_adds(shift, (1074 - shift) as nat);
    lemma_pow2_pos(shift);
    lemma_pow2_pos((1074 - shift) as nat);
    let q = (n + v - 1) / v as int;
    let r = (n + v - 1) % v as int;
    vstd::arithmetic::div_mod::lemma_fundamental_div_mod(n + v - 1, v as int);
    let s = r * u + u - 1;
    assert(n * u + u * v - 1 == q * (u * v) + s) by (nonlinear_arith)
        requires
            n + v - 1 == v * q + r,
            s == r * u + u - 1,
    ;
    assert(0 <= s < u * v) by (nonlinear_arith)
        requires
            s == r * u + u - 1,
            0 <= r < v,
            u > 0,
    ;
    vstd::arithmetic::div_mod::lemma_fundamental_div_mod_converse(
        n * u + u * v - 1,
        u * v as int,
        q,
        s,
    );
}

/// A whole number needs no rounding up.
proof fn lemma_whole_ceiling(whole: nat)
    ensures
        ceiling(whole * crate::rounding::one()) == whole,
{
    lemma_pow2_pos(1074);
    vstd::arithmetic::div_mod::lemma_fundamental_div_mod_converse(
        whole * crate::rounding::one() + crate::rounding::one() - 1,
        crate::rounding::one() as int,
        whole as int,
        crate::rounding::one() - 1,
    );
}

/// The least whole number that is no less than `x`, but at least one and at most what a
/// `usize` holds.
fn ceil(x: Scaled) -> (r: usize)
    requires
        x.n <= TWO_53,
        x.shift <= 4096,
    ensures
        r == at_least_one(ceiling(x.value())),
{
    let mut n: u128 = x.n as u128;
    let mut shift: u32 = x.shift;
    proof {
        lemma_pow2_pos(1074);
        lemma2_to64();
    }
    while shift < 1074
        invariant
            n <= TWO_53,
            shift <= 4096,
            ceiling(n as nat * pow2(shift as nat)) == ceiling(x.value()),
        decreases 1074 - shift,
    {
        proof {
            let s = shift as nat;
            let t = (1074 - s) as nat;
            let u = (t - 1) as nat;
            let half = n as nat / 2 + n as nat % 2;
            lemma_ceiling(n as nat, s);
            lemma_ceiling(half, s + 1);
            lemma_pow2_adds(1, u);
            lemma2_to64();
            lemma_pow2_pos(u);
            lemma_halve_up(n as nat, pow2(u));
        }
        n = n / 2 + n % 2;
        shift = shift + 1;
    }
    proof {
        let k = (shift - 1074) as nat;
        lemma_pow2_adds(1074, k);
        let whole = n as nat * pow2(k);
        assert(n as nat * pow2(shift as nat) == whole * crate::rounding::one()) by (nonlinear_arith)
            requires
                pow2(shift as nat) == crate::rounding::one() * pow2(k),
                whole == n as nat * pow2(k),
        ;
        lemma_whole_ceiling(whole);
    }
    while shift > 1074 && n < TWO_64
        invariant
            1074 <= shift <= 4096,
            n <= 2 * TWO_64,
            ceiling(x.value()) == n as nat * pow2((shift - 1074) as nat),
        decreases shift,
    {
        proof {
            let k = (shift - 1075) as nat;
            lemma_pow2_adds(1, k);
            lemma2_to64();
            assert(n as nat * pow2((shift - 1074) as nat) == (2 * n as nat) * pow2(k))
                by (nonlinear_arith)
                requires
                    pow2((shift - 1074) as nat) == 2 * pow2(k),
            ;
        }
        n = 2 * n;
        shift = shift - 1;
    }
    proof {
        let k = (shift - 1074) as nat;
        lemma2_to64();
        lemma_pow2_pos(k);
        assert(n as nat * pow2(k) >= n) by (nonlinear_arith)
            requires
                pow2(k) >= 1,
        ;
        if k == 0 {
            assert(n as nat * 1 == n);
        }
    }
    if n == 0 {
        1
    } else if n > usize::MAX as u128 {
        usize::MAX
    } else {
        n as usize
    }
}

/// How many samples a rolling window of that many seconds keeps.
pub fn window_capacity(sps: usize, seconds: Double) -> (r: usize)
    ensures
        r == window_size(sps, seconds),
{
    let d: Double = Double::from_whole(sps as u64).product(seconds);
    let zero: Double = Double { bits: 0 };
    assert(!zero.is_nan() && zero.value() == 0);
    if zero.less(d) {
        ceil(scaled(d))
    } else {
        1
    }
}

/// How many samples a capture of that many seconds keeps.
pub fn capture_capacity(sps: usize, duration: Double) -> (r: usize)
    ensures
        r == capture_size(sps, duration),
{
    window_capacity(sps, duration.sum(Double::from_whole(1)))
}

/// A window has room for the rounded product of its rate and its seconds.
proof fn lemma_window(sps: usize, seconds: Double)
    requires
        sps < TWO_53,
        seconds.is_finite(),
        seconds.value() >= 0,
        seconds.mag() <= pow2(1174),
    ensures
        window_size(sps, seconds) == at_least_one(
            ceiling(crate::rounding::rounded(sps as nat * seconds.mag())),
        ),
{
    let o = crate::rounding::one();
    let n = sps as nat;
    let w = crate::arith::whole(n);
    let x = seconds.mag();
    let p = crate::arith::times(w, seconds);
    lemma2_to64_rest();
    lemma_pow2_pos(1074);
    crate::arith::lemma_whole(n, 53);
    crate::rounding::lemma_rounded_scaled(n, 1074);
    crate::rounding::lemma_small_is_exact(n);
    crate::arith::lemma_times(w, seconds, 1127, 1174);
    assert((n * o) * x == o * (n * x)) by (nonlinear_arith);
    crate::rounding::lemma_whole_ratio(n * x, o);
    assert(p.mag() == crate::rounding::rounded(n * x));
    if p.value() <= 0 {
        assert(p.mag() == 0) by {
            if seconds.negative() {
                assert(x == 0);
                assert(n * 0 == 0);
                crate::rounding::lemma_small_is_exact(0);
            }
        }
        vstd::arithmetic::div_mod::lemma_basic_div(o - 1, o as int);
    }
}

/// A capture has room for all that the rate takes in its duration, by exact arithmetic:
/// the second more outweighs all rounding.
pub proof fn lemma_capture_has_room(sps: usize, duration: Double)
    requires
        sps < TWO_53,
        !duration.is_nan(),
        0 <= duration.value() <= 0x1_0000_0000_0000 * crate::rounding::one(),
        sps * duration.value() <= usize::MAX * crate::rounding::one(),
    ensures
        sps * duration.value() <= capture_size(sps, duration) * crate::rounding::one(),
{
    let o = crate::rounding::one();
    let d = duration.mag();
    let n = sps as nat;
    lemma_duration(duration);
    assert(duration.value() == d);
    let e = crate::arith::plus(duration, crate::arith::whole(1));
    let a = crate::rounding::rounded(d + o);
    let b = crate::rounding::rounded(n * a);
    lemma_window(sps, e);
    lemma_pow2_pos(1074);
    crate::rounding::lemma_rounded_close(d + o);
    crate::rounding::lemma_rounded_close(n * a);
    assert(b >= n * d) by (nonlinear_arith)
        requires
            ((d + o) - a) * TWO_53 <= d + o,
            (n * a - b) * TWO_53 <= n * a,
            d <= 0x1_0000_0000_0000 * o,
            o > 0,
    ;
    vstd::arithmetic::div_mod::lemma_fundamental_div_mod(b + o - 1, o as int);
    let up = ceiling(b);
    assert(up * o >= b) by {
        assert(o * up == up * o) by (nonlinear_arith);
    }
    if up == 0 {
        assert(0 * o == 0);
    }
}

/// A duration and one second more.
proof fn lemma_duration(duration: Double)
    requires
        !duration.is_nan(),
        0 <= duration.value() <= TWO_53 * crate::rounding::one(),
    ensures
        duration.is_finite(),
        duration.value() == duration.mag(),
        ({
            let e = crate::arith::plus(duration, crate::arith::whole(1));
            &&& e.is_finite()
            &&& e.value() >= 0
            &&& e.mag() == crate::rounding::rounded(duration.mag() + crate::rounding::one())
            &&& e.mag() <= pow2(1174)
        }),
{
    let o = crate::rounding::one();
    let w = crate::arith::whole(1);
    lemma2_to64();
    lemma2_to64_rest();
    lemma_pow2_pos(1074);
    lemma_pow2_adds(53, 1074);
    lemma_pow2_strictly_increases(1127, 2098);
    lemma_pow2_strictly_increases(1128, 1174);
    if duration.is_infinite() {
        lemma_pow2_adds(52, 2046);
    }
    crate::arith::lemma_whole(1, 0);
    lemma_pow2_strictly_increases(1074, 1127);
    crate::rounding::lemma_power_is_exact(1074);
    assert(1 * o == o);
    crate::arith::lemma_plus(duration, w, 1127);
    let e = crate::arith::plus(duration, w);
    assert(e.value() == crate::rounding::rounded(duration.mag() + o));
}

/// A whole number of seconds needs no rounding: a window keeps exactly what the rate
/// takes in them, and a capture what it takes in one second more.
pub proof fn lemma_whole_seconds(sps: usize, seconds: Double, n: nat)
    requires
        !seconds.is_nan(),
        seconds.value() == crate::ieee::double_of(n),
        sps > 0,
        sps * (n + 1) < TWO_53,
        sps * (n + 1) <= usize::MAX,
    ensures
        n > 0 ==> window_size(sps, seconds) == sps * n,
        capture_size(sps, seconds) == sps * (n + 1),
{
    let o = crate::rounding::one();
    let s = sps as nat;
    lemma_pow2_pos(1074);
    assert(n * o + o == (n + 1) * o) by (nonlinear_arith);
    assert(n + 1 < TWO_53 && s * n < TWO_53 && s * n <= s * (n + 1) && s < TWO_53)
        by (nonlinear_arith)
        requires
            s > 0,
            s * (n + 1) < TWO_53,
    ;
    assert(n * o <= TWO_53 * o) by (nonlinear_arith)
        requires
            n <= TWO_53,
            o > 0,
    ;
    lemma_duration(seconds);
    lemma_pow2_adds(53, 1074);
    lemma2_to64_rest();
    lemma_pow2_strictly_increases(1127, 1174);
    lemma_window(sps, seconds);
    lemma_window(sps, crate::arith::plus(seconds, crate::arith::whole(1)));
    crate::rounding::lemma_rounded_scaled(n + 1, 1074);
    crate::rounding::lemma_small_is_exact(n + 1);
    lemma_exact_product(s, n);
    lemma_exact_product(s, n + 1);
    assert(n > 0 ==> s * n > 0) by (nonlinear_arith)
        requires
            s > 0,
    ;
    assert(s * (n + 1) > 0) by (nonlinear_arith)
        requires
            s > 0,
    ;
}

proof fn lemma_exact_product(s: nat, n: nat)
    requires
        s * n < TWO_53,
    ensures
        ceiling(crate::rounding::rounded(s * (n * crate::rounding::one()))) == s * n,
{
    assert(s * (n * crate::rounding::one()) == (s * n) * crate::rounding::one())
        by (nonlinear_arith);
    crate::rounding::lemma_rounded_scaled(s * n, 1074);
    crate::rounding::lemma_small_is_exact(s * n);
    lemma_whole_ceiling(s * n);
}

/// A window keeps what the rate takes in its seconds, rounded up: no less than the exact
/// product and less than one sample more, but for rounding it once to 53 bits; and at
/// least one.
pub proof fn lemma_window_size(sps: usize, seconds: Double)
    requires
        sps < TWO_53,
        seconds.is_finite(),
        seconds.value() >= 0,
        seconds.mag() <= pow2(1174),
    ensures
        ({
            let o = crate::rounding::one();
            let w = window_size(sps, seconds);
            let exact = sps * seconds.value();
            &&& w >= 1
            &&& w == usize::MAX || (exact - w * o) * TWO_53 <= exact
            &&& w == 1 || ((w - 1) * o - exact) * TWO_53 <= exact
        }),
{
    let o = crate::rounding::one();
    let w = window_size(sps, seconds);
    let y = sps as nat * seconds.mag();
    let b = crate::rounding::rounded(y);
    let up = ceiling(b);
    lemma_pow2_pos(1074);
    assert(seconds.value() == seconds.mag());
    lemma_window(sps, seconds);
    crate::rounding::lemma_rounding_error(y);
    vstd::arithmetic::div_mod::lemma_fundamental_div_mod(b + o - 1, o as int);
    assert(o * up == up * o) by (nonlinear_arith);
    if w != usize::MAX {
        if up == 0 {
            assert(0 * o == 0);
            assert(w * o >= 0) by (nonlinear_arith)
                requires
                    w >= 0,
                    o >= 0,
            ;
        }
        assert(y - w * o <= y - b);
    }
    if w != 1 {
        assert((w - 1) * o <= up * o - o) by (nonlinear_arith)
            requires
                w <= up,
                o > 0,
        ;
    }
}

/// A window of no time, or of a time that is not a number, keeps one sample; one without
/// end keeps all that there is room for.
pub proof fn lemma_window_without_time(sps: usize, seconds: Double)
    ensures
        seconds.is_nan() || seconds.value() <= 0 ==> window_size(sps, seconds) == 1,
        seconds.is_infinite() && !seconds.negative() && sps > 0 ==> window_size(sps, seconds)
            == usize::MAX,
{
    let o = crate::rounding::one();
    let n = sps as nat;
    let w = crate::arith::whole(n);
    let p = crate::arith::times(w, seconds);
    lemma2_to64_rest();
    lemma_pow2_pos(1074);
    lemma_pow2_pos(2098);
    crate::arith::lemma_whole(n, 64);
    lemma_infinity(true);
    lemma_infinity(false);
    if seconds.is_infinite() {
        lemma_pow2_adds(52, 2046);
        assert(seconds.mag() == pow2(2098));
        if !seconds.negative() && sps > 0 {
            lemma_pow2_adds(1024, 1074);
            assert(p.mag() == pow2(1024) * o);
            lemma_whole_ceiling(pow2(1024));
            lemma_pow2_strictly_increases(64, 1024);
        }
    } else if !seconds.is_nan() && seconds.value() <= 0 {
        let num = w.mag() * seconds.mag();
        let mag = crate::rounding::rounded_ratio(num, o);
        crate::rounding::lemma_rounded_ratio_is_exact(num, o);
        if seconds.mag() == 0 {
            assert(w.mag() * 0 == 0);
            crate::arith::lemma_rounds_to_zero(0, o);
        }
        if mag < pow2(2098) {
            crate::arith::lemma_encoded(seconds.negative(), mag);
        } else {
            assert(seconds.mag() != 0);
        }
        assert(p.value() <= 0);
    }
}

/// The value that stands for what lies beyond the greatest one.
proof fn lemma_infinity(negative: bool)
    ensures
        ({
            let d = crate::arith::encoded(negative, pow2(2098));
            &&& forall|mag: nat|
                mag >= pow2(2098) ==> #[trigger] crate::arith::encoded(negative, mag) == d
            &&& !d.is_nan()
            &&& d.negative() == negative
            &&& d.mag() == pow2(2098)
        }),
{
    let d = crate::arith::encoded(negative, pow2(2098));
    lemma2_to64_rest();
    lemma_pow2_adds(52, 2046);
    assert(d.exp() == 0x7ff && d.man() == 0);
}

/// A capture keeps what the rate takes in its duration and one second more, rounded up: no
/// less than that and less than one sample more, but for rounding twice to 53 bits.
pub proof fn lemma_capture_size(sps: usize, duration: Double)
    requires
        sps < TWO_53,
        !duration.is_nan(),
        0 <= duration.value() <= TWO_53 * crate::rounding::one(),
    ensures
        ({
            let o = crate::rounding::one();
            let w = capture_size(sps, duration);
            let exact = sps * (duration.value() + o);
            &&& w >= 1
            &&& w == usize::MAX || (exact - w * o) * 0x8_0000_0000_0000 <= exact
            &&& w == 1 || ((w - 1) * o - exact) * 0x8_0000_0000_0000 <= exact
        }),
{
    let o = crate::rounding::one();
    let w = capture_size(sps, duration);
    let n = sps as int;
    lemma_duration(duration);
    let e = crate::arith::plus(duration, crate::arith::whole(1));
    let d = duration.mag() + o;
    let a = crate::rounding::rounded(d);
    crate::rounding::lemma_rounding_error(d);
    lemma_window_size(sps, e);
    assert(e.value() == a);
    let x = n * d;
    let y = n * a;
    assert(-x <= (y - x) * TWO_53 <= x) by (nonlinear_arith)
        requires
            (d - a) * TWO_53 <= d,
            (a - d) * TWO_53 <= d,
            x == n * d,
            y == n * a,
            n >= 0,
    {
        assert((y - x) * TWO_53 == n * ((a - d) * TWO_53));
        assert(n * ((a - d) * TWO_53) <= n * d);
        assert(n * ((d - a) * TWO_53) <= n * d);
        assert(n * ((d - a) * TWO_53) == -((y - x) * TWO_53));
    }
    assert(x >= 0) by (nonlinear_arith)
        requires
            x == n * d,
            n >= 0,
            d >= 0,
    ;
    let v = w * o;
    if w != usize::MAX {
        assert((x - v) * 0x8_0000_0000_0000 <= x);
    }
    if w != 1 {
        let u = (w - 1) * o;
        assert((u - x) * 0x8_0000_0000_0000 <= x);
    }
}

} // verus!
