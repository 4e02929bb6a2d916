//! What holds of the figures of a session.

use vstd::arithmetic::power2::*;
use vstd::prelude::*;

use crate::ieee::Double;
use crate::samples::{Sample, SharedView, Stats};

verus! {

/// Whether every current is a number, and not an infinity.
pub open spec fn all_finite(history: Seq<Sample>) -> bool {
    forall|i: int| 0 <= i < history.len() ==> (#[trigger] history[i]).ua.is_finite()
}

/// The running sums stay finite, however many samples come: once a sum is so great that
/// it might grow too great, a current is lost in rounding beside it.
proof fn lemma_sums_bounded(history: Seq<Sample>)
    requires
        all_finite(history),
    ensures
        crate::arith::within(crate::samples::running_sum(history), 1257),
        crate::arith::within(crate::samples::running_squares(history), 1385),
    decreases history.len(),
{
    if history.len() == 0 {
        lemma_zero();
        lemma_pow2_pos(1257);
        lemma_pow2_pos(1385);
    } else {
        let before = history.drop_last();
        assert forall|i: int| 0 <= i < before.len() implies (#[trigger] before[i]).ua.is_finite() by {
            assert(before[i] == history[i]);
        }
        lemma_sums_bounded(before);
        assert(history[history.len() - 1].ua.is_finite());
        let v = crate::arith::widened(history.last().ua);
        crate::arith::lemma_widened(history.last().ua);
        crate::arith::lemma_plus_small(crate::samples::running_sum(before), v, 1202, 1257);
        crate::arith::lemma_times(v, v, 1202, 1202);
        crate::arith::lemma_plus_small(
            crate::samples::running_squares(before),
            crate::arith::times(v, v),
            1330,
            1385,
        );
    }
}

proof fn lemma_zero()
    ensures
        (Double { bits: 0 }).is_finite(),
        (Double { bits: 0 }).mag() == 0,
        (Double { bits: 0 }).value() == 0,
{
}

/// The extremes of finite samples are finite, and in order.
proof fn lemma_extremes_finite(history: Seq<Sample>)
    requires
        all_finite(history),
        history.len() > 0,
    ensures
        crate::samples::running_min(history).is_finite(),
        crate::samples::running_max(history).is_finite(),
        crate::samples::running_min(history).value() <= crate::samples::running_max(
            history,
        ).value(),
{
    let first = history[0].ua;
    let low = crate::samples::running_min(history);
    let high = crate::samples::running_max(history);
    crate::samples::lemma_extremes(history);
    crate::samples::lemma_samples_between_extremes(history, 0);
    lemma2_to64();
    crate::ieee::lemma_magnitude_order(first.exp(), first.man(), 0xff, 0, 23);
    if low.bits == crate::ieee::SINGLE_INFINITY {
        assert(low.exp() == 0xff && low.man() == 0);
        assert(first.lt(low));
    }
    if high.bits == crate::ieee::SINGLE_NEG_INFINITY {
        assert(high.exp() == 0xff && high.man() == 0);
        assert(high.lt(first));
    }
}

/// A count is that of a whole number with a bound.
proof fn lemma_count(n: nat)
    requires
        n <= u64::MAX,
    ensures
        crate::arith::within(crate::arith::whole(n), 1138),
        !crate::arith::whole(n).negative(),
        n > 0 ==> crate::arith::whole(n).mag() >= crate::rounding::one(),
        crate::arith::whole(n).mag() == crate::rounding::rounded(n * crate::rounding::one()),
{
    lemma2_to64_rest();
    crate::arith::lemma_whole(n, 64);
}

/// A quotient by a rate keeps a bound.
proof fn lemma_per_rate(total: Double, sps: usize, j: nat)
    requires
        crate::arith::within(total, j),
        j <= 2000,
    ensures
        crate::arith::within(crate::samples::per_rate(total, sps), j),
{
    lemma_zero();
    if sps > 0 {
        lemma_count(sps as nat);
        crate::arith::lemma_over(total, crate::arith::whole(sps as nat), j);
    }
}

/// The variance is finite, and not below zero.
proof fn lemma_variance(history: Seq<Sample>)
    requires
        all_finite(history),
        0 < history.len() <= u64::MAX,
    ensures
        crate::arith::within(crate::samples::mean(history), 1257),
        crate::arith::within(crate::samples::variance(history), 1441),
        crate::samples::variance(history).value() >= 0,
{
    let n = crate::arith::whole(history.len());
    let m = crate::samples::mean(history);
    let squares = crate::arith::over(crate::samples::running_squares(history), n);
    lemma_sums_bounded(history);
    lemma_count(history.len());
    crate::arith::lemma_over(crate::samples::running_sum(history), n, 1257);
    crate::arith::lemma_over(crate::samples::running_squares(history), n, 1385);
    crate::arith::lemma_times(m, m, 1257, 1257);
    lemma_pow2_strictly_increases(1385, 1440);
    crate::arith::lemma_minus(squares, crate::arith::times(m, m), 1440);
    lemma_zero();
}

/// The fraction of samples in which a pin read high lies between zero and one.
pub proof fn lemma_duty_is_a_fraction(history: Seq<Sample>, i: int)
    requires
        0 < history.len() <= u64::MAX,
    ensures
        crate::samples::duty(history, i).is_finite(),
        0 <= crate::samples::duty(history, i).value() <= crate::rounding::one(),
{
    let o = crate::rounding::one();
    let k = crate::samples::high_count(history, i);
    let a = crate::arith::whole(k);
    let b = crate::arith::whole(history.len());
    crate::samples::lemma_high_count_bounded(history, i);
    lemma_count(k);
    lemma_count(history.len());
    lemma_pow2_pos(1074);
    assert(k * o <= history.len() * o) by (nonlinear_arith)
        requires
            k <= history.len(),
            o > 0,
    ;
    crate::rounding::lemma_rounded_monotone(k * o, history.len() * o);
    crate::arith::lemma_over(a, b, 1138);
    assert(a.mag() * o <= b.mag() * o) by (nonlinear_arith)
        requires
            a.mag() <= b.mag(),
            o > 0,
    ;
    crate::rounding::lemma_ratio_at_most(a.mag() * o, b.mag(), 1074);
}

/// Where every current is finite, every figure is, however many samples came; the
/// standard deviation is not below zero, the minimum not above the maximum, and each duty
/// cycle between zero and one.
pub proof fn lemma_figures_are_finite(s: SharedView)
    requires
        all_finite(s.history),
        s.history.len() <= u64::MAX,
    ensures
        ({
            let stats = crate::samples::stats_of(s);
            &&& stats.duration_s.is_finite()
            &&& stats.mean_ua.is_finite()
            &&& stats.min_ua.is_finite()
            &&& stats.max_ua.is_finite()
            &&& stats.stddev_ua.is_finite()
            &&& stats.charge_uc.is_finite()
            &&& stats.charge_mah.is_finite()
            &&& stats.avg_ma.is_finite()
            &&& stats.stddev_ua.value() >= 0
            &&& stats.min_ua.value() <= stats.max_ua.value()
            &&& forall|i: int|
                0 <= i < 8 ==> (#[trigger] stats.pin_duty@[i]).is_finite() && 0
                    <= stats.pin_duty@[i].value() <= crate::rounding::one()
        }),
{
    let h = s.history;
    lemma_zero();
    lemma_pow2_pos(1074);
    if h.len() > 0 {
        let charge = crate::samples::per_rate(crate::samples::running_sum(h), s.sps);
        lemma_variance(h);
        lemma_sums_bounded(h);
        lemma_count(h.len());
        lemma_per_rate(crate::arith::whole(h.len()), s.sps, 1138);
        lemma_per_rate(crate::samples::running_sum(h), s.sps, 1257);
        lemma_count(crate::samples::UC_PER_MAH as nat);
        lemma_count(1000);
        crate::arith::lemma_over(
            charge,
            crate::arith::whole(crate::samples::UC_PER_MAH as nat),
            1257,
        );
        crate::arith::lemma_over(crate::samples::mean(h), crate::arith::whole(1000), 1257);
        let v = crate::samples::variance(h);
        let o = crate::rounding::one();
        lemma_pow2_adds(1441, 1074);
        lemma_pow2_adds(1258, 1258);
        lemma_pow2_strictly_increases(2515, 2516);
        assert(v.mag() * o <= pow2(1441) * pow2(1074)) by (nonlinear_arith)
            requires
                v.mag() <= pow2(1441),
                o == pow2(1074),
        ;
        crate::arith::lemma_root(v, 1258);
        lemma_extremes_finite(h);
        let low = crate::samples::running_min(h);
        let high = crate::samples::running_max(h);
        crate::arith::lemma_widened(low);
        crate::arith::lemma_widened(high);
        assert(low.value() * pow2(925) <= high.value() * pow2(925)) by (nonlinear_arith)
            requires
                low.value() <= high.value(),
                pow2(925) >= 0,
        ;
        lemma_duty_is_a_fraction(h, 0);
        lemma_duty_is_a_fraction(h, 1);
        lemma_duty_is_a_fraction(h, 2);
        lemma_duty_is_a_fraction(h, 3);
        lemma_duty_is_a_fraction(h, 4);
        lemma_duty_is_a_fraction(h, 5);
        lemma_duty_is_a_fraction(h, 6);
        lemma_duty_is_a_fraction(h, 7);
    }
}

/// Two to the power of 52.
pub const TWO_52: u64 = 0x10_0000_0000_0000;

/// The sum of the currents by exact arithmetic, in least positive values.
pub open spec fn exact_sum(history: Seq<Sample>) -> int
    decreases history.len(),
{
    if history.len() == 0 {
        0
    } else {
        exact_sum(history.drop_last()) + crate::arith::widened(history.last().ua).value()
    }
}

/// Whether no current lies outside these bounds, in least positive values.
pub open spec fn all_between(history: Seq<Sample>, low: int, high: int) -> bool {
    forall|i: int|
        0 <= i < history.len() ==> low <= crate::arith::widened(
            (#[trigger] history[i]).ua,
        ).value() <= high
}

/// One more step of a sum that is rounded at each step: `sum` for `exact` so far, of `k`
/// terms of at most `m`, and then the term `v`.
proof fn lemma_one_more_term(sum: int, exact: int, v: int, next: int, k: nat, m: nat)
    requires
        k < TWO_52,
        -(k * m) <= exact <= k * m,
        -(k * k * m) <= (sum - exact) * TWO_52 <= k * k * m,
        -m <= v <= m,
        next == crate::arith::rounded_value(sum + v),
    ensures
        -((k + 1) * m) <= exact + v <= (k + 1) * m,
        -((k + 1) * (k + 1) * m) <= (next - (exact + v)) * TWO_52 <= (k + 1) * (k + 1) * m,
{
    let x = sum + v;
    let a: nat = if x < 0 {
        (-x) as nat
    } else {
        x as nat
    };
    crate::rounding::lemma_rounding_error(a);
    assert((k + 1) * m == k * m + m) by (nonlinear_arith);
    assert(-(k * m) <= sum - exact <= k * m) by (nonlinear_arith)
        requires
            -(k * k * m) <= (sum - exact) * TWO_52 <= k * k * m,
            k <= TWO_52,
            m >= 0,
            k >= 0,
    {
        assert(k * k * m <= (k * m) * TWO_52);
    }
    assert(a <= 2 * (k * m) + m);
    assert(-(a as int) <= (next - x) * (2 * TWO_52) <= a) by {
        assert(((a - crate::rounding::rounded(a)) * crate::rounding::TWO_53) <= a);
        assert(((crate::rounding::rounded(a) - a) * crate::rounding::TWO_53) <= a);
    }
    assert((next - (exact + v)) * (2 * TWO_52) == (next - x) * (2 * TWO_52) + 2 * ((sum - exact)
        * TWO_52)) by (nonlinear_arith)
        requires
            x == sum + v,
    ;
    assert(2 * ((k + 1) * (k + 1) * m) >= 2 * (k * k * m) + 2 * (k * m) + m) by (nonlinear_arith)
        requires
            m >= 0,
    {
        assert((k + 1) * (k + 1) * m == k * k * m + 2 * (k * m) + m);
    }
}

/// The running sum is off from the exact one by no more than one part in `2^52` of the
/// greatest current, times the square of the number of samples.
pub proof fn lemma_sum_error(history: Seq<Sample>, m: nat)
    requires
        all_finite(history),
        all_between(history, -m, m as int),
        history.len() <= TWO_52,
    ensures
        -(history.len() * m) <= exact_sum(history) <= history.len() * m,
        -(history.len() * history.len() * m) <= (crate::samples::running_sum(history).value()
            - exact_sum(history)) * TWO_52 <= history.len() * history.len() * m,
    decreases history.len(),
{
    if history.len() == 0 {
        lemma_zero();
        assert(0 * m == 0 && 0 * 0 * m == 0);
    } else {
        let before = history.drop_last();
        assert forall|i: int| 0 <= i < before.len() implies (#[trigger] before[i]).ua.is_finite() by {
            assert(before[i] == history[i]);
        }
        assert forall|i: int| 0 <= i < before.len() implies -m <= crate::arith::widened(
            (#[trigger] before[i]).ua,
        ).value() <= m by {
            assert(before[i] == history[i]);
        }
        lemma_sum_error(before, m);
        lemma_sums_bounded(before);
        assert(history[history.len() - 1].ua.is_finite());
        let v = crate::arith::widened(history.last().ua);
        crate::arith::lemma_widened(history.last().ua);
        lemma_pow2_strictly_increases(1202, 1257);
        crate::arith::lemma_plus(crate::samples::running_sum(before), v, 1257);
        lemma_one_more_term(
            crate::samples::running_sum(before).value(),
            exact_sum(before),
            v.value(),
            crate::samples::running_sum(history).value(),
            before.len(),
            m,
        );
    }
}

/// The exact sum lies between the extremes, times the number of samples.
proof fn lemma_exact_sum_between(history: Seq<Sample>, low: int, high: int)
    requires
        all_between(history, low, high),
    ensures
        history.len() * low <= exact_sum(history) <= history.len() * high,
    decreases history.len(),
{
    if history.len() == 0 {
        assert(0 * low == 0 && 0 * high == 0);
    } else {
        let before = history.drop_last();
        assert forall|i: int| 0 <= i < before.len() implies low <= crate::arith::widened(
            (#[trigger] before[i]).ua,
        ).value() <= high by {
            assert(before[i] == history[i]);
        }
        lemma_exact_sum_between(before, low, high);
        assert(history[history.len() - 1] == history.last());
        let n = before.len() as int;
        assert((n + 1) * low == n * low + low && (n + 1) * high == n * high + high)
            by (nonlinear_arith);
    }
}

/// The mean is off from the running sum over the number of samples by no more than
/// rounding once.
proof fn lemma_mean_error(history: Seq<Sample>)
    requires
        all_finite(history),
        0 < history.len() <= TWO_52,
    ensures
        ({
            let sum = crate::samples::running_sum(history);
            let n = history.len();
            let off = sum.value() - crate::samples::mean(history).value() * n;
            &&& -(sum.mag() + TWO_52 * n) <= off * (2 * TWO_52) <= sum.mag() + TWO_52 * n
            &&& sum.mag() == 0 ==> crate::samples::mean(history).value() == 0
        }),
{
    let o = crate::rounding::one();
    let sum = crate::samples::running_sum(history);
    let n = history.len();
    let w = crate::arith::whole(n);
    let mean = crate::samples::mean(history);
    lemma_sums_bounded(history);
    lemma_count(n);
    lemma_pow2_pos(1074);
    crate::rounding::lemma_rounded_scaled(n, 1074);
    crate::rounding::lemma_small_is_exact(n);
    assert(w.mag() == n * o);
    crate::arith::lemma_over(sum, w, 1257);
    let num = sum.mag() * o;
    let den = n * o;
    crate::rounding::lemma_ratio_error(num, den);
    let m = mean.mag();
    let s = sum.mag();
    let off = s - m * n;
    assert((num - m * den) == off * o) by (nonlinear_arith)
        requires
            num == s * o,
            den == n * o,
            off == s - m * n,
    ;
    assert((m * den - num) == (-off) * o) by (nonlinear_arith)
        requires
            num == s * o,
            den == n * o,
            off == s - m * n,
    ;
    assert(num + TWO_52 * den == (s + TWO_52 * n) * o) by (nonlinear_arith)
        requires
            num == s * o,
            den == n * o,
    ;
    assert(off * (2 * TWO_52) <= s + TWO_52 * n && (-off) * (2 * TWO_52) <= s + TWO_52 * n)
        by (nonlinear_arith)
        requires
            (off * o) * (2 * TWO_52) <= (s + TWO_52 * n) * o,
            ((-off) * o) * (2 * TWO_52) <= (s + TWO_52 * n) * o,
            o > 0,
    ;
    assert((-m) * n == -(m * n)) by (nonlinear_arith);
    if s == 0 {
        assert(0 * o == 0);
        assert(den > 0) by (nonlinear_arith)
            requires
                den == n * o,
                n > 0,
                o > 0,
        ;
        crate::arith::lemma_rounds_to_zero(0, den);
    }
}

/// The magnitude of a current, where it is not zero, counts many least positive values of
/// the wider format.
proof fn lemma_current_is_not_tiny(a: crate::ieee::Single)
    requires
        a.is_finite(),
        crate::arith::widened(a).mag() != 0,
    ensures
        crate::arith::widened(a).mag() >= TWO_52,
{
    crate::arith::lemma_widened(a);
    lemma2_to64_rest();
    lemma_pow2_strictly_increases(52, 925);
    assert(a.mag() * pow2(925) >= pow2(925)) by (nonlinear_arith)
        requires
            a.mag() * pow2(925) != 0,
            pow2(925) > 0,
    ;
}

/// The mean lies between the minimum and the maximum, but for rounding: by no more than
/// one part in `2^52` of the greatest current for each sample, and two more.
pub proof fn lemma_mean_between_extremes(s: SharedView)
    requires
        all_finite(s.history),
        0 < s.history.len() <= TWO_52,
    ensures
        ({
            let stats = crate::samples::stats_of(s);
            let m = if stats.min_ua.mag() > stats.max_ua.mag() {
                stats.min_ua.mag()
            } else {
                stats.max_ua.mag()
            };
            &&& (stats.mean_ua.value() - stats.max_ua.value()) * TWO_52 <= (s.history.len() + 2) * m
            &&& (stats.min_ua.value() - stats.mean_ua.value()) * TWO_52 <= (s.history.len() + 2) * m
        }),
{
    let h = s.history;
    let n = h.len();
    let least = crate::samples::running_min(h);
    let most = crate::samples::running_max(h);
    lemma_extremes_finite(h);
    crate::arith::lemma_widened(least);
    crate::arith::lemma_widened(most);
    let low = crate::arith::widened(least).value();
    let high = crate::arith::widened(most).value();
    let m = if crate::arith::widened(least).mag() > crate::arith::widened(most).mag() {
        crate::arith::widened(least).mag()
    } else {
        crate::arith::widened(most).mag()
    };
    assert forall|i: int| 0 <= i < h.len() implies low <= crate::arith::widened(
        (#[trigger] h[i]).ua,
    ).value() <= high by {
        crate::samples::lemma_samples_between_extremes(h, i);
        crate::arith::lemma_widened(h[i].ua);
        assert(least.value() * pow2(925) <= h[i].ua.value() * pow2(925) <= most.value() * pow2(925))
            by (nonlinear_arith)
            requires
                least.value() <= h[i].ua.value() <= most.value(),
                pow2(925) >= 0,
        ;
    }
    lemma_sum_error(h, m);
    lemma_exact_sum_between(h, low, high);
    lemma_mean_error(h);
    if m > 0 {
        if m == crate::arith::widened(least).mag() {
            lemma_current_is_not_tiny(least);
        } else {
            lemma_current_is_not_tiny(most);
        }
    }
    let sum = crate::samples::running_sum(h).value();
    let mean = crate::samples::mean(h).value();
    let exact = exact_sum(h);
    lemma_mean_bounds(sum, exact, mean, low, high, n, m);
}

/// The bounds of a mean, from those of the sum.
proof fn lemma_mean_bounds(
    sum: int,
    exact: int,
    mean: int,
    low: int,
    high: int,
    n: nat,
    m: nat,
)
    requires
        0 < n <= TWO_52,
        m == 0 || m >= TWO_52,
        -m <= low <= high <= m,
        -(n * m) <= exact <= n * m,
        n * low <= exact <= n * high,
        -(n * n * m) <= (sum - exact) * TWO_52 <= n * n * m,
        ({
            let size = if sum < 0 {
                -sum
            } else {
                sum
            };
            -(size + TWO_52 * n) <= (sum - mean * n) * (2 * TWO_52) <= size + TWO_52 * n
        }),
        sum == 0 ==> mean == 0,
    ensures
        (mean - high) * TWO_52 <= (n + 2) * m,
        (low - mean) * TWO_52 <= (n + 2) * m,
{
    let size = if sum < 0 {
        -sum
    } else {
        sum
    };
    let t = TWO_52 as int;
    let p = n * m;
    assert(n * n * m == n * p) by (nonlinear_arith)
        requires
            p == n * m,
    ;
    assert(-p <= sum - exact <= p) by (nonlinear_arith)
        requires
            -(n * p) <= (sum - exact) * t <= n * p,
            0 < n <= t,
            p >= 0,
    {
        assert(n * p <= t * p);
    }
    assert(size <= 2 * p);
    if m == 0 {
        assert(p == 0) by (nonlinear_arith)
            requires
                p == n * m,
                m == 0,
        ;
        assert((n + 2) * m == 0) by (nonlinear_arith)
            requires
                m == 0,
        ;
        assert(n * p == 0);
    } else {
        assert(t * n <= p) by (nonlinear_arith)
            requires
                p == n * m,
                m >= t,
                n > 0,
        ;
        let c = (n + 2) * m;
        assert(n * c == n * p + 2 * p) by (nonlinear_arith)
            requires
                c == (n + 2) * m,
                p == n * m,
        ;
        assert((sum - mean * n) * (2 * t) == 2 * ((sum - mean * n) * t)) by (nonlinear_arith);
        assert((mean * n - exact) * t == (sum - exact) * t - (sum - mean * n) * t)
            by (nonlinear_arith);
        assert((mean * n - exact) * t <= n * c && (exact - mean * n) * t <= n * c) by {
            assert((exact - mean * n) * t == -((mean * n - exact) * t)) by (nonlinear_arith);
        }
        assert((mean - high) * t <= c) by (nonlinear_arith)
            requires
                (mean * n - exact) * t <= n * c,
                exact <= n * high,
                n > 0,
                t > 0,
        {
            assert((mean * n - n * high) * t <= (mean * n - exact) * t);
            assert((mean * n - n * high) * t == n * ((mean - high) * t));
        }
        assert((low - mean) * t <= c) by (nonlinear_arith)
            requires
                (exact - mean * n) * t <= n * c,
                n * low <= exact,
                n > 0,
                t > 0,
        {
            assert((n * low - mean * n) * t <= (exact - mean * n) * t);
            assert((n * low - mean * n) * t == n * ((low - mean) * t));
        }
    }
}

/// The sum of the squares of the currents by exact arithmetic, in squares of least
/// positive values.
pub open spec fn exact_squares(history: Seq<Sample>) -> int
    decreases history.len(),
{
    if history.len() == 0 {
        0
    } else {
        let x = crate::arith::widened(history.last().ua).value();
        exact_squares(history.drop_last()) + x * x
    }
}

/// The sum over the samples of the square of `n * x - total`, by exact arithmetic: with
/// the number of samples for `n` and their sum for `total`, the squared distance of each
/// current from the mean, times `n * n`.
pub open spec fn exact_deviation(history: Seq<Sample>, n: int, total: int) -> int
    decreases history.len(),
{
    if history.len() == 0 {
        0
    } else {
        let d = n * crate::arith::widened(history.last().ua).value() - total;
        exact_deviation(history.drop_last(), n, total) + d * d
    }
}

/// The squared distances from the mean, by the sums of the currents and of their squares.
proof fn lemma_deviation_by_sums(history: Seq<Sample>, n: int, total: int)
    ensures
        exact_deviation(history, n, total) == n * n * exact_squares(history) - 2 * n * total
            * exact_sum(history) + history.len() * (total * total),
    decreases history.len(),
{
    if history.len() == 0 {
        assert(n * n * 0 == 0 && 2 * n * total * 0 == 0 && 0 * (total * total) == 0)
            by (nonlinear_arith);
    } else {
        let before = history.drop_last();
        lemma_deviation_by_sums(before, n, total);
        let x = crate::arith::widened(history.last().ua).value();
        let d = n * x - total;
        let a = exact_squares(before);
        let b = exact_sum(before);
        let k = before.len() as int;
        assert(n * n * (a + x * x) - 2 * n * total * (b + x) + (k + 1) * (total * total) == n * n
            * a - 2 * n * total * b + k * (total * total) + d * d) by (nonlinear_arith)
            requires
                d == n * x - total,
        ;
    }
}

/// The square of a current needs no rounding.
proof fn lemma_square_is_exact(a: crate::ieee::Single)
    requires
        a.is_finite(),
    ensures
        ({
            let v = crate::arith::widened(a);
            let sq = crate::arith::times(v, v);
            &&& crate::arith::within(sq, 1330)
            &&& !sq.negative()
            &&& sq.value() * crate::rounding::one() == v.value() * v.value()
        }),
{
    let v = crate::arith::widened(a);
    let o = crate::rounding::one();
    crate::arith::lemma_widened(a);
    crate::arith::lemma_times(v, v, 1202, 1202);
    lemma2_to64();
    lemma_pow2_pos(1074);
    let (n, e): (nat, nat) = if a.exp() == 0 {
        (a.man(), 0)
    } else {
        (pow2(23) + a.man(), (a.exp() - 1) as nat)
    };
    assert(a.mag() == n * pow2(e)) by {
        assert(n * 1 == n);
    }
    assert(n * n < 0x1_0000_0000_0000) by (nonlinear_arith)
        requires
            n < 0x100_0000,
    ;
    let k = pow2(925);
    let y = (n * n) * pow2(e + e + 776);
    lemma_pow2_adds(925, 925);
    lemma_pow2_adds(e, e);
    lemma_pow2_adds(e + e, 776);
    lemma_pow2_adds(776, 1074);
    assert(v.mag() * v.mag() == o * y) by (nonlinear_arith)
        requires
            v.mag() == (n * pow2(e)) * k,
            y == (n * n) * pow2(e + e + 776),
            pow2(e + e + 776) == (pow2(e) * pow2(e)) * pow2(776),
            k * k == pow2(776) * o,
    {
        let c = pow2(e);
        let t = pow2(776);
        assert(((n * c) * k) * ((n * c) * k) == (n * n) * (c * c) * (k * k));
        assert((n * n) * (c * c) * (t * o) == o * ((n * n) * ((c * c) * t)));
    }
    crate::rounding::lemma_whole_ratio(y, o);
    crate::rounding::lemma_rounded_scaled(n * n, e + e + 776);
    crate::rounding::lemma_small_is_exact(n * n);
    let m = v.mag() as int;
    assert((-m) * (-m) == m * m) by (nonlinear_arith);
    assert(y * o == o * y) by (nonlinear_arith);
}

/// The running sum of squares is off from the exact one by no more than one part in
/// `2^52` of the greatest square, times the square of the number of samples.
proof fn lemma_squares_error(history: Seq<Sample>, m: nat)
    requires
        all_finite(history),
        all_between(history, -m, m as int),
        history.len() <= TWO_52,
        (m * m) % crate::rounding::one() == 0,
    ensures
        ({
            let n = history.len();
            let sum = crate::samples::running_squares(history);
            let off = sum.value() * crate::rounding::one() - exact_squares(history);
            &&& !sum.negative()
            &&& 0 <= exact_squares(history) <= n * (m * m)
            &&& -(n * n * (m * m)) <= off * TWO_52 <= n * n * (m * m)
        }),
{
    let o = crate::rounding::one();
    let q = m * m / o;
    let n = history.len();
    lemma_pow2_pos(1074);
    vstd::arithmetic::div_mod::lemma_fundamental_div_mod((m * m) as int, o as int);
    assert(m * m == q * o) by {
        assert(o * q == q * o) by (nonlinear_arith);
    }
    lemma_squares_in_units(history, m, q);
    let e = units_of_squares(history);
    let v = crate::samples::running_squares(history).value();
    assert(0 <= e * o <= n * (m * m)) by (nonlinear_arith)
        requires
            0 <= e <= n * q,
            m * m == q * o,
            o > 0,
    {
        assert(e * o <= (n * q) * o);
        assert((n * q) * o == n * (q * o));
    }
    assert(-(n * n * (m * m)) <= (v * o - e * o) * TWO_52 <= n * n * (m * m)) by (nonlinear_arith)
        requires
            -(n * n * q) <= (v - e) * TWO_52 <= n * n * q,
            m * m == q * o,
            o > 0,
    {
        assert((v * o - e * o) * TWO_52 == ((v - e) * TWO_52) * o);
        assert(((v - e) * TWO_52) * o <= (n * n * q) * o);
        assert(-(n * n * q) * o <= ((v - e) * TWO_52) * o);
        assert((n * n * q) * o == n * n * (q * o));
    }
}

/// The sum of the squares of the currents, in least positive values.
spec fn units_of_squares(history: Seq<Sample>) -> int
    decreases history.len(),
{
    if history.len() == 0 {
        0
    } else {
        let v = crate::arith::widened(history.last().ua);
        units_of_squares(history.drop_last()) + crate::arith::times(v, v).value()
    }
}

proof fn lemma_squares_in_units(history: Seq<Sample>, m: nat, q: nat)
    requires
        all_finite(history),
        all_between(history, -m, m as int),
        history.len() <= TWO_52,
        m * m == q * crate::rounding::one(),
    ensures
        !crate::samples::running_squares(history).negative(),
        units_of_squares(history) * crate::rounding::one() == exact_squares(history),
        0 <= units_of_squares(history) <= history.len() * q,
        -(history.len() * history.len() * q) <= (crate::samples::running_squares(history).value()
            - units_of_squares(history)) * TWO_52 <= history.len() * history.len() * q,
    decreases history.len(),
{
    let o = crate::rounding::one();
    lemma_pow2_pos(1074);
    if history.len() == 0 {
        lemma_zero();
        assert(0 * o == 0 && 0 * q == 0 && 0 * 0 * q == 0);
    } else {
        let before = history.drop_last();
        assert forall|i: int| 0 <= i < before.len() implies (#[trigger] before[i]).ua.is_finite() by {
            assert(before[i] == history[i]);
        }
        assert forall|i: int| 0 <= i < before.len() implies -m <= crate::arith::widened(
            (#[trigger] before[i]).ua,
        ).value() <= m by {
            assert(before[i] == history[i]);
        }
        lemma_squares_in_units(before, m, q);
        lemma_sums_bounded(before);
        assert(history[history.len() - 1].ua.is_finite());
        let v = crate::arith::widened(history.last().ua);
        let sq = crate::arith::times(v, v);
        let x = v.value();
        lemma_square_is_exact(history.last().ua);
        lemma_pow2_strictly_increases(1330, 1385);
        assert(-m <= x <= m) by {
            assert(history[history.len() - 1] == history.last());
        }
        assert(0 <= sq.value() <= q) by (nonlinear_arith)
            requires
                sq.value() * o == x * x,
                -m <= x <= m,
                m * m == q * o,
                o > 0,
        {
            assert(x * x <= m * m);
        }
        let sum = crate::samples::running_squares(before);
        crate::arith::lemma_plus(sum, sq, 1385);
        lemma_pow2_adds(1, 1385);
        lemma2_to64();
        crate::arith::lemma_signed_sign(sum.value() + sq.value(), 1386);
        let u = units_of_squares(before);
        lemma_one_more_term(
            sum.value(),
            u,
            sq.value(),
            crate::samples::running_squares(history).value(),
            before.len(),
            q,
        );
        assert((u + sq.value()) * o == u * o + sq.value() * o) by (nonlinear_arith);
    }
}

/// The mean and the mean of the squares, from sums that are rounded at each step.
proof fn lemma_mean_is_close(sum: int, exact: int, mean: int, n: nat, m: nat)
    requires
        0 < n <= TWO_52,
        m >= TWO_52,
        -(n * m) <= exact <= n * m,
        -(n * n * m) <= (sum - exact) * TWO_52 <= n * n * m,
        ({
            let size = if sum < 0 {
                -sum
            } else {
                sum
            };
            -(size + TWO_52 * n) <= (sum - mean * n) * (2 * TWO_52) <= size + TWO_52 * n
        }),
    ensures
        -(n * (n + 2) * m) <= (mean * n - exact) * TWO_52 <= n * (n + 2) * m,
        -3 * m <= mean <= 3 * m,
{
    let t = TWO_52 as int;
    let p = n * m;
    let size = if sum < 0 {
        -sum
    } else {
        sum
    };
    assert(n * n * m == n * p) by (nonlinear_arith)
        requires
            p == n * m,
    ;
    assert(n * (n + 2) * m == n * p + 2 * p) by (nonlinear_arith)
        requires
            p == n * m,
    ;
    assert(-p <= sum - exact <= p) by (nonlinear_arith)
        requires
            -(n * p) <= (sum - exact) * t <= n * p,
            0 < n <= t,
            p >= 0,
    {
        assert(n * p <= t * p);
    }
    assert(t * n <= p) by (nonlinear_arith)
        requires
            p == n * m,
            m >= t,
            n > 0,
    ;
    assert((sum - mean * n) * (2 * t) == 2 * ((sum - mean * n) * t)) by (nonlinear_arith);
    assert((mean * n - exact) * t == (sum - exact) * t - (sum - mean * n) * t) by (nonlinear_arith);
    assert(-(2 * p) <= sum - mean * n <= 2 * p) by (nonlinear_arith)
        requires
            -(3 * p) <= 2 * ((sum - mean * n) * t) <= 3 * p,
            t >= 1,
            p >= 0,
    ;
    assert(-(2 * p) < 2 * (sum - mean * n) && 2 * (sum - mean * n) < 2 * p || p == 0)
        by (nonlinear_arith)
        requires
            -(3 * p) <= 2 * ((sum - mean * n) * t) <= 3 * p,
            t >= 2,
            p >= 0,
    ;
    assert(-(3 * p) <= mean * n <= 3 * p);
    assert(-3 * m <= mean <= 3 * m) by (nonlinear_arith)
        requires
            -(3 * p) <= mean * n <= 3 * p,
            p == n * m,
            n > 0,
    ;
}

/// The variance, from a mean and a mean of squares that are close to the exact ones. `a`
/// is the mean of the squares, `mean` the mean, `b` its square, `d` their difference and
/// `w` the greatest square of a current, in least positive values.
proof fn lemma_variance_is_close(
    squares: int,
    sum_sq: int,
    a: int,
    total: int,
    mean: int,
    b: int,
    d: int,
    n: nat,
    m: nat,
    w: nat,
    o: nat,
)
    requires
        0 < n <= TWO_52,
        m >= TWO_52,
        w >= TWO_52,
        o > 0,
        m * m == w * o,
        0 <= squares <= n * (m * m),
        -(n * n * (m * m)) <= (sum_sq * o - squares) * TWO_52 <= n * n * (m * m),
        0 <= sum_sq,
        0 <= a,
        0 <= b,
        -(sum_sq + TWO_52 * n) <= (sum_sq - a * n) * (2 * TWO_52) <= sum_sq + TWO_52 * n,
        -(n * m) <= total <= n * m,
        -(n * (n + 2) * m) <= (mean * n - total) * TWO_52 <= n * (n + 2) * m,
        -3 * m <= mean <= 3 * m,
        -(mean * mean + TWO_52 * o) <= (mean * mean - b * o) * (2 * TWO_52) <= mean * mean + TWO_52
            * o,
        d == crate::arith::rounded_value(a - b),
    ensures
        ({
            let exact = n * squares - total * total;
            let off = d * o * (n * n) - exact;
            &&& -((5 * n + 20) * (n * n) * (m * m)) <= off * TWO_52 <= (5 * n + 20) * (n * n) * (m
                * m)
            &&& -11 * w <= d <= 11 * w
        }),
{
    let t = TWO_52 as int;
    let ww = (m * m) as int;
    let nn = (n * n) as int;
    lemma_mean_square(squares, sum_sq, a, n, w, o, ww);
    lemma_square_of_mean(total, mean, b, n, m, w, o, ww);
    // The difference, before it is rounded.
    let exact = n * squares - total * total;
    let raw = (a - b) * o * nn - exact;
    assert(raw == n * (a * n * o - squares) - (b * o * nn - total * total)) by (nonlinear_arith)
        requires
            raw == (a - b) * o * nn - exact,
            exact == n * squares - total * total,
            nn == n * n,
    ;
    let x = a * n * o - squares;
    let y = b * o * nn - total * total;
    assert(-((5 * n + 15) * nn * ww) <= raw * t <= (5 * n + 15) * nn * ww) by (nonlinear_arith)
        requires
            raw == n * x - y,
            -(n * (n + 2) * ww) <= x * t <= n * (n + 2) * ww,
            -((4 * n + 13) * nn * ww) <= y * t <= (4 * n + 13) * nn * ww,
            nn == n * n,
            n > 0,
    {
        assert((n * x) * t == n * (x * t));
        assert(n * (x * t) <= n * (n * (n + 2) * ww));
        assert(n * (x * t) >= -(n * (n * (n + 2) * ww)));
        assert(n * (n * (n + 2) * ww) == (n + 2) * nn * ww);
        assert((n + 2) * nn * ww + (4 * n + 13) * nn * ww == (5 * n + 15) * nn * ww);
        assert(raw * t == (n * x) * t - y * t);
    }
    // Rounding the difference.
    let gap = a - b;
    let size: nat = if gap < 0 {
        (-gap) as nat
    } else {
        gap as nat
    };
    assert(size <= 10 * w);
    crate::rounding::lemma_rounding_error(size);
    assert(-(size as int) <= (d - gap) * (2 * t) <= size) by {
        assert((size - crate::rounding::rounded(size)) * crate::rounding::TWO_53 <= size);
        assert((crate::rounding::rounded(size) - size) * crate::rounding::TWO_53 <= size);
    }
    assert(-(5 * w) <= (d - gap) * t <= 5 * w) by (nonlinear_arith)
        requires
            -(10 * w) <= (d - gap) * (2 * t) <= 10 * w,
    ;
    assert(-w <= d - gap <= w) by (nonlinear_arith)
        requires
            -(5 * w) <= (d - gap) * t <= 5 * w,
            t >= 5,
            w >= 0,
    ;
    let off = d * o * nn - exact;
    assert(off == raw + (d - gap) * o * nn) by (nonlinear_arith)
        requires
            off == d * o * nn - exact,
            raw == (a - b) * o * nn - exact,
            gap == a - b,
    ;
    assert(-((5 * n + 20) * nn * ww) <= off * t <= (5 * n + 20) * nn * ww) by (nonlinear_arith)
        requires
            off == raw + (d - gap) * o * nn,
            -((5 * n + 15) * nn * ww) <= raw * t <= (5 * n + 15) * nn * ww,
            -(5 * w) <= (d - gap) * t <= 5 * w,
            ww == w * o,
            nn >= 0,
            o >= 0,
    {
        let z = (d - gap) * t;
        assert(((d - gap) * o * nn) * t == z * (o * nn));
        assert(o * nn >= 0);
        assert(z * (o * nn) <= (5 * w) * (o * nn));
        assert(z * (o * nn) >= -(5 * w) * (o * nn));
        assert((5 * w) * (o * nn) == 5 * nn * ww);
        assert((5 * n + 15) * nn * ww + 5 * nn * ww == (5 * n + 20) * nn * ww);
        assert(off * t == raw * t + ((d - gap) * o * nn) * t);
    }
}

/// The mean of the squares is close to the exact one.
proof fn lemma_mean_square(
    squares: int,
    sum_sq: int,
    a: int,
    n: nat,
    w: nat,
    o: nat,
    ww: int,
)
    requires
        0 < n <= TWO_52,
        w >= TWO_52,
        o > 0,
        ww == w * o,
        0 <= squares <= n * ww,
        -(n * n * ww) <= (sum_sq * o - squares) * TWO_52 <= n * n * ww,
        0 <= sum_sq,
        0 <= a,
        -(sum_sq + TWO_52 * n) <= (sum_sq - a * n) * (2 * TWO_52) <= sum_sq + TWO_52 * n,
    ensures
        -(n * (n + 2) * ww) <= (a * n * o - squares) * TWO_52 <= n * (n + 2) * ww,
        a <= 4 * w,
{
    let t = TWO_52 as int;
    let p = n * w;
    assert(n * ww == p * o) by (nonlinear_arith)
        requires
            ww == w * o,
            p == n * w,
    ;
    assert(n * n * ww == n * (p * o)) by (nonlinear_arith)
        requires
            n * ww == p * o,
    ;
    assert(sum_sq * o - squares <= p * o) by (nonlinear_arith)
        requires
            (sum_sq * o - squares) * t <= n * (p * o),
            0 < n <= t,
            p * o >= 0,
    {
        assert(n * (p * o) <= t * (p * o));
    }
    assert(sum_sq <= 2 * p) by (nonlinear_arith)
        requires
            sum_sq * o <= p * o + p * o,
            o > 0,
    ;
    assert(t * n <= p) by (nonlinear_arith)
        requires
            p == n * w,
            w >= t,
            n > 0,
    ;
    let g = sum_sq - a * n;
    assert(-(2 * p) <= g * t <= 2 * p) by (nonlinear_arith)
        requires
            -(3 * p) <= g * (2 * t) <= 3 * p,
            p >= 0,
    ;
    assert(-p <= g <= p) by (nonlinear_arith)
        requires
            -(2 * p) <= g * t <= 2 * p,
            t >= 2,
            p >= 0,
    ;
    assert(a <= 4 * w) by (nonlinear_arith)
        requires
            a * n <= 3 * p,
            p == n * w,
            n > 0,
    ;
    let x = a * n * o - squares;
    assert(x == (sum_sq * o - squares) - g * o) by (nonlinear_arith)
        requires
            x == a * n * o - squares,
            g == sum_sq - a * n,
    ;
    assert(-(n * (n + 2) * ww) <= x * t <= n * (n + 2) * ww) by (nonlinear_arith)
        requires
            x == (sum_sq * o - squares) - g * o,
            -(n * (p * o)) <= (sum_sq * o - squares) * t <= n * (p * o),
            -(2 * p) <= g * t <= 2 * p,
            n * ww == p * o,
            o > 0,
    {
        assert((g * o) * t == (g * t) * o);
        assert((g * t) * o <= (2 * p) * o);
        assert((g * t) * o >= -(2 * p) * o);
        assert(n * (n + 2) * ww == n * (p * o) + 2 * (p * o));
        assert(x * t == (sum_sq * o - squares) * t - (g * o) * t);
    }
}

/// The square of the mean is close to the exact one.
proof fn lemma_square_of_mean(
    total: int,
    mean: int,
    b: int,
    n: nat,
    m: nat,
    w: nat,
    o: nat,
    ww: int,
)
    requires
        0 < n <= TWO_52,
        w >= TWO_52,
        o > 0,
        ww == w * o,
        ww == m * m,
        0 <= b,
        -(n * m) <= total <= n * m,
        -(n * (n + 2) * m) <= (mean * n - total) * TWO_52 <= n * (n + 2) * m,
        -3 * m <= mean <= 3 * m,
        -(mean * mean + TWO_52 * o) <= (mean * mean - b * o) * (2 * TWO_52) <= mean * mean + TWO_52
            * o,
    ensures
        -((4 * n + 13) * (n * n) * ww) <= (b * o * (n * n) - total * total) * TWO_52 <= (4 * n + 13)
            * (n * n) * ww,
        b <= 10 * w,
{
    let t = TWO_52 as int;
    let nn = (n * n) as int;
    let sq = mean * mean;
    assert(0 <= sq <= 9 * ww) by (nonlinear_arith)
        requires
            sq == mean * mean,
            -3 * m <= mean <= 3 * m,
            ww == m * m,
    ;
    assert(t * o <= ww) by (nonlinear_arith)
        requires
            ww == w * o,
            w >= t,
            o > 0,
    ;
    let g = sq - b * o;
    assert(-(5 * ww) <= g * t <= 5 * ww) by (nonlinear_arith)
        requires
            -(10 * ww) <= g * (2 * t) <= 10 * ww,
    ;
    assert(-ww <= g <= ww) by (nonlinear_arith)
        requires
            -(5 * ww) <= g * t <= 5 * ww,
            t >= 5,
            ww >= 0,
    ;
    assert(b <= 10 * w) by (nonlinear_arith)
        requires
            b * o <= 10 * ww,
            ww == w * o,
            o > 0,
    ;
    let mn = mean * n;
    let e = mn - total;
    let f = mn + total;
    assert(-(4 * (n * m)) <= f <= 4 * (n * m)) by (nonlinear_arith)
        requires
            f == mean * n + total,
            -(n * m) <= total <= n * m,
            -3 * m <= mean <= 3 * m,
            n > 0,
    {
        assert(mean * n <= (3 * m) * n);
        assert(mean * n >= -(3 * m) * n);
        assert((3 * m) * n == 3 * (n * m));
    }
    assert(sq * nn - total * total == e * f) by (nonlinear_arith)
        requires
            e == mn - total,
            f == mn + total,
            mn == mean * n,
            sq == mean * mean,
            nn == n * n,
    ;
    let k = n * (n + 2) * m;
    let h = 4 * (n * m);
    assert(-(k * h) <= (e * t) * f <= k * h) by (nonlinear_arith)
        requires
            -k <= e * t <= k,
            -h <= f <= h,
            k >= 0,
            h >= 0,
    ;
    assert(k * h == 4 * (n + 2) * nn * ww) by (nonlinear_arith)
        requires
            k == n * (n + 2) * m,
            h == 4 * (n * m),
            nn == n * n,
            ww == m * m,
    ;
    assert((e * f) * t == (e * t) * f) by (nonlinear_arith);
    let y = b * o * nn - total * total;
    assert(y == e * f - g * nn) by (nonlinear_arith)
        requires
            y == b * o * nn - total * total,
            sq * nn - total * total == e * f,
            g == sq - b * o,
    ;
    assert(-((4 * n + 13) * nn * ww) <= y * t <= (4 * n + 13) * nn * ww) by (nonlinear_arith)
        requires
            y == e * f - g * nn,
            (e * f) * t == (e * t) * f,
            -(k * h) <= (e * t) * f <= k * h,
            k * h == 4 * (n + 2) * nn * ww,
            -(5 * ww) <= g * t <= 5 * ww,
            nn >= 0,
    {
        assert((g * nn) * t == (g * t) * nn);
        assert((g * t) * nn <= (5 * ww) * nn);
        assert((g * t) * nn >= -(5 * ww) * nn);
        assert(4 * (n + 2) * nn * ww + 5 * ww * nn == (4 * n + 13) * nn * ww);
        assert(y * t == (e * f) * t - (g * nn) * t);
    }
}

/// The greater magnitude of the two extremes: no current has a greater one.
pub open spec fn greatest(stats: Stats) -> nat {
    if stats.min_ua.mag() > stats.max_ua.mag() {
        stats.min_ua.mag()
    } else {
        stats.max_ua.mag()
    }
}

/// Every current lies within the greatest magnitude, whose square is a whole number of
/// least positive values, and many of them where it is not zero.
proof fn lemma_greatest(s: SharedView) -> (w: nat)
    requires
        all_finite(s.history),
        s.history.len() > 0,
    ensures
        ({
            let m = greatest(crate::samples::stats_of(s));
            &&& all_between(s.history, -m, m as int)
            &&& m * m == w * crate::rounding::one()
            &&& m == 0 || (m >= TWO_52 && w >= TWO_52)
        }),
{
    let h = s.history;
    let least = crate::samples::running_min(h);
    let most = crate::samples::running_max(h);
    lemma_extremes_finite(h);
    crate::arith::lemma_widened(least);
    crate::arith::lemma_widened(most);
    let stats = crate::samples::stats_of(s);
    let m = greatest(stats);
    assert forall|i: int| 0 <= i < h.len() implies -m <= crate::arith::widened(
        (#[trigger] h[i]).ua,
    ).value() <= m by {
        crate::samples::lemma_samples_between_extremes(h, i);
        crate::arith::lemma_widened(h[i].ua);
        assert(least.value() * pow2(925) <= h[i].ua.value() * pow2(925) <= most.value() * pow2(925))
            by (nonlinear_arith)
            requires
                least.value() <= h[i].ua.value() <= most.value(),
                pow2(925) >= 0,
        ;
    }
    let a = if stats.min_ua.mag() > stats.max_ua.mag() {
        least
    } else {
        most
    };
    let g = a.mag();
    let k = pow2(925);
    let t = pow2(776);
    let o = crate::rounding::one();
    let w = (g * g) * t;
    lemma_pow2_adds(925, 925);
    lemma_pow2_adds(776, 1074);
    assert(m * m == w * o) by (nonlinear_arith)
        requires
            m == g * k,
            w == (g * g) * t,
            k * k == t * o,
    {
        assert((g * k) * (g * k) == (g * g) * (k * k));
        assert(((g * g) * t) * o == (g * g) * (t * o));
    }
    lemma2_to64_rest();
    lemma_pow2_strictly_increases(52, 776);
    if m != 0 {
        lemma_current_is_not_tiny(a);
        assert(g > 0) by (nonlinear_arith)
            requires
                m == g * k,
                m != 0,
        ;
        assert(w >= t) by (nonlinear_arith)
            requires
                w == (g * g) * t,
                g >= 1,
                t > 0,
        ;
    }
    w
}

/// The running sum of squares counts every sample: it is off from the exact sum of the
/// squares by no more than one part in `2^52` of the greatest square, times the square of
/// the number of samples.
pub proof fn lemma_squares_count_every_sample(s: SharedView)
    requires
        all_finite(s.history),
        0 < s.history.len() <= TWO_52,
    ensures
        ({
            let n = s.history.len();
            let m = greatest(crate::samples::stats_of(s));
            let off = crate::samples::running_squares(s.history).value() * crate::rounding::one()
                - exact_squares(s.history);
            -(n * n * (m * m)) <= off * TWO_52 <= n * n * (m * m)
        }),
{
    let w = lemma_greatest(s);
    let m = greatest(crate::samples::stats_of(s));
    lemma_pow2_pos(1074);
    assert(w * crate::rounding::one() == crate::rounding::one() * w) by (nonlinear_arith);
    vstd::arithmetic::div_mod::lemma_mod_multiples_vanish(w as int, 0, crate::rounding::one() as int);
    vstd::arithmetic::div_mod::lemma_small_mod(0, crate::rounding::one());
    lemma_squares_error(s.history, m);
}

/// The squared distances from the mean do not fall below zero.
proof fn lemma_deviation_not_negative(history: Seq<Sample>, n: int, total: int)
    ensures
        exact_deviation(history, n, total) >= 0,
    decreases history.len(),
{
    if history.len() > 0 {
        lemma_deviation_not_negative(history.drop_last(), n, total);
        let d = n * crate::arith::widened(history.last().ua).value() - total;
        assert(d * d >= 0) by (nonlinear_arith);
    }
}

/// The value of a quotient by a count of samples, for a dividend that is not negative.
pub proof fn lemma_mean_of(a: Double, n: nat)
    requires
        crate::arith::within(a, 1385),
        !a.negative(),
        0 < n <= TWO_52,
    ensures
        ({
            let q = crate::arith::over(a, crate::arith::whole(n));
            &&& crate::arith::within(q, 1385)
            &&& q.value() >= 0
            &&& -(a.value() + TWO_52 * n) <= (a.value() - q.value() * n) * (2 * TWO_52)
                <= a.value() + TWO_52 * n
        }),
{
    let o = crate::rounding::one();
    let w = crate::arith::whole(n);
    let q = crate::arith::over(a, w);
    lemma_count(n);
    lemma_pow2_pos(1074);
    crate::rounding::lemma_rounded_scaled(n, 1074);
    crate::rounding::lemma_small_is_exact(n);
    crate::arith::lemma_over(a, w, 1385);
    let num = a.mag() * o;
    let den = n * o;
    assert(den > 0) by (nonlinear_arith)
        requires
            den == n * o,
            n > 0,
            o > 0,
    ;
    crate::rounding::lemma_ratio_error(num, den);
    let m = q.mag();
    let s = a.mag();
    let off = s - m * n;
    assert(num - m * den == off * o && m * den - num == (-off) * o && num + TWO_52 * den == (s
        + TWO_52 * n) * o) by (nonlinear_arith)
        requires
            num == s * o,
            den == n * o,
            off == s - m * n,
    ;
    assert(off * (2 * TWO_52) <= s + TWO_52 * n && (-off) * (2 * TWO_52) <= s + TWO_52 * n)
        by (nonlinear_arith)
        requires
            (off * o) * (2 * TWO_52) <= (s + TWO_52 * n) * o,
            ((-off) * o) * (2 * TWO_52) <= (s + TWO_52 * n) * o,
            o > 0,
    ;
}

/// The square root of a variance.
proof fn lemma_root_is_close(v: Double, w: nat)
    requires
        crate::arith::within(v, 1441),
        v.value() >= 0,
        v.value() <= 11 * w,
    ensures
        ({
            let r = crate::arith::root(v).value();
            let o = crate::rounding::one();
            -(22 * (w * o)) <= (r * r - v.value() * o) * TWO_52 <= 22 * (w * o)
        }),
{
    let o = crate::rounding::one();
    lemma_pow2_pos(1074);
    lemma_pow2_adds(1441, 1074);
    lemma_pow2_adds(1258, 1258);
    lemma_pow2_strictly_increases(2515, 2516);
    assert(v.mag() * o <= pow2(1441) * pow2(1074)) by (nonlinear_arith)
        requires
            v.mag() <= pow2(1441),
            o == pow2(1074),
    ;
    crate::arith::lemma_root(v, 1258);
    let x = v.mag() * o;
    assert(0 <= x <= 11 * (w * o)) by (nonlinear_arith)
        requires
            x == v.mag() * o,
            v.mag() <= 11 * w,
            o >= 0,
    ;
    assert(w * o >= 0) by (nonlinear_arith)
        requires
            w >= 0,
            o >= 0,
    ;
    if v.value() == 0 {
        assert(0 * o == 0);
    } else {
        let s = crate::arith::lemma_root_exists(x);
        lemma2_to64_rest();
        lemma_pow2_adds(53, 53);
        lemma_pow2_strictly_increases(106, 1074);
        if s < crate::rounding::TWO_53 {
            assert((s + 1) * (s + 1) <= pow2(53) * pow2(53)) by (nonlinear_arith)
                requires
                    s + 1 <= pow2(53),
            ;
            assert(x >= o) by (nonlinear_arith)
                requires
                    x == v.mag() * o,
                    v.mag() >= 1,
                    o > 0,
            ;
        }
        crate::rounding::lemma_root_error(x, s);
    }
}

/// The standard deviation is that of all samples about their mean: its square, times the
/// cube of the number of samples, is off from the exact sum of the squared distances by
/// no more than a part of the cube times the greatest square: five parts in `2^52` for
/// each sample, and a few more.
pub proof fn lemma_deviation_of_all_samples(s: SharedView)
    requires
        all_finite(s.history),
        0 < s.history.len() <= TWO_52,
    ensures
        ({
            let stats = crate::samples::stats_of(s);
            let n = s.history.len();
            let m = greatest(stats);
            let exact = exact_deviation(s.history, n as int, exact_sum(s.history));
            let r = stats.stddev_ua.value();
            let off = r * r * (n * n * n) - exact;
            &&& exact >= 0
            &&& -((5 * n + 42) * (n * n * n) * (m * m)) <= off * TWO_52 <= (5 * n + 42) * (n * n
                * n) * (m * m)
        }),
{
    let h = s.history;
    let n = h.len();
    let o = crate::rounding::one();
    let stats = crate::samples::stats_of(s);
    let m = greatest(stats);
    let w = lemma_greatest(s);
    let nn = (n * n) as int;
    let total = exact_sum(h);
    let squares = exact_squares(h);
    let exact = n * squares - total * total;
    let mean = crate::samples::mean(h);
    let sum = crate::samples::running_sum(h);
    let sum_sq = crate::samples::running_squares(h);
    let a = crate::arith::over(sum_sq, crate::arith::whole(n));
    let b = crate::arith::times(mean, mean);
    let d = crate::arith::minus(a, b);
    let v = crate::samples::variance(h);
    lemma_pow2_pos(1074);
    lemma_squares_count_every_sample(s);
    assert(w * o == o * w) by (nonlinear_arith);
    vstd::arithmetic::div_mod::lemma_mod_multiples_vanish(w as int, 0, o as int);
    vstd::arithmetic::div_mod::lemma_small_mod(0, o);
    lemma_squares_error(h, m);
    lemma_sum_error(h, m);
    lemma_mean_error(h);
    lemma_sums_bounded(h);
    lemma_variance(h);
    lemma_mean_of(sum_sq, n);
    crate::arith::lemma_times(mean, mean, 1257, 1257);
    lemma_pow2_strictly_increases(1385, 1440);
    crate::arith::lemma_minus(a, b, 1440);
    crate::rounding::lemma_ratio_error(mean.mag() * mean.mag(), o);
    let mu = mean.value();
    assert(mean.mag() * mean.mag() == mu * mu) by (nonlinear_arith)
        requires
            mu == mean.mag() || mu == -mean.mag(),
    ;
    assert(b.value() == b.mag());
    lemma_zero();
    lemma_deviation_by_sums(h, n as int, total);
    lemma_deviation_not_negative(h, n as int, total);
    let deviation = exact_deviation(h, n as int, total);
    assert(deviation == n * exact) by (nonlinear_arith)
        requires
            deviation == n * n * squares - 2 * n * total * total + n * (total * total),
            exact == n * squares - total * total,
    ;
    assert(exact >= 0) by (nonlinear_arith)
        requires
            n * exact >= 0,
            n > 0,
    ;
    if m == 0 {
        lemma_all_zero(sum.value(), total, squares, sum_sq.value(), n, m, o);
        assert(sum.mag() == 0);
        assert(mu * mu == 0) by (nonlinear_arith)
            requires
                mu == 0,
        ;
        assert(a.value() == 0) by (nonlinear_arith)
            requires
                a.value() >= 0,
                (0 - a.value() * n) * (2 * TWO_52) >= -(0 + TWO_52 * n),
                n > 0,
        ;
        crate::arith::lemma_rounds_to_zero(0, o);
        crate::rounding::lemma_small_is_exact(0);
        assert(d.value() == 0);
        assert(v.value() == 0);
        lemma_root_is_close(v, 0);
        let r = stats.stddev_ua.value();
        assert(0 * o == 0);
        assert(r * r == 0) by (nonlinear_arith)
            requires
                -(22 * (0 * o)) <= (r * r - 0 * o) * TWO_52 <= 22 * (0 * o),
                0 * o == 0,
        ;
        assert(exact == 0) by (nonlinear_arith)
            requires
                exact == n * squares - total * total,
                squares == 0,
                total == 0,
        ;
        assert(r * r * (n * n * n) - deviation == 0) by (nonlinear_arith)
            requires
                r * r == 0,
                deviation == n * exact,
                exact == 0,
        ;
        assert((5 * n + 42) * (n * n * n) * (m * m) >= 0) by (nonlinear_arith);
    } else {
        lemma_mean_is_close(sum.value(), total, mu, n, m);
        lemma_variance_is_close(
            squares,
            sum_sq.value(),
            a.value(),
            total,
            mu,
            b.value(),
            d.value(),
            n,
            m,
            w,
            o,
        );
        assert(v.value() == if d.value() > 0 {
            d.value()
        } else {
            0
        });
        lemma_root_is_close(v, w);
        lemma_close_together(
            d.value(),
            v.value(),
            stats.stddev_ua.value(),
            exact,
            n,
            (m * m) as nat,
            o,
        );
        let r = stats.stddev_ua.value();
        assert(r * r * (n * n * n) - deviation == n * (r * r * nn - exact)) by (nonlinear_arith)
            requires
                deviation == n * exact,
                nn == n * n,
        ;
        let off = r * r * nn - exact;
        let k = (5 * n + 42) * (n * n) * (m * m);
        assert(-(n * k) <= (n * off) * TWO_52 <= n * k) by (nonlinear_arith)
            requires
                -k <= off * TWO_52 <= k,
                n > 0,
        {
            assert((n * off) * TWO_52 == n * (off * TWO_52));
        }
        assert(n * k == (5 * n + 42) * (n * n * n) * (m * m)) by (nonlinear_arith)
            requires
                k == (5 * n + 42) * (n * n) * (m * m),
        ;
    }
}

/// Where every current is zero, so are the sums.
proof fn lemma_all_zero(
    sum: int,
    total: int,
    squares: int,
    sum_sq: int,
    n: nat,
    m: nat,
    o: nat,
)
    requires
        m == 0,
        o > 0,
        -(n * m) <= total <= n * m,
        -(n * n * m) <= (sum - total) * TWO_52 <= n * n * m,
        0 <= squares <= n * (m * m),
        -(n * n * (m * m)) <= (sum_sq * o - squares) * TWO_52 <= n * n * (m * m),
    ensures
        sum == 0,
        total == 0,
        squares == 0,
        sum_sq == 0,
{
    assert(n * m == 0 && n * n * m == 0 && n * (m * m) == 0 && n * n * (m * m) == 0)
        by (nonlinear_arith)
        requires
            m == 0,
    ;
    assert(sum_sq == 0) by (nonlinear_arith)
        requires
            sum_sq * o == 0,
            o > 0,
    ;
}

/// The square of the root, the variance and the difference before it are close to the
/// exact variance.
proof fn lemma_close_together(d: int, v: int, r: int, exact: int, n: nat, ww: nat, o: nat)
    requires
        v == if d > 0 {
            d
        } else {
            0
        },
        exact >= 0,
        -((5 * n + 20) * (n * n) * ww) <= (d * o * (n * n) - exact) * TWO_52 <= (5 * n + 20) * (n
            * n) * ww,
        -(22 * ww) <= (r * r - v * o) * TWO_52 <= 22 * ww,
    ensures
        -((5 * n + 42) * (n * n) * ww) <= (r * r * (n * n) - exact) * TWO_52 <= (5 * n + 42) * (n
            * n) * ww,
{
    let t = TWO_52 as int;
    let nn = (n * n) as int;
    let k = (5 * n + 20) * nn * ww;
    let off = v * o * nn - exact;
    assert(k >= 0) by (nonlinear_arith)
        requires
            k == (5 * n + 20) * nn * ww,
            nn == n * n,
    ;
    assert(nn >= 0) by (nonlinear_arith)
        requires
            nn == n * n,
    ;
    assert(-k <= off * t <= k) by {
        if d <= 0 {
            assert(d * o * nn <= 0) by (nonlinear_arith)
                requires
                    d <= 0,
                    o >= 0,
                    nn >= 0,
            {
                assert(d * o <= 0);
            }
            assert(0 * o * nn == 0) by (nonlinear_arith);
            assert(-k <= -exact * t <= 0) by (nonlinear_arith)
                requires
                    -k <= (d * o * nn - exact) * t,
                    d * o * nn <= 0,
                    exact >= 0,
                    t > 0,
            ;
        }
    }
    let e = r * r - v * o;
    assert(r * r * nn - exact == off + e * nn) by (nonlinear_arith)
        requires
            off == v * o * nn - exact,
            e == r * r - v * o,
    ;
    assert(-((5 * n + 42) * nn * ww) <= (off + e * nn) * t <= (5 * n + 42) * nn * ww)
        by (nonlinear_arith)
        requires
            -k <= off * t <= k,
            k == (5 * n + 20) * nn * ww,
            -(22 * ww) <= e * t <= 22 * ww,
            nn >= 0,
    {
        assert((e * nn) * t == (e * t) * nn);
        assert((e * t) * nn <= (22 * ww) * nn);
        assert((e * t) * nn >= -(22 * ww) * nn);
        assert((5 * n + 20) * nn * ww + 22 * ww * nn == (5 * n + 42) * nn * ww);
        assert((off + e * nn) * t == off * t + (e * nn) * t);
    }
}

/// A quotient by a whole number is off by no more than rounding once.
pub proof fn lemma_quotient(a: Double, n: nat, j: nat)
    requires
        crate::arith::within(a, j),
        0 < n <= TWO_52,
        j <= 2000,
    ensures
        ({
            let q = crate::arith::over(a, crate::arith::whole(n));
            &&& crate::arith::within(q, j)
            &&& -(a.mag() + TWO_52 * n) <= (a.value() - q.value() * n) * (2 * TWO_52) <= a.mag()
                + TWO_52 * n
        }),
{
    let o = crate::rounding::one();
    let w = crate::arith::whole(n);
    let q = crate::arith::over(a, w);
    lemma_count(n);
    lemma_pow2_pos(1074);
    crate::rounding::lemma_rounded_scaled(n, 1074);
    crate::rounding::lemma_small_is_exact(n);
    crate::arith::lemma_over(a, w, j);
    let num = a.mag() * o;
    let den = n * o;
    assert(den > 0) by (nonlinear_arith)
        requires
            den == n * o,
            n > 0,
            o > 0,
    ;
    crate::rounding::lemma_ratio_error(num, den);
    let m = q.mag();
    let s = a.mag();
    let off = s - m * n;
    assert(num - m * den == off * o && m * den - num == (-off) * o && num + TWO_52 * den == (s
        + TWO_52 * n) * o) by (nonlinear_arith)
        requires
            num == s * o,
            den == n * o,
            off == s - m * n,
    ;
    assert(off * (2 * TWO_52) <= s + TWO_52 * n && (-off) * (2 * TWO_52) <= s + TWO_52 * n)
        by (nonlinear_arith)
        requires
            (off * o) * (2 * TWO_52) <= (s + TWO_52 * n) * o,
            ((-off) * o) * (2 * TWO_52) <= (s + TWO_52 * n) * o,
            o > 0,
    ;
    assert((-m) * n == -(m * n)) by (nonlinear_arith);
}

/// The value of a count.
proof fn lemma_count_value(n: nat)
    requires
        n <= TWO_52,
    ensures
        crate::arith::within(crate::arith::whole(n), 1138),
        crate::arith::whole(n).value() == n * crate::rounding::one(),
        crate::arith::whole(n).mag() == n * crate::rounding::one(),
{
    lemma_count(n);
    crate::rounding::lemma_rounded_scaled(n, 1074);
    crate::rounding::lemma_small_is_exact(n);
}

/// The mean is that of all samples: times their number it is off from the exact sum of the
/// currents by no more than one part in `2^52` of the greatest current for each sample
/// and two more, times the number of samples.
pub proof fn lemma_mean_of_all_samples(s: SharedView)
    requires
        all_finite(s.history),
        0 < s.history.len() <= TWO_52,
    ensures
        ({
            let stats = crate::samples::stats_of(s);
            let n = s.history.len();
            let m = greatest(stats);
            let off = stats.mean_ua.value() * n - exact_sum(s.history);
            &&& stats.samples == n
            &&& -(n * (n + 2) * m) <= off * TWO_52 <= n * (n + 2) * m
        }),
{
    let h = s.history;
    let n = h.len();
    let m = greatest(crate::samples::stats_of(s));
    let w = lemma_greatest(s);
    lemma_sum_error(h, m);
    lemma_mean_error(h);
    lemma_sums_bounded(h);
    let sum = crate::samples::running_sum(h);
    let mean = crate::samples::mean(h);
    if m == 0 {
        assert(n * m == 0 && n * n * m == 0 && n * (n + 2) * m == 0) by (nonlinear_arith)
            requires
                m == 0,
        ;
        assert(sum.mag() == 0);
        assert(0 * n == 0);
    } else {
        lemma_mean_is_close(sum.value(), exact_sum(h), mean.value(), n, m);
    }
}

/// The duration is the number of samples over the rate, and the charge the exact sum of
/// the currents over the rate, but for rounding; in ampere hours the charge is divided by
/// 3600000, and in milliamperes the mean by 1000.
pub proof fn lemma_duration_and_charge(s: SharedView)
    requires
        all_finite(s.history),
        0 < s.history.len() <= TWO_52,
        0 < s.sps <= TWO_52,
    ensures
        ({
            let stats = crate::samples::stats_of(s);
            let n = s.history.len();
            let sps = s.sps as nat;
            let o = crate::rounding::one();
            let m = greatest(stats);
            let t = TWO_52;
            let duration = stats.duration_s.value() * sps - n * o;
            let charge = stats.charge_uc.value() * sps - exact_sum(s.history);
            let hours = stats.charge_uc.value() - stats.charge_mah.value() * 3_600_000;
            let milli = stats.mean_ua.value() - stats.avg_ma.value() * 1000;
            &&& -(n * o + t * sps) <= duration * (2 * t) <= n * o + t * sps
            &&& -(n * (n + 1) * m + t * sps) <= charge * t <= n * (n + 1) * m + t * sps
            &&& -(stats.charge_uc.mag() + t * 3_600_000) <= hours * (2 * t)
                <= stats.charge_uc.mag() + t * 3_600_000
            &&& -(stats.mean_ua.mag() + t * 1000) <= milli * (2 * t) <= stats.mean_ua.mag() + t
                * 1000
        }),
{
    let h = s.history;
    let n = h.len();
    let sps = s.sps as nat;
    let stats = crate::samples::stats_of(s);
    let m = greatest(stats);
    let t = TWO_52 as int;
    let w = lemma_greatest(s);
    let sum = crate::samples::running_sum(h);
    lemma_sum_error(h, m);
    lemma_sums_bounded(h);
    lemma_variance(h);
    lemma_count_value(n);
    lemma_quotient(crate::arith::whole(n), sps, 1138);
    lemma_quotient(sum, sps, 1257);
    lemma_quotient(stats.charge_uc, 3_600_000, 1257);
    lemma_quotient(stats.mean_ua, 1000, 1257);
    let q = stats.duration_s.value();
    let nn = n * crate::rounding::one();
    assert((q * sps - nn) * (2 * t) == -((nn - q * sps) * (2 * t))) by (nonlinear_arith);
    // The charge.
    let c = stats.charge_uc.value();
    let e = exact_sum(h);
    let x = sum.value();
    let p = n * m;
    assert(n * n * m == n * p && n * (n + 1) * m == n * p + p) by (nonlinear_arith)
        requires
            p == n * m,
    ;
    assert(-p <= x - e <= p) by (nonlinear_arith)
        requires
            -(n * p) <= (x - e) * t <= n * p,
            0 < n <= t,
            p >= 0,
    {
        assert(n * p <= t * p);
    }
    assert(sum.mag() <= 2 * p);
    assert((x - c * sps) * (2 * t) == 2 * ((x - c * sps) * t)) by (nonlinear_arith);
    assert((c * sps - e) * t == (x - e) * t - (x - c * sps) * t) by (nonlinear_arith);
    assert(t * sps >= 0) by (nonlinear_arith)
        requires
            t >= 0,
            sps >= 0,
    ;
}

/// Without a rate there is neither a duration nor a charge.
pub proof fn lemma_without_rate(s: SharedView)
    requires
        s.sps == 0,
    ensures
        crate::samples::stats_of(s).duration_s.value() == 0,
        crate::samples::stats_of(s).charge_uc.value() == 0,
        crate::samples::stats_of(s).charge_mah.value() == 0,
{
    lemma_zero();
    lemma2_to64();
    lemma_pow2_pos(1074);
    lemma_count(crate::samples::UC_PER_MAH as nat);
    crate::arith::lemma_over(
        Double { bits: 0 },
        crate::arith::whole(crate::samples::UC_PER_MAH as nat),
        0,
    );
    assert(0 * crate::rounding::one() == 0);
    crate::arith::lemma_rounds_to_zero(
        0,
        crate::arith::whole(crate::samples::UC_PER_MAH as nat).mag(),
    );
}

/// Without samples every figure is zero.
pub proof fn lemma_without_samples(s: SharedView)
    requires
        s.history.len() == 0,
    ensures
        ({
            let stats = crate::samples::stats_of(s);
            &&& stats.samples == 0
            &&& stats.duration_s.bits == 0 && stats.mean_ua.bits == 0 && stats.min_ua.bits == 0
                && stats.max_ua.bits == 0 && stats.stddev_ua.bits == 0 && stats.charge_uc.bits == 0
                && stats.charge_mah.bits == 0 && stats.avg_ma.bits == 0
            &&& forall|i: int| 0 <= i < 8 ==> (#[trigger] stats.pin_duty@[i]).bits == 0
        }),
{
}

/// The minimum and the maximum are currents of the session, and none lies below the one
/// or above the other.
pub proof fn lemma_extremes_of_all_samples(s: SharedView, i: int)
    requires
        all_finite(s.history),
        0 <= i < s.history.len(),
    ensures
        ({
            let stats = crate::samples::stats_of(s);
            let x = crate::arith::widened(s.history[i].ua).value();
            &&& stats.min_ua.value() <= x <= stats.max_ua.value()
            &&& exists|j: int|
                0 <= j < s.history.len() && stats.min_ua == crate::arith::widened(
                    (#[trigger] s.history[j]).ua,
                )
            &&& exists|j: int|
                0 <= j < s.history.len() && stats.max_ua == crate::arith::widened(
                    (#[trigger] s.history[j]).ua,
                )
        }),
{
    let h = s.history;
    let least = crate::samples::running_min(h);
    let most = crate::samples::running_max(h);
    lemma_extremes_finite(h);
    crate::samples::lemma_extremes(h);
    crate::samples::lemma_samples_between_extremes(h, i);
    crate::arith::lemma_widened(least);
    crate::arith::lemma_widened(most);
    crate::arith::lemma_widened(h[i].ua);
    assert(least.value() * pow2(925) <= h[i].ua.value() * pow2(925) <= most.value() * pow2(925))
        by (nonlinear_arith)
        requires
            least.value() <= h[i].ua.value() <= most.value(),
            pow2(925) >= 0,
    ;
    assert(least.bits != crate::ieee::SINGLE_INFINITY) by {
        assert((crate::ieee::Single { bits: crate::ieee::SINGLE_INFINITY }).exp() == 0xff);
    }
    assert(most.bits != crate::ieee::SINGLE_NEG_INFINITY) by {
        assert((crate::ieee::Single { bits: crate::ieee::SINGLE_NEG_INFINITY }).exp() == 0xff);
    }
}

/// The duty cycle of a pin is the number of samples that have its bit set, the bit of D0
/// being the lowest, over the number of all samples, but for rounding.
pub proof fn lemma_duty_of_all_samples(s: SharedView, i: int)
    requires
        0 < s.history.len() <= TWO_52,
        0 <= i < 8,
    ensures
        ({
            let o = crate::rounding::one();
            let n = s.history.len();
            let k = s.history.filter(
                |x: Sample| (x.pins as int / pow2(i as nat) as int) % 2 == 1,
            ).len();
            let duty = crate::samples::stats_of(s).pin_duty@[i];
            -(k * o + TWO_52 * n) <= (k * o - duty.value() * n) * (2 * TWO_52) <= k * o + TWO_52 * n
        }),
{
    let h = s.history;
    crate::samples::lemma_high_count(h, i);
    crate::samples::lemma_high_count_bounded(h, i);
    let k = crate::samples::high_count(h, i);
    lemma_count_value(k);
    lemma_quotient(crate::arith::whole(k), h.len(), 1138);
    assert(crate::samples::stats_of(s).pin_duty@[i] == crate::samples::duty(h, i));
}

/// A current that is not a number leaves neither the mean nor the charge a number.
pub proof fn lemma_no_number_shows(s: SharedView, i: int)
    requires
        0 <= i < s.history.len(),
        s.history[i].ua.is_nan(),
    ensures
        crate::samples::stats_of(s).mean_ua.is_nan(),
        crate::samples::stats_of(s).avg_ma.is_nan(),
        s.sps > 0 ==> crate::samples::stats_of(s).charge_uc.is_nan(),
        s.sps > 0 ==> crate::samples::stats_of(s).charge_mah.is_nan(),
        crate::samples::stats_of(s).stddev_ua.value() == 0,
        crate::samples::running_squares(s.history).is_nan(),
{
    lemma_sums_are_no_numbers(s.history, i);
}

proof fn lemma_sums_are_no_numbers(history: Seq<Sample>, i: int)
    requires
        0 <= i < history.len(),
        history[i].ua.is_nan(),
    ensures
        crate::samples::running_sum(history).is_nan(),
        crate::samples::running_squares(history).is_nan(),
    decreases history.len(),
{
    assert(crate::arith::no_number().is_nan());
    let before = history.drop_last();
    if i < before.len() {
        assert(before[i] == history[i]);
        lemma_sums_are_no_numbers(before, i);
    }
}

/// One more sample, however many came before, adds its current to the running sum and the
/// square of it to the running sum of squares: of all values, each sum becomes the one that
/// lies nearest to the exact result.
pub proof fn lemma_one_more_sample(history: Seq<Sample>, s: Sample, c: Double)
    requires
        s.ua.is_finite(),
        c.is_finite(),
    ensures
        ({
            let x = crate::arith::widened(s.ua).value();
            let before = crate::samples::running_sum(history);
            let after = crate::samples::running_sum(history.push(s));
            before.is_finite() && after.is_finite() ==> vstd::math::abs(
                before.value() + x - after.value(),
            ) <= vstd::math::abs(before.value() + x - c.value())
        }),
        ({
            let o = crate::rounding::one();
            let x = crate::arith::widened(s.ua).value();
            let before = crate::samples::running_squares(history);
            let after = crate::samples::running_squares(history.push(s));
            before.is_finite() && after.is_finite() ==> vstd::math::abs(
                before.value() * o + x * x - after.value() * o,
            ) <= vstd::math::abs(before.value() * o + x * x - c.value() * o)
        }),
        crate::samples::running_sum(Seq::empty()).value() == 0,
        crate::samples::running_squares(Seq::empty()).value() == 0,
{
    lemma_zero();
    let o = crate::rounding::one();
    let v = crate::arith::widened(s.ua);
    let sq = crate::arith::times(v, v);
    assert(history.push(s).drop_last() =~= history);
    crate::arith::lemma_widened(s.ua);
    lemma_square_is_exact(s.ua);
    let sum = crate::samples::running_sum(history);
    let squares = crate::samples::running_squares(history);
    if sum.is_finite() && crate::arith::plus(sum, v).is_finite() {
        crate::arith::lemma_sum_is_nearest(sum, v, c);
    }
    if squares.is_finite() && crate::arith::plus(squares, sq).is_finite() {
        crate::arith::lemma_sum_is_nearest(squares, sq, c);
        let (a, b, p, d) = (
            squares.value(),
            sq.value(),
            crate::arith::plus(squares, sq).value(),
            c.value(),
        );
        lemma_pow2_pos(1074);
        assert(a * o + b * o - p * o == (a + b - p) * o && a * o + b * o - d * o == (a + b - d)
            * o) by (nonlinear_arith);
        lemma_scaled_distance(a + b - p, a + b - d, o);
    }
}

/// What lies nearer does so in every unit.
proof fn lemma_scaled_distance(x: int, y: int, o: nat)
    requires
        vstd::math::abs(x) <= vstd::math::abs(y),
    ensures
        vstd::math::abs(x * o) <= vstd::math::abs(y * o),
{
    assert(x >= 0 ==> x * o >= 0) by (nonlinear_arith);
    assert(y >= 0 ==> y * o >= 0) by (nonlinear_arith);
    assert((-x) * o == -(x * o) && (-y) * o == -(y * o)) by (nonlinear_arith);
    assert(-x >= 0 ==> (-x) * o >= 0) by (nonlinear_arith);
    assert(-y >= 0 ==> (-y) * o >= 0) by (nonlinear_arith);
    let (u, w) = (vstd::math::abs(x), vstd::math::abs(y));
    assert(u * o <= w * o) by (nonlinear_arith)
        requires
            u <= w,
    ;
}

} // verus!
