//! The samples of a measurement session: a rolling window and running statistics.

use std::collections::VecDeque;

use vstd::prelude::*;

use crate::ieee::{Double, Single, SINGLE_INFINITY, SINGLE_NEG_INFINITY};
use crate::trigger::{pin_is_high, pins_to_byte, Level};

verus! {

/// 1 mAh expressed in microcoulombs (µC): 1 mAh = 3.6 C = 3.6e6 µC.
pub const UC_PER_MAH: u64 = 3_600_000;

/// One aggregated sample: the current (µA) and the packed state of the eight pins.
#[derive(Clone, Copy, Debug, PartialEq, Eq, Structural)]
pub struct Sample {
    pub ua: Single,
    pub pins: u8,
}

/// Aggregate statistics over a measurement session.
#[derive(Clone, Copy, Debug)]
pub struct Stats {
    /// Number of aggregated samples collected.
    pub samples: u64,
    /// Duration derived from sample count and sps (seconds).
    pub duration_s: Double,
    /// Mean current (µA).
    pub mean_ua: Double,
    /// Minimum sampled current (µA).
    pub min_ua: Double,
    /// Maximum sampled current (µA).
    pub max_ua: Double,
    /// Population standard deviation of current (µA).
    pub stddev_ua: Double,
    /// Time-integrated charge (µC).
    pub charge_uc: Double,
    /// Time-integrated charge (mAh).
    pub charge_mah: Double,
    /// Mean current expressed in mA.
    pub avg_ma: Double,
    /// Fraction of samples (0.0–1.0) each digital channel D0–D7 read high.
    pub pin_duty: [Double; 8],
}

/// What the measurement stream delivers next.
#[derive(Clone, Copy, Debug)]
pub enum DrainEvent {
    /// A window that the trigger let through.
    Match { ua: Single, levels: [Level; 8] },
    /// A window that the trigger filtered out.
    NoMatch,
    /// Nothing came in time.
    Timeout,
    /// The stream has ended.
    Disconnected,
}

/// The last samples of a session, no more than `cap` of them, but always the latest.
pub open spec fn window(history: Seq<Sample>, cap: usize) -> Seq<Sample> {
    let n: int = if cap == 0 {
        1
    } else {
        cap as int
    };
    if history.len() <= n {
        history
    } else {
        history.skip(history.len() - n)
    }
}

/// The least current of the samples: of equal ones the first, and infinity where no
/// sample lies below it.
pub open spec fn running_min(history: Seq<Sample>) -> Single
    decreases history.len(),
{
    if history.len() == 0 {
        Single { bits: SINGLE_INFINITY }
    } else {
        let before = running_min(history.drop_last());
        if history.last().ua.lt(before) {
            history.last().ua
        } else {
            before
        }
    }
}

/// The greatest current of the samples: of equal ones the first, and negative
/// infinity where no sample lies above it.
pub open spec fn running_max(history: Seq<Sample>) -> Single
    decreases history.len(),
{
    if history.len() == 0 {
        Single { bits: SINGLE_NEG_INFINITY }
    } else {
        let before = running_max(history.drop_last());
        if before.lt(history.last().ua) {
            history.last().ua
        } else {
            before
        }
    }
}

/// The sum of the currents, rounded at each sample.
pub open spec fn running_sum(history: Seq<Sample>) -> Double
    decreases history.len(),
{
    if history.len() == 0 {
        Double { bits: 0 }
    } else {
        crate::arith::plus(
            running_sum(history.drop_last()),
            crate::arith::widened(history.last().ua),
        )
    }
}

/// The sum of the squares of the currents, rounded at each sample.
pub open spec fn running_squares(history: Seq<Sample>) -> Double
    decreases history.len(),
{
    if history.len() == 0 {
        Double { bits: 0 }
    } else {
        let v = crate::arith::widened(history.last().ua);
        crate::arith::plus(running_squares(history.drop_last()), crate::arith::times(v, v))
    }
}

/// In how many samples pin `i` read high.
pub open spec fn high_count(history: Seq<Sample>, i: int) -> nat
    decreases history.len(),
{
    if history.len() == 0 {
        0
    } else {
        high_count(history.drop_last(), i) + if crate::trigger::pin_high(history.last().pins, i) {
            1nat
        } else {
            0nat
        }
    }
}

/// A session as its contracts see it.
pub struct SharedView {
    /// Every sample since the session began, oldest first.
    pub history: Seq<Sample>,
    /// How many samples the rolling window keeps.
    pub cap: usize,
    /// Samples per second.
    pub sps: usize,
}

impl SharedView {
    /// A session that has just begun.
    pub open spec fn begun(sps: usize, cap: usize) -> SharedView {
        SharedView { history: Seq::empty(), cap, sps }
    }

    /// The session after one more event of the measurement stream: a window that the
    /// trigger let through is recorded, and nothing else is.
    pub open spec fn drained(self, event: DrainEvent) -> SharedView {
        match event {
            DrainEvent::Match { ua, levels } => SharedView {
                history: self.history.push(Sample { ua, pins: crate::trigger::packed(levels@) }),
                ..self
            },
            _ => self,
        }
    }

    /// The session after a run of events.
    pub open spec fn drained_all(self, events: Seq<DrainEvent>) -> SharedView
        decreases events.len(),
    {
        if events.len() == 0 {
            self
        } else {
            self.drained_all(events.drop_last()).drained(events.last())
        }
    }
}

/// The samples of the windows that the trigger let through, in order.
pub open spec fn matched(events: Seq<DrainEvent>) -> Seq<Sample>
    decreases events.len(),
{
    if events.len() == 0 {
        Seq::empty()
    } else {
        let before = matched(events.drop_last());
        match events.last() {
            DrainEvent::Match { ua, levels } => before.push(
                Sample { ua, pins: crate::trigger::packed(levels@) },
            ),
            _ => before,
        }
    }
}

/// The statistics of a session without samples: every figure is zero.
pub open spec fn zero_stats() -> Stats {
    let zero = Double { bits: 0 };
    Stats {
        samples: 0,
        duration_s: zero,
        mean_ua: zero,
        min_ua: zero,
        max_ua: zero,
        stddev_ua: zero,
        charge_uc: zero,
        charge_mah: zero,
        avg_ma: zero,
        pin_duty: [zero, zero, zero, zero, zero, zero, zero, zero],
    }
}

/// The mean current.
pub open spec fn mean(history: Seq<Sample>) -> Double {
    crate::arith::over(running_sum(history), crate::arith::whole(history.len()))
}

/// The population variance of the current: the mean of the squares less the square of the
/// mean, and zero where rounding leaves less than that.
pub open spec fn variance(history: Seq<Sample>) -> Double {
    let m = mean(history);
    crate::arith::at_least_zero(
        crate::arith::minus(
            crate::arith::over(running_squares(history), crate::arith::whole(history.len())),
            crate::arith::times(m, m),
        ),
    )
}

/// `total` per sample at `sps` samples per second, taken over the whole session. Without
/// a rate it is zero.
pub open spec fn per_rate(total: Double, sps: usize) -> Double {
    if sps > 0 {
        crate::arith::over(total, crate::arith::whole(sps as nat))
    } else {
        Double { bits: 0 }
    }
}

/// The fraction of the samples in which pin `i` read high.
pub open spec fn duty(history: Seq<Sample>, i: int) -> Double {
    crate::arith::over(
        crate::arith::whole(high_count(history, i)),
        crate::arith::whole(history.len()),
    )
}

/// The statistics of the session `s`. Without samples every figure is zero; without a
/// rate the duration and the charge are.
pub open spec fn stats_of(s: SharedView) -> Stats {
    if s.history.len() == 0 {
        zero_stats()
    } else {
        let h = s.history;
        let charge = per_rate(running_sum(h), s.sps);
        Stats {
            samples: h.len() as u64,
            duration_s: per_rate(crate::arith::whole(h.len()), s.sps),
            mean_ua: mean(h),
            min_ua: crate::arith::widened(running_min(h)),
            max_ua: crate::arith::widened(running_max(h)),
            stddev_ua: crate::arith::root(variance(h)),
            charge_uc: charge,
            charge_mah: crate::arith::over(charge, crate::arith::whole(UC_PER_MAH as nat)),
            avg_ma: crate::arith::over(mean(h), crate::arith::whole(1000)),
            pin_duty: [
                duty(h, 0),
                duty(h, 1),
                duty(h, 2),
                duty(h, 3),
                duty(h, 4),
                duty(h, 5),
                duty(h, 6),
                duty(h, 7),
            ],
        }
    }
}

/// The state of a session that the measurement stream fills and queries read.
pub struct Shared {
    buf: VecDeque<Sample>,
    cap: usize,
    count: u64,
    sum: Double,
    sum_sq: Double,
    min: Single,
    max: Single,
    pin_high: [u64; 8],
    sps: usize,
    history: Ghost<Seq<Sample>>,
}

impl View for Shared {
    type V = SharedView;

    closed spec fn view(&self) -> SharedView {
        SharedView { history: self.history@, cap: self.cap, sps: self.sps }
    }
}

impl Shared {
    /// What is kept agrees with the samples that came.
    pub closed spec fn wf(&self) -> bool {
        &&& self.buf@ == window(self.history@, self.cap)
        &&& self.count == self.history@.len()
        &&& self.sum == running_sum(self.history@)
        &&& self.sum_sq == running_squares(self.history@)
        &&& self.min == running_min(self.history@)
        &&& self.max == running_max(self.history@)
        &&& forall|i: int|
            0 <= i < 8 ==> (#[trigger] self.pin_high@[i]) == high_count(self.history@, i)
    }

    /// An empty session at `sps` samples per second that keeps the last `cap` samples.
    pub fn new(sps: usize, cap: usize) -> (r: Shared)
        ensures
            r.wf(),
            r@ == SharedView::begun(sps, cap),
    {
        let room: usize = if cap < 0x10_0000 {
            cap
        } else {
            0x10_0000
        };
        Shared {
            buf: VecDeque::with_capacity(room),
            cap,
            count: 0,
            sum: Double { bits: 0 },
            sum_sq: Double { bits: 0 },
            min: Single { bits: SINGLE_INFINITY },
            max: Single { bits: SINGLE_NEG_INFINITY },
            pin_high: [0; 8],
            sps,
            history: Ghost(Seq::empty()),
        }
    }

    /// Record one sample.
    pub fn push(&mut self, ua: Single, pins: u8)
        requires
            old(self).wf(),
            old(self)@.history.len() < u64::MAX,
        ensures
            final(self).wf(),
            final(self)@ == (SharedView {
                history: old(self)@.history.push(Sample { ua, pins }),
                ..old(self)@
            }),
    {
        let sample = Sample { ua, pins };
        let ghost before = self.history@;
        let ghost after = before.push(sample);
        assert(after.drop_last() =~= before);
        if self.buf.len() >= self.cap {
            let _ = self.buf.pop_front();
        }
        self.buf.push_back(sample);
        assert(self.buf@ =~= window(after, self.cap));
        self.count = self.count + 1;
        let v: Double = ua.widen();
        self.sum = self.sum.sum(v);
        self.sum_sq = self.sum_sq.sum(v.product(v));
        if ua.less(self.min) {
            self.min = ua;
        }
        if self.max.less(ua) {
            self.max = ua;
        }
        let ghost counts = self.pin_high@;
        let mut i: usize = 0;
        while i < 8
            invariant
                i <= 8,
                after == before.push(sample),
                after.drop_last() == before,
                sample.pins == pins,
                before.len() < u64::MAX,
                self.history@ == before,
                self.cap == old(self).cap,
                self.sps == old(self).sps,
                self.sum == running_sum(after),
                self.sum_sq == running_squares(after),
                self.buf@ == window(after, self.cap),
                self.count == after.len(),
                self.min == running_min(after),
                self.max == running_max(after),
                forall|j: int|
                    0 <= j < i ==> (#[trigger] self.pin_high@[j]) == high_count(after, j),
                forall|j: int|
                    i <= j < 8 ==> (#[trigger] self.pin_high@[j]) == high_count(before, j),
            decreases 8 - i,
        {
            if pin_is_high(pins, i) {
                proof {
                    lemma_high_count_bounded(before, i as int);
                }
                self.pin_high[i] = self.pin_high[i] + 1;
            }
            i = i + 1;
        }
        self.history = Ghost(after);
    }

    /// Take in what the measurement stream delivers next: a window that matched is
    /// recorded, one that did not leaves no trace. Says whether to go on draining.
    pub fn drain(&mut self, event: DrainEvent) -> (go_on: bool)
        requires
            old(self).wf(),
            event is Match ==> old(self)@.history.len() < u64::MAX,
        ensures
            final(self).wf(),
            go_on == !(event is Disconnected),
            final(self)@ == old(self)@.drained(event),
    {
        match event {
            DrainEvent::Match { ua, levels } => {
                let pins: u8 = pins_to_byte(&levels);
                self.push(ua, pins);
                true
            },
            DrainEvent::NoMatch => true,
            DrainEvent::Timeout => true,
            DrainEvent::Disconnected => false,
        }
    }

    /// How many samples came since the session began.
    pub fn count(&self) -> (r: u64)
        requires
            self.wf(),
        ensures
            r == self@.history.len(),
    {
        self.count
    }

    /// Samples per second.
    pub fn sps(&self) -> (r: usize)
        ensures
            r == self@.sps,
    {
        self.sps
    }

    /// How many samples the rolling window keeps.
    pub fn cap(&self) -> (r: usize)
        ensures
            r == self@.cap,
    {
        self.cap
    }

    /// How many samples the rolling window holds.
    pub fn buffered(&self) -> (r: usize)
        requires
            self.wf(),
        ensures
            r == window(self@.history, self@.cap).len(),
    {
        self.buf.len()
    }

    /// The samples in the rolling window, oldest first.
    pub fn samples(&self) -> (r: Vec<Sample>)
        requires
            self.wf(),
        ensures
            r@ == window(self@.history, self@.cap),
    {
        let mut r: Vec<Sample> = Vec::new();
        let mut i: usize = 0;
        while i < self.buf.len()
            invariant
                i <= self.buf@.len(),
                r@ == self.buf@.take(i as int),
            decreases self.buf@.len() - i,
        {
            r.push(self.buf[i]);
            assert(r@ =~= self.buf@.take(i + 1));
            i = i + 1;
        }
        assert(self.buf@.take(self.buf@.len() as int) =~= self.buf@);
        r
    }

    /// The fraction of the samples in which pin `i` read high, of `n` samples.
    fn duty(&self, i: usize, n: Double) -> (r: Double)
        requires
            self.wf(),
            i < 8,
            n == crate::arith::whole(self@.history.len()),
        ensures
            r == duty(self@.history, i as int),
    {
        Double::from_whole(self.pin_high[i]).quotient(n)
    }

    /// The statistics of the session.
    pub fn stats(&self) -> (r: Stats)
        requires
            self.wf(),
        ensures
            r == stats_of(self@),
            r.samples == self@.history.len(),
    {
        let zero = Double { bits: 0 };
        if self.count == 0 {
            let pin_duty: [Double; 8] = [zero; 8];
            assert(pin_duty =~= zero_stats().pin_duty);
            return Stats {
                samples: 0,
                duration_s: zero,
                mean_ua: zero,
                min_ua: zero,
                max_ua: zero,
                stddev_ua: zero,
                charge_uc: zero,
                charge_mah: zero,
                avg_ma: zero,
                pin_duty,
            };
        }
        let n: Double = Double::from_whole(self.count);
        let pin_duty: [Double; 8] = [
            self.duty(0, n),
            self.duty(1, n),
            self.duty(2, n),
            self.duty(3, n),
            self.duty(4, n),
            self.duty(5, n),
            self.duty(6, n),
            self.duty(7, n),
        ];
        let mean: Double = self.sum.quotient(n);
        let var: Double = self.sum_sq.quotient(n).difference(mean.product(mean)).or_zero();
        let (charge_uc, duration_s): (Double, Double) = if self.sps > 0 {
            let sps: Double = Double::from_whole(self.sps as u64);
            (self.sum.quotient(sps), n.quotient(sps))
        } else {
            (zero, zero)
        };
        let r = Stats {
            samples: self.count,
            duration_s,
            mean_ua: mean,
            min_ua: self.min.widen(),
            max_ua: self.max.widen(),
            stddev_ua: var.square_root(),
            charge_uc,
            charge_mah: charge_uc.quotient(Double::from_whole(UC_PER_MAH)),
            avg_ma: mean.quotient(Double::from_whole(1000)),
            pin_duty,
        };
        assert(r.pin_duty =~= stats_of(self@).pin_duty);
        r
    }
}

/// No pin reads high in more samples than there are: a duty cycle lies between zero
/// and one.
pub proof fn lemma_high_count_bounded(history: Seq<Sample>, i: int)
    ensures
        high_count(history, i) <= history.len(),
    decreases history.len(),
{
    if history.len() > 0 {
        lemma_high_count_bounded(history.drop_last(), i);
    }
}

/// The rolling window never holds more than its capacity, and holds as many samples
/// as came up to that.
pub proof fn lemma_window_bounded(history: Seq<Sample>, cap: usize)
    requires
        cap > 0,
    ensures
        window(history, cap).len() <= cap,
        window(history, cap).len() == if history.len() < cap { history.len() } else { cap as nat },
{
}

/// The rolling window is the end of the session: its samples came last, in the order
/// in which it holds them.
pub proof fn lemma_window_is_suffix(history: Seq<Sample>, cap: usize)
    ensures
        window(history, cap).len() <= history.len(),
        window(history, cap) == history.skip(history.len() - window(history, cap).len()),
{
    assert(history.skip(0) =~= history);
}

/// While no more samples came than the window has room for, none is lost.
pub proof fn lemma_window_keeps_all(history: Seq<Sample>, cap: usize)
    requires
        history.len() <= cap,
    ensures
        window(history, cap) == history,
{
}

/// A session records exactly the windows that matched the trigger, in the order in
/// which they came; everything else is dropped, and the capacity and the rate stay.
pub proof fn lemma_only_matches_recorded(s: SharedView, events: Seq<DrainEvent>)
    ensures
        s.drained_all(events).history == s.history + matched(events),
        s.drained_all(events).cap == s.cap,
        s.drained_all(events).sps == s.sps,
    decreases events.len(),
{
    if events.len() == 0 {
        assert(s.history + matched(events) =~= s.history);
    } else {
        lemma_only_matches_recorded(s, events.drop_last());
        assert(s.drained_all(events).history =~= s.history + matched(events));
    }
}

/// The minimum lies above no sample, and the maximum below none. Each is the current
/// of some sample, or the infinity that the session began with.
pub proof fn lemma_extremes(history: Seq<Sample>)
    ensures
        forall|i: int|
            0 <= i < history.len() ==> !(#[trigger] history[i]).ua.lt(running_min(history)),
        forall|i: int|
            0 <= i < history.len() ==> !running_max(history).lt((#[trigger] history[i]).ua),
        running_min(history).bits == SINGLE_INFINITY || exists|i: int|
            0 <= i < history.len() && (#[trigger] history[i]).ua == running_min(history),
        running_max(history).bits == SINGLE_NEG_INFINITY || exists|i: int|
            0 <= i < history.len() && (#[trigger] history[i]).ua == running_max(history),
        !running_min(history).is_nan(),
        !running_max(history).is_nan(),
    decreases history.len(),
{
    if history.len() > 0 {
        let before = history.drop_last();
        let last = history.last();
        lemma_extremes(before);
        assert(history[history.len() - 1] == last);
        assert forall|i: int| 0 <= i < history.len() implies !(#[trigger] history[i]).ua.lt(
            running_min(history),
        ) by {
            if i < before.len() {
                assert(history[i] == before[i]);
            }
        }
        assert forall|i: int| 0 <= i < history.len() implies !running_max(history).lt(
            (#[trigger] history[i]).ua,
        ) by {
            if i < before.len() {
                assert(history[i] == before[i]);
            }
        }
        if running_min(history) == running_min(before) && running_min(before).bits
            != SINGLE_INFINITY {
            let i = choose|i: int|
                0 <= i < before.len() && (#[trigger] before[i]).ua == running_min(before);
            assert(history[i].ua == running_min(history));
        }
        if running_max(history) == running_max(before) && running_max(before).bits
            != SINGLE_NEG_INFINITY {
            let i = choose|i: int|
                0 <= i < before.len() && (#[trigger] before[i]).ua == running_max(before);
            assert(history[i].ua == running_max(history));
        }
    }
}

/// Every sample that is a number lies between the minimum and the maximum.
pub proof fn lemma_samples_between_extremes(history: Seq<Sample>, i: int)
    requires
        0 <= i < history.len(),
        !history[i].ua.is_nan(),
    ensures
        running_min(history).value() <= history[i].ua.value() <= running_max(history).value(),
{
    lemma_extremes(history);
}

/// A pin reads high in as many samples as have its bit set, the bit of D0 being the lowest.
pub proof fn lemma_high_count(history: Seq<Sample>, i: int)
    requires
        0 <= i < 8,
    ensures
        high_count(history, i) == history.filter(
            |s: Sample| (s.pins as int / vstd::arithmetic::power2::pow2(i as nat) as int) % 2 == 1,
        ).len(),
    decreases history.len(),
{
    reveal(Seq::filter);
    if history.len() > 0 {
        lemma_high_count(history.drop_last(), i);
        crate::trigger::lemma_pin_is_a_bit(history.last().pins, i);
    }
}

/// What a session records is one sample for each window that matched, in order, with the
/// current of the window and the bit of each pin set where the pin is at high level; what
/// did not match, and the rest, leaves no trace.
pub proof fn lemma_matched(events: Seq<DrainEvent>)
    ensures
        ({
            let f = events.filter(|e: DrainEvent| e is Match);
            &&& matched(events).len() == f.len()
            &&& forall|k: int|
                0 <= k < f.len() ==> (#[trigger] matched(events)[k]).ua == f[k]->ua
                    && forall|i: int|
                    0 <= i < 8 ==> (matched(events)[k].pins as int
                        / vstd::arithmetic::power2::pow2(i as nat) as int) % 2 == if (
                    #[trigger] f[k]->levels@[i]) == Level::High {
                        1int
                    } else {
                        0int
                    }
        }),
    decreases events.len(),
{
    reveal(Seq::filter);
    if events.len() > 0 {
        let before = events.drop_last();
        lemma_matched(before);
        let f = events.filter(|e: DrainEvent| e is Match);
        let g = before.filter(|e: DrainEvent| e is Match);
        let m = matched(events);
        assert forall|k: int| 0 <= k < f.len() implies (#[trigger] m[k]).ua == f[k]->ua
            && forall|i: int|
            0 <= i < 8 ==> (m[k].pins as int / vstd::arithmetic::power2::pow2(i as nat) as int) % 2
                == if (#[trigger] f[k]->levels@[i]) == Level::High {
                1int
            } else {
                0int
            } by {
            if k < g.len() {
                assert(m[k] == matched(before)[k]);
                assert(f[k] == g[k]);
            } else {
                let levels = events.last()->levels@;
                assert forall|i: int| 0 <= i < 8 implies (m[k].pins as int
                    / vstd::arithmetic::power2::pow2(i as nat) as int) % 2 == if (
                #[trigger] f[k]->levels@[i]) == Level::High {
                    1int
                } else {
                    0int
                } by {
                    crate::trigger::lemma_packed_by_bit(levels, i);
                }
            }
        }
    }
}

/// A window without capacity holds the latest sample.
pub proof fn lemma_window_without_capacity(history: Seq<Sample>)
    ensures
        history.len() > 0 ==> window(history, 0) == seq![history.last()],
        history.len() == 0 ==> window(history, 0).len() == 0,
{
    if history.len() > 0 {
        assert(window(history, 0) =~= seq![history.last()]);
    }
}

/// A session that has just begun has no samples, and the rate and the capacity that it was
/// begun with.
pub proof fn lemma_begun(sps: usize, cap: usize)
    ensures
        SharedView::begun(sps, cap).history.len() == 0,
        SharedView::begun(sps, cap).sps == sps,
        SharedView::begun(sps, cap).cap == cap,
{
}

} // verus!
