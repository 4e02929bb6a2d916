//! What each tool does, from its arguments to its answer: what is asked of the device and
//! in which order, what is answered, and what is different afterwards.

use vstd::prelude::*;

use crate::controller::{ControllerView, Retention, Session, StartPlan, State};
use crate::error::ControllerError;
use crate::ieee::Double;
use crate::mode::MeasurementMode;
use crate::samples::{Sample, SharedView};
use crate::server::{ActionView, EventView, Heading, JobView, ReplyView, ServerView, StepView};
use crate::trigger::Level;

verus! {

/// A source voltage (mV) that the device can supply and the ceiling allows.
pub open spec fn voltage_ok(mv: u16, ceiling_mv: u16) -> bool {
    800 <= mv && mv <= 5000 && mv <= ceiling_mv
}

/// The text that answers a source voltage that is not allowed.
pub open spec fn voltage_refusal(mv: u16, ceiling_mv: u16) -> Seq<char> {
    if mv < 800 {
        ControllerError::BelowMinimum { mv }.text()
    } else if mv > 5000 {
        ControllerError::AboveHardwareMaximum { mv }.text()
    } else {
        ControllerError::AboveCeiling { mv, ceiling_mv }.text()
    }
}

/// Whether a character of a trigger pattern asks for that level.
pub open spec fn asks_for(c: char, level: Level) -> bool {
    match level {
        Level::High => c == '1' || c == 'H' || c == 'h',
        Level::Low => c == '0' || c == 'L' || c == 'l',
        Level::Either => c == 'X' || c == 'x' || c == '.' || c == '*',
    }
}

/// Whether a character asks for any level.
pub open spec fn is_level(c: char) -> bool {
    asks_for(c, Level::High) || asks_for(c, Level::Low) || asks_for(c, Level::Either)
}

/// Whether a trigger is a pattern of eight levels, or none at all.
pub open spec fn trigger_ok(trigger: Option<Seq<char>>) -> bool {
    match trigger {
        None => true,
        Some(p) => {
            let t = crate::text::trimmed(p);
            t.len() == 8 && forall|i: int| 0 <= i < 8 ==> is_level(#[trigger] t[i])
        },
    }
}

/// Whether the levels are those that a trigger asks for, pin by pin: any on every pin
/// where there is none.
pub open spec fn sets_pins(trigger: Option<Seq<char>>, pins: [Level; 8]) -> bool {
    match trigger {
        None => forall|i: int| 0 <= i < 8 ==> (#[trigger] pins@[i]) == Level::Either,
        Some(p) => forall|i: int|
            0 <= i < 8 ==> asks_for(crate::text::trimmed(p)[i], #[trigger] pins@[i]),
    }
}

/// Whether a text answers a trigger that is not a pattern of eight levels: it tells the
/// length that is not eight, or the leftmost character that asks for no level.
pub open spec fn refuses_trigger(trigger: Option<Seq<char>>, text: Seq<char>) -> bool {
    let t = crate::text::trimmed(trigger->0);
    if t.len() != 8 {
        text == ControllerError::TriggerLength { len: t.len() as usize }.text()
    } else {
        exists|i: int|
            0 <= i < 8 && !is_level(#[trigger] t[i]) && (forall|j: int|
                0 <= j < i ==> is_level(#[trigger] t[j])) && text == ControllerError::TriggerChar {
                c: t[i],
                position: i as usize,
            }.text()
    }
}

/// What a character of a pattern stands for.
proof fn lemma_level(c: char)
    ensures
        crate::trigger::level_of(c) is Some <==> is_level(c),
        forall|l: Level| crate::trigger::level_of(c) == Some(l) <==> #[trigger] asks_for(c, l),
{
    assert forall|l: Level| crate::trigger::level_of(c) == Some(l) <==> #[trigger] asks_for(
        c,
        l,
    ) by {
        match l {
            Level::High => {},
            Level::Low => {},
            Level::Either => {},
        }
    }
    assert(is_level(c) <==> asks_for(c, Level::High) || asks_for(c, Level::Low) || asks_for(
        c,
        Level::Either,
    ));
}

/// The leftmost character that asks for no level.
proof fn lemma_first_bad(t: Seq<char>, i: int) -> (k: int)
    requires
        0 <= i <= t.len(),
        forall|j: int| 0 <= j < i ==> is_level(#[trigger] t[j]),
    ensures
        k == crate::trigger::first_bad(t, i),
        i <= k <= t.len(),
        k < t.len() ==> !is_level(t[k]),
        forall|j: int| 0 <= j < k ==> is_level(#[trigger] t[j]),
    decreases t.len() - i,
{
    if i < t.len() {
        lemma_level(t[i]);
        if is_level(t[i]) {
            lemma_first_bad(t, i + 1)
        } else {
            i
        }
    } else {
        i
    }
}

/// A trigger is accepted exactly where it is a pattern of eight levels, or none at all:
/// then each pin has the level that its character asks for. Otherwise the text tells what
/// is wrong with it.
pub proof fn lemma_trigger_is_read(trigger: Option<Seq<char>>)
    ensures
        crate::trigger::trigger_option(trigger) is Ok <==> trigger_ok(trigger),
        crate::trigger::trigger_option(trigger) matches Ok(None) ==> trigger is None,
        crate::trigger::trigger_option(trigger) matches Ok(Some(levels)) ==> trigger is Some
            && sets_pins(trigger, levels),
        crate::trigger::trigger_option(trigger) matches Err(e) ==> refuses_trigger(
            trigger,
            e.text(),
        ),
{
    match trigger {
        None => {},
        Some(p) => {
            let t = crate::text::trimmed(p);
            if t.len() == 8 {
                let k = lemma_first_bad(t, 0);
                if k == 8 {
                    let levels = crate::trigger::trigger_result(t)->Ok_0;
                    lemma_level(t[0]);
                    lemma_level(t[1]);
                    lemma_level(t[2]);
                    lemma_level(t[3]);
                    lemma_level(t[4]);
                    lemma_level(t[5]);
                    lemma_level(t[6]);
                    lemma_level(t[7]);
                    assert forall|i: int| 0 <= i < 8 implies asks_for(
                        t[i],
                        #[trigger] levels@[i],
                    ) by {
                        assert(is_level(t[i]));
                    }
                } else {
                    assert(!is_level(t[k]));
                }
            }
        },
    }
}

/// A call that ends at once with an error, and leaves all as it was.
pub open spec fn refused(s: ServerView, r: (ServerView, StepView), text: Seq<char>) -> bool {
    r.0 == s && r.1 == (StepView::Answer { result: Err(text) })
}

/// A call that ends with a text.
pub open spec fn says(step: StepView, text: Seq<char>) -> bool {
    step == (StepView::Answer { result: Ok(ReplyView::Text { text }) })
}

/// A call that ends with an error.
pub open spec fn fails(step: StepView, text: Seq<char>) -> bool {
    step == (StepView::Answer { result: Err(text) })
}

/// A call that asks for something to be done.
pub open spec fn asks(step: StepView, action: ActionView) -> bool {
    step == (StepView::Perform { action })
}

/// A server with that controller and no call under way.
pub open spec fn at_rest(s: ServerView, c: ControllerView) -> ServerView {
    ServerView { ctl: Some(c), job: JobView::Free, ..s }
}

/// `ppk2_connect` opens the port that is named, or `/dev/ttyACM0`, in the mode that is
/// named, or as a source, whatever the other arguments; then it switches DUT power off;
/// then it sets the voltage that is named, or 3300 mV. The controller that results has
/// that port, mode and voltage, has its power off and no session behind it, and the
/// answer tells so. A mode without meaning or a voltage that is not allowed is refused
/// before anything is done.
pub proof fn lemma_connect(
    s: ServerView,
    port: Option<Seq<char>>,
    mode: Option<Seq<char>>,
    voltage_mv: Option<u16>,
)
    ensures
        ({
            let p = match port {
                Some(p) => p,
                None => "/dev/ttyACM0"@,
            };
            let mv = match voltage_mv {
                Some(mv) => mv,
                None => 3300,
            };
            let m = match mode {
                Some(text) => crate::mode::mode_of(text),
                None => Some(MeasurementMode::Source),
            };
            let r = s.connect(port, mode, voltage_mv);
            match m {
                None => refused(
                    s,
                    r,
                    "Error parsing: expected one of [ampere | amp | a | source | s], but got "@
                        + mode->0,
                ),
                Some(m) => if !voltage_ok(mv, s.max_voltage_mv) {
                    refused(s, r, voltage_refusal(mv, s.max_voltage_mv))
                } else {
                    let yes = EventView::Done { ok: true };
                    let r2 = r.0.resume(yes);
                    let r3 = r2.0.resume(yes);
                    let r4 = r3.0.resume(yes);
                    let c = ControllerView {
                        state: State::Idle,
                        port: p,
                        mode: m,
                        voltage_mv: mv,
                        dut_power: false,
                        max_voltage_mv: s.max_voltage_mv,
                        last_samples: None,
                        last_stats: None,
                    };
                    &&& asks(r.1, ActionView::Open { port: p, mode: m })
                    &&& asks(r2.1, ActionView::SetDevicePower { on: false })
                    &&& asks(r3.1, ActionView::SetSourceVoltage { mv })
                    &&& r4.0 == at_rest(s, c)
                    &&& says(r4.1, crate::report::connected_text(p, m, mv, false))
                },
            }
        }),
{
}

/// Where the device cannot be opened, its power not switched off or its voltage not set,
/// `ppk2_connect` ends with the error of that step, and whatever was connected before is
/// as it was.
pub proof fn lemma_connect_gives_up(
    s: ServerView,
    port: Option<Seq<char>>,
    mode: Option<Seq<char>>,
    voltage_mv: Option<u16>,
)
    requires
        s.connect(port, mode, voltage_mv).1 is Perform,
    ensures
        ({
            let p = match port {
                Some(p) => p,
                None => "/dev/ttyACM0"@,
            };
            let yes = EventView::Done { ok: true };
            let no = EventView::Done { ok: false };
            let s1 = s.connect(port, mode, voltage_mv).0;
            let s2 = s1.resume(yes).0;
            let s3 = s2.resume(yes).0;
            let before = ServerView { job: JobView::Free, ..s };
            &&& s1.resume(no).0 == before
            &&& s2.resume(no).0 == before
            &&& s3.resume(no).0 == before
            &&& fails(
                s1.resume(no).1,
                "opening PPK2 on "@ + p + " (in use, missing permissions, or unplugged?)"@,
            )
            &&& fails(s2.resume(no).1, "forcing DUT power off on connect"@)
            &&& fails(s3.resume(no).1, "setting source voltage"@)
        }),
{
}

/// The text that answers a write to a controller that is not idle.
pub open spec fn busy_refusal(c: ControllerView, measuring: ControllerError) -> Seq<char> {
    if c.state is Measuring {
        measuring.text()
    } else {
        ControllerError::BrokenWrite.text()
    }
}

/// `ppk2_configure` with a voltage: it is refused where the voltage is not allowed or the
/// controller not idle. Otherwise the voltage is set, exactly as it is given, and if that
/// fails the link is lost; then the power is switched as it is given, on or off, and if
/// that fails the link is lost. Where no power is given the call ends after the voltage.
pub proof fn lemma_configure_voltage(s: ServerView, mv: u16, dut_power: Option<bool>)
    requires
        s.ctl matches Some(c) ==> c.max_voltage_mv == s.max_voltage_mv,
        s.job is Free,
    ensures
        ({
            let c = s.ctl->0;
            let r = s.configure(Some(mv), dut_power);
            let set = r.0.resume(EventView::Done { ok: true });
            let unset = r.0.resume(EventView::Done { ok: false });
            let with_voltage = ControllerView { voltage_mv: mv, ..c };
            if s.ctl is None {
                refused(s, r, ControllerError::NotConnected.text())
            } else if !voltage_ok(mv, s.max_voltage_mv) {
                refused(s, r, voltage_refusal(mv, s.max_voltage_mv))
            } else if !(c.state is Idle) {
                refused(s, r, busy_refusal(c, ControllerError::MeasuringVoltage))
            } else {
                &&& asks(r.1, ActionView::SetSourceVoltage { mv })
                &&& unset.0 == at_rest(s, ControllerView { state: State::Broken, ..c })
                &&& fails(unset.1, ControllerError::VoltageWriteFailed.text())
                &&& match dut_power {
                    None => {
                        &&& set.0 == at_rest(s, with_voltage)
                        &&& says(set.1, crate::report::configured_text(mv, c.dut_power))
                    },
                    Some(on) => {
                        let switched = set.0.resume(EventView::Done { ok: true });
                        let stuck = set.0.resume(EventView::Done { ok: false });
                        &&& asks(set.1, ActionView::SetDevicePower { on })
                        &&& switched.0 == at_rest(
                            s,
                            ControllerView { voltage_mv: mv, dut_power: on, ..c },
                        )
                        &&& says(switched.1, crate::report::configured_text(mv, on))
                        &&& stuck.0 == at_rest(
                            s,
                            ControllerView { state: State::Broken, voltage_mv: mv, ..c },
                        )
                        &&& fails(stuck.1, ControllerError::PowerWriteFailed.text())
                    },
                }
            }
        }),
{
}

/// `ppk2_configure` without a voltage switches the power as it is given, on or off, and
/// leaves the voltage. Without either it does nothing, and tells how things stand.
pub proof fn lemma_configure_power(s: ServerView, dut_power: Option<bool>)
    requires
        s.job is Free,
    ensures
        ({
            let c = s.ctl->0;
            let r = s.configure(None, dut_power);
            match dut_power {
                None => r.0 == s && if s.ctl is None {
                    fails(r.1, ControllerError::NotConnected.text())
                } else {
                    says(r.1, crate::report::configured_text(c.voltage_mv, c.dut_power))
                },
                Some(on) => if s.ctl is None {
                    refused(s, r, ControllerError::NotConnected.text())
                } else if !(c.state is Idle) {
                    refused(s, r, busy_refusal(c, ControllerError::MeasuringPower))
                } else {
                    let switched = r.0.resume(EventView::Done { ok: true });
                    let stuck = r.0.resume(EventView::Done { ok: false });
                    &&& asks(r.1, ActionView::SetDevicePower { on })
                    &&& switched.0 == at_rest(s, ControllerView { dut_power: on, ..c })
                    &&& says(switched.1, crate::report::configured_text(c.voltage_mv, on))
                    &&& stuck.0 == at_rest(s, ControllerView { state: State::Broken, ..c })
                    &&& fails(stuck.1, ControllerError::PowerWriteFailed.text())
                },
            }
        }),
{
}

/// Whether a capture may last that long: above zero, at most an hour.
pub open spec fn capture_ok(d: Double) -> bool {
    !d.is_nan() && d.value() > 0 && d.value() <= 3600 * crate::rounding::one()
}

/// What the start of a session asks of the device and of the buffer, for that trigger.
pub open spec fn plans(
    plan: StartPlan,
    sps: usize,
    retention: Retention,
    cap: usize,
    trigger: Option<Seq<char>>,
) -> bool {
    &&& plan.sps == sps
    &&& plan.retention == retention
    &&& plan.cap == cap
    &&& sets_pins(trigger, plan.pins)
}

/// A session of that rate, capacity and trigger.
pub open spec fn carries(
    session: Session,
    sps: usize,
    cap: usize,
    trigger: Option<Seq<char>>,
) -> bool {
    &&& session.sps == sps
    &&& session.cap == cap
    &&& match session.trigger {
        None => trigger is None,
        Some(levels) => trigger is Some && sets_pins(trigger, levels),
    }
}

/// The text that answers a start where the rate is not one of the device or the
/// controller not idle.
pub open spec fn start_refusal(c: ControllerView, sps: usize) -> Seq<char> {
    if sps < 1 || sps > 100_000 {
        ControllerError::SampleRate.text()
    } else if c.state is Measuring {
        ControllerError::AlreadyMeasuring.text()
    } else {
        ControllerError::BrokenStart.text()
    }
}

/// Whether a start at that rate is accepted.
pub open spec fn can_start(s: ServerView, sps: usize) -> bool {
    s.ctl matches Some(c) && c.state is Idle && 1 <= sps <= 100_000
}

/// The controller `c` while a session runs that it was asked for.
pub open spec fn runs(
    now: ServerView,
    s: ServerView,
    sps: usize,
    cap: usize,
    trigger: Option<Seq<char>>,
) -> bool {
    &&& now.max_voltage_mv == s.max_voltage_mv
    &&& now.ctl matches Some(c) && c.state is Measuring && carries(
        c.state->Measuring_session,
        sps,
        cap,
        trigger,
    ) && c == (ControllerView { state: c.state, ..s.ctl->0 })
}

/// `ppk2_measure` is accepted exactly where the duration is above zero and at most an
/// hour, the trigger is a pattern or none, and an idle controller is asked for a rate of
/// the device, which is 10000 where none is given. The device is then started with each
/// pin at the level that the trigger asks for and room for the duration and a second
/// more, and once it has started a session of that rate and trigger runs for the
/// duration. What is not accepted changes nothing, and the first thing that is wrong is
/// told.
pub proof fn lemma_measure_starts(
    s: ServerView,
    duration_s: Double,
    duration: Double,
    sps: Option<usize>,
    trigger: Option<Seq<char>>,
    text: Seq<char>,
)
    ensures
        ({
            let rate = match sps {
                Some(sps) => sps,
                None => 10_000,
            };
            let cap = crate::capacity::capture_size(rate, duration);
            let r = s.measure(duration_s, duration, sps, trigger);
            if !capture_ok(duration_s) {
                refused(s, r, ControllerError::Duration.text())
            } else if !trigger_ok(trigger) {
                r.0 == s && r.1 is Answer && r.1->result is Err && refuses_trigger(
                    trigger,
                    r.1->result->Err_0,
                )
            } else if s.ctl is None {
                refused(s, r, ControllerError::NotConnected.text())
            } else if !can_start(s, rate) {
                refused(s, r, start_refusal(s.ctl->0, rate))
            } else {
                let begun = r.0.resume(EventView::Started { ok: true, retention: text });
                let not = r.0.resume(EventView::Started { ok: false, retention: text });
                &&& r.1 is Perform && r.1->action is StartMeasurement
                &&& plans(
                    r.1->action->plan,
                    rate,
                    Retention::Capture { seconds: duration },
                    cap,
                    trigger,
                )
                &&& runs(begun.0, s, rate, cap, trigger)
                &&& asks(begun.1, ActionView::Wait { seconds: duration_s })
                &&& not.0 == at_rest(s, ControllerView { state: State::Broken, ..s.ctl->0 })
                &&& fails(not.1, ControllerError::StartFailed.text())
            }
        }),
{
    lemma_trigger_is_read(trigger);
}

/// `ppk2_start` is accepted exactly where the trigger is a pattern or none, and an idle
/// controller is asked for a rate of the device, which is 10000 where none is given. The
/// device is then started with each pin at the level that the trigger asks for and room
/// for the retention window, which is a minute where none is given, and once it has
/// started a session of that rate and trigger runs, and the answer tells so. What is not
/// accepted changes nothing, and the first thing that is wrong is told.
pub proof fn lemma_start_starts(
    s: ServerView,
    sps: Option<usize>,
    retention_s: Option<Double>,
    trigger: Option<Seq<char>>,
    text: Seq<char>,
)
    ensures
        ({
            let rate = match sps {
                Some(sps) => sps,
                None => 10_000,
            };
            let r = s.start(sps, retention_s, trigger);
            if !trigger_ok(trigger) {
                r.0 == s && r.1 is Answer && r.1->result is Err && refuses_trigger(
                    trigger,
                    r.1->result->Err_0,
                )
            } else if s.ctl is None {
                refused(s, r, ControllerError::NotConnected.text())
            } else if !can_start(s, rate) {
                refused(s, r, start_refusal(s.ctl->0, rate))
            } else {
                let plan = r.1->action->plan;
                let seconds = plan.retention->Window_seconds;
                let cap = crate::capacity::window_size(rate, seconds);
                let begun = r.0.resume(EventView::Started { ok: true, retention: text });
                let not = r.0.resume(EventView::Started { ok: false, retention: text });
                &&& r.1 is Perform && r.1->action is StartMeasurement
                &&& plan.retention is Window
                &&& match retention_s {
                    Some(given) => seconds == given,
                    None => !seconds.is_nan() && seconds.value() == 60 * crate::rounding::one(),
                }
                &&& plans(plan, rate, Retention::Window { seconds }, cap, trigger)
                &&& runs(begun.0, s, rate, cap, trigger)
                &&& begun.0.job is Free
                &&& says(begun.1, crate::report::started_text(rate, text, trigger))
                &&& not.0 == at_rest(s, ControllerView { state: State::Broken, ..s.ctl->0 })
                &&& fails(not.1, ControllerError::StartFailed.text())
            }
        }),
{
    lemma_trigger_is_read(trigger);
    crate::server::lemma_default_retention();
}

/// Whether a controller is left with that session behind it: idle, its statistics and its
/// retained samples those of the session, all else as before.
pub open spec fn left_behind(
    after: ControllerView,
    before: ControllerView,
    session: Session,
    shared: SharedView,
) -> bool {
    &&& after.last_samples matches Some((sps, samples)) && sps == session.sps && keeps_last(
        samples,
        shared.history,
        session.cap,
    )
    &&& after.last_stats == Some(crate::samples::stats_of(shared))
    &&& after == (ControllerView {
        state: State::Idle,
        last_samples: after.last_samples,
        last_stats: after.last_stats,
        ..before
    })
}

/// Whether `samples` are the last ones of `history`, in order: all of them where no more
/// than `cap` came, else `cap` of them, and at least the latest.
pub open spec fn keeps_last(samples: Seq<Sample>, history: Seq<Sample>, cap: usize) -> bool {
    let room: int = if cap == 0 {
        1
    } else {
        cap as int
    };
    &&& samples.len() == if history.len() < room {
        history.len() as int
    } else {
        room
    }
    &&& forall|i: int|
        0 <= i < samples.len() ==> (#[trigger] samples[i]) == history[history.len() - samples.len()
            + i]
}

/// The rolling window holds the last samples, in order.
proof fn lemma_keeps_last(history: Seq<Sample>, cap: usize)
    ensures
        keeps_last(crate::samples::window(history, cap), history, cap),
{
}

/// `ppk2_stop` ends the session that runs: the device first, the drain thread second. If
/// the device stopped as it should, the answer is the statistics of the session, and they
/// and its retained samples are left behind in place of those of the session before;
/// otherwise the link is lost, and those of the session before stay. Where no session
/// runs, it is refused.
pub proof fn lemma_stop_ends_the_session(s: ServerView, ok: bool, shared: SharedView)
    requires
        s.job is Free,
        s.measuring() ==> s.owns(shared),
    ensures
        ({
            let r = s.stop();
            let r2 = r.0.resume(EventView::Done { ok });
            let r3 = r2.0.resume(EventView::Drained { shared });
            if s.ctl is None {
                refused(s, r, ControllerError::NotConnected.text())
            } else if !(s.ctl->0.state is Measuring) {
                refused(s, r, ControllerError::NotMeasuring.text())
            } else {
                let c = s.ctl->0;
                &&& asks(r.1, ActionView::StopDevice)
                &&& asks(r2.1, ActionView::StopDrain)
                &&& ends(r3, s, c, ok, shared, Heading::SessionStopped)
            }
        }),
{
    if s.measuring() {
        lemma_keeps_last(shared.history, shared.cap);
    }
}

/// Whether a call ends with the end of the session that `c` ran.
pub open spec fn ends(
    r: (ServerView, StepView),
    s: ServerView,
    c: ControllerView,
    ok: bool,
    shared: SharedView,
    heading: Heading,
) -> bool {
    if ok {
        &&& r.0.ctl matches Some(after) && left_behind(
            after,
            c,
            c.state->Measuring_session,
            shared,
        ) && r.0 == at_rest(s, after)
        &&& r.1 == (StepView::Answer {
            result: Ok(
                ReplyView::Report { heading, stats: crate::samples::stats_of(shared) },
            ),
        })
    } else {
        &&& r.0 == at_rest(s, ControllerView { state: State::Broken, ..c })
        &&& fails(r.1, ControllerError::StopFailed.text())
    }
}

/// Once its time is over, the session of `ppk2_measure` is ended as by `ppk2_stop`, and
/// its statistics are the answer.
pub proof fn lemma_measure_ends(
    s: ServerView,
    duration_s: Double,
    duration: Double,
    sps: Option<usize>,
    trigger: Option<Seq<char>>,
    text: Seq<char>,
    waited: bool,
    ok: bool,
    shared: SharedView,
)
    requires
        s.measure(duration_s, duration, sps, trigger).1 is Perform,
        s.measure(duration_s, duration, sps, trigger).0.resume(
            EventView::Started { ok: true, retention: text },
        ).0.owns(shared),
    ensures
        ({
            let begun = s.measure(duration_s, duration, sps, trigger).0.resume(
                EventView::Started { ok: true, retention: text },
            ).0;
            let r = begun.resume(EventView::Done { ok: waited });
            let r2 = r.0.resume(EventView::Done { ok });
            let r3 = r2.0.resume(EventView::Drained { shared });
            &&& asks(r.1, ActionView::StopDevice)
            &&& asks(r2.1, ActionView::StopDrain)
            &&& begun.ctl is Some
            &&& ends(r3, begun, begun.ctl->0, ok, shared, Heading::MeasurementComplete)
        }),
{
    lemma_keeps_last(shared.history, shared.cap);
}

/// `ppk2_stats` answers with the statistics of the session that runs, else of the one
/// that is left behind, and tells where there is none.
pub proof fn lemma_stats_answer(s: ServerView, live: Option<SharedView>)
    requires
        s.measuring() ==> live is Some,
    ensures
        s.ctl is None ==> s.stats(live) == Err::<ReplyView, Seq<char>>(
            ControllerError::NotConnected.text(),
        ),
        s.measuring() ==> s.stats(live) == Ok::<ReplyView, Seq<char>>(
            ReplyView::Report {
                heading: Heading::CurrentStats,
                stats: crate::samples::stats_of(live->0),
            },
        ),
        s.ctl is Some && !s.measuring() ==> s.stats(live) == Ok::<ReplyView, Seq<char>>(
            match s.ctl->0.last_stats {
                Some(stats) => ReplyView::Report { heading: Heading::CurrentStats, stats },
                None => ReplyView::Text {
                    text: "no statistics yet — start or run a measurement first"@,
                },
            },
        ),
{
}

/// `ppk2_export_csv` asks for all the samples that are retained, in order, and their rate
/// to be written to the path that is given: those of the session that runs, else of the
/// one that is left behind. Once they are written the answer tells how many they are and
/// where; a file that cannot be created or written is an error. Nothing else changes, and
/// where there are no samples it is refused.
pub proof fn lemma_export_writes_all(
    s: ServerView,
    path: Seq<char>,
    live: Option<SharedView>,
    reason: Seq<char>,
)
    requires
        s.job is Free,
        s.measuring() ==> live is Some && s.owns(live->0),
        s.ctl matches Some(c) ==> (c.last_samples matches Some((_, kept)) ==> kept.len()
            <= usize::MAX),
        live matches Some(shared) ==> shared.history.len() <= usize::MAX,
    ensures
        ({
            let r = s.export(path, live);
            if s.ctl is None {
                refused(s, r, ControllerError::NotConnected.text())
            } else if !s.measuring() && s.ctl->0.last_samples is None {
                refused(s, r, ControllerError::NoSamples.text())
            } else {
                let samples = r.1->action->WriteCsv_samples;
                let sps = r.1->action->WriteCsv_sps;
                let written = r.0.resume(EventView::Written);
                let not_created = r.0.resume(EventView::NotCreated);
                let not_written = r.0.resume(EventView::NotWritten { text: reason });
                &&& asks(r.1, ActionView::WriteCsv { path, sps, samples })
                &&& if s.measuring() {
                    let session = s.ctl->0.state->Measuring_session;
                    sps == session.sps && keeps_last(samples, live->0.history, session.cap)
                } else {
                    s.ctl->0.last_samples == Some((sps, samples))
                }
                &&& written.0 == s
                &&& says(written.1, crate::report::exported_text(samples.len(), path))
                &&& not_created.0 == s
                &&& fails(not_created.1, "creating "@ + path)
                &&& not_written.0 == s
                &&& fails(not_written.1, reason)
            }
        }),
{
    if s.measuring() {
        lemma_keeps_last(live->0.history, live->0.cap);
    }
}

/// `ppk2_status` tells of the controller: which port and mode it has, whether it is
/// connected, measuring or broken, the voltage and its ceiling, the power; and while a
/// session runs its rate, how many samples it has retained, how long it has run and the
/// trigger, character by character.
pub proof fn lemma_status_tells(
    s: ServerView,
    live: Option<(SharedView, Double)>,
    elapsed: Seq<char>,
)
    requires
        s.measuring() ==> live is Some && s.owns((live->0).0),
    ensures
        s.ctl is None ==> s.status(live, elapsed) == "not connected"@,
        s.ctl matches Some(c) ==> ({
            let t = c.status(live);
            &&& s.status(live, elapsed) == crate::report::status_text(t, elapsed)
            &&& t.port == c.port && t.mode == c.mode
            &&& t.measuring == (c.state is Measuring)
            &&& t.connected == (c.state is Idle || c.state is Measuring)
            &&& t.broken == !t.connected
            &&& t.voltage_mv == c.voltage_mv && t.max_voltage_mv == c.max_voltage_mv
            &&& t.dut_power == c.dut_power
            &&& if c.state is Measuring {
                let session = c.state->Measuring_session;
                let n = (live->0).0.history.len();
                let room = if session.cap == 0 {
                    1
                } else {
                    session.cap as int
                };
                &&& t.sps == Some(session.sps)
                &&& t.elapsed_s == Some((live->0).1)
                &&& t.buffered_samples is Some && t.buffered_samples->0 == if n < room {
                    n as int
                } else {
                    room
                }
                &&& t.trigger is Some == session.trigger is Some
                &&& session.trigger matches Some(levels) ==> {
                    &&& t.trigger->0.len() == 8
                    &&& forall|i: int|
                        0 <= i < 8 ==> (#[trigger] t.trigger->0[i]) == match levels@[i] {
                            Level::High => '1',
                            Level::Low => '0',
                            Level::Either => 'X',
                        }
                }
            } else {
                t.sps is None && t.buffered_samples is None && t.elapsed_s is None && t.trigger
                    is None
            }
        }),
{
}

} // verus!
