//! What holds of the controller and the server over several operations.

use vstd::prelude::*;

use crate::controller::{ConnectingView, ControllerView, Retention, Stage, State};
use crate::error::ControllerError;
use crate::ieee::Double;
use crate::samples::{DrainEvent, SharedView};
use crate::server::{ActionView, EventView, Heading, JobView, ReplyView, ServerView, StepView};
use crate::trigger::Level;

verus! {

/// A refused request leaves the controller exactly as it was.
pub proof fn lemma_refusal_changes_nothing(
    c: ControllerView,
    mv: u16,
    on: bool,
    sps: usize,
    retention: Retention,
    trigger: Option<[Level; 8]>,
)
    ensures
        c.set_voltage(mv).1 is Err ==> c.set_voltage(mv).0 == c,
        c.set_power(on).1 is Err ==> c.set_power(on).0 == c,
        c.start(sps, retention, trigger).1 is Err ==> c.start(sps, retention, trigger).0 == c,
        c.stop().1 is Err ==> c.stop().0 == c,
{
}

/// Voltage and DUT power cannot be changed during a measurement, and no second one can
/// be started.
pub proof fn lemma_no_change_while_measuring(
    c: ControllerView,
    mv: u16,
    on: bool,
    sps: usize,
    retention: Retention,
    trigger: Option<[Level; 8]>,
)
    requires
        c.state is Measuring,
    ensures
        c.set_voltage(mv).1 is Err,
        c.set_power(on) == (c, Err::<bool, ControllerError>(ControllerError::MeasuringPower)),
        c.start(sps, retention, trigger).1 is Err,
        crate::voltage::allowed(mv, c.max_voltage_mv) ==> c.set_voltage(mv) == (
            c,
            Err::<u16, ControllerError>(ControllerError::MeasuringVoltage),
        ),
{
}

/// A broken controller refuses every operation on the device and stays broken: only a
/// new connection helps.
pub proof fn lemma_broken_until_reconnected(
    c: ControllerView,
    mv: u16,
    on: bool,
    sps: usize,
    retention: Retention,
    trigger: Option<[Level; 8]>,
)
    requires
        c.state is Broken,
    ensures
        c.set_voltage(mv).0 == c && c.set_voltage(mv).1 is Err,
        c.set_power(on).0 == c && c.set_power(on).1 is Err,
        c.start(sps, retention, trigger).0 == c && c.start(sps, retention, trigger).1 is Err,
        c.stop().0 == c && c.stop().1 is Err,
{
}

/// A failed operation on the device breaks the controller, and leaves what it knew of
/// voltage, power and the last session as it was.
pub proof fn lemma_failure_breaks(c: ControllerView, shared: SharedView)
    ensures
        ({
            let broken = ControllerView { state: State::Broken, ..c };
            &&& c.voltage_written(false).0 == broken && c.voltage_written(false).1 is Err
            &&& c.power_written(false).0 == broken && c.power_written(false).1 is Err
            &&& c.started(false).0 == broken && c.started(false).1 is Err
            &&& c.stopped(false, shared).0 == broken && c.stopped(false, shared).1 is Err
        }),
{
}

/// A voltage that is accepted is the one that is written, to the millivolt, and once
/// written the one that the controller reports; nothing else changes.
pub proof fn lemma_voltage_is_exact(c: ControllerView, mv: u16)
    requires
        c.set_voltage(mv).1 is Ok,
    ensures
        crate::voltage::allowed(mv, c.max_voltage_mv),
        c.set_voltage(mv).1 == Ok::<u16, ControllerError>(mv),
        c.set_voltage(mv).0.awaits_voltage(),
        c.set_voltage(mv).0.voltage_written(true).0 == (ControllerView { voltage_mv: mv, ..c }),
{
}

/// A power state that is accepted is the one that is written, and once written the one
/// that the controller reports; nothing else changes.
pub proof fn lemma_power_is_exact(c: ControllerView, on: bool)
    requires
        c.set_power(on).1 is Ok,
    ensures
        c.set_power(on).1 == Ok::<bool, ControllerError>(on),
        c.set_power(on).0.awaits_power(),
        c.set_power(on).0.power_written(true).0 == (ControllerView { dut_power: on, ..c }),
{
}

/// A session from start to stop: its statistics are returned, and are from then on the
/// last ones; its retained samples are what an export writes; and voltage, power and
/// all else are as before.
pub proof fn lemma_session_round(
    c: ControllerView,
    sps: usize,
    retention: Retention,
    trigger: Option<[Level; 8]>,
    shared: SharedView,
)
    requires
        c.start(sps, retention, trigger).1 is Ok,
        c.start(sps, retention, trigger).0.started(true).0.owns(shared),
    ensures
        ({
            let measuring = c.start(sps, retention, trigger).0.started(true).0;
            let (after, r) = measuring.stop().0.stopped(true, shared);
            let stats = crate::samples::stats_of(shared);
            let samples = crate::samples::window(shared.history, shared.cap);
            &&& measuring.state is Measuring
            &&& measuring.last_stats == c.last_stats
            &&& measuring.last_samples == c.last_samples
            &&& measuring.stop().1 is Ok
            &&& r == Ok::<crate::samples::Stats, ControllerError>(stats)
            &&& after == ControllerView {
                last_stats: Some(stats),
                last_samples: Some((sps, samples)),
                ..c
            }
            &&& after.export(None) == Some((sps, samples))
        }),
{
}

/// The rate that the status shows while a session runs is the rate of an export, during
/// the session and after it, and an export during the session writes as many samples as
/// the status shows.
pub proof fn lemma_rates_agree(
    c: ControllerView,
    shared: SharedView,
    elapsed: Double,
)
    requires
        c.state is Measuring,
        c.owns(shared),
    ensures
        ({
            let status = c.status(Some((shared, elapsed)));
            let samples = crate::samples::window(shared.history, shared.cap);
            let after = c.stop().0.stopped(true, shared).0;
            &&& status.sps is Some
            &&& status.buffered_samples == Some(samples.len())
            &&& c.export(Some(shared)) == Some((status.sps->0, samples))
            &&& after.export(None) == Some((status.sps->0, samples))
        }),
{
}

/// The file that `ppk2_export_csv` writes while a session runs has the rate that
/// `ppk2_status` shows, and as many samples as it shows.
pub proof fn lemma_export_matches_status(
    s: ServerView,
    path: Seq<char>,
    shared: SharedView,
    elapsed: Double,
    text: Seq<char>,
)
    requires
        s.measuring(),
        s.owns(shared),
    ensures
        ({
            let status = s.ctl->0.status(Some((shared, elapsed)));
            let step = s.export(path, Some(shared)).1;
            &&& s.status(Some((shared, elapsed)), text) == crate::report::status_text(status, text)
            &&& step matches StepView::Perform {
                action: ActionView::WriteCsv { path: to, sps, samples },
            } && to == path && status.sps == Some(sps) && status.buffered_samples == Some(
                samples.len(),
            )
        }),
{
}

/// After a session with a rolling window, an export writes the last samples of the
/// windows that matched the trigger, in order: all of them where the window has room,
/// else as many as the rate takes in the retention time, and never none for lack of
/// room.
pub proof fn lemma_export_after_session(
    c: ControllerView,
    sps: usize,
    retention_secs: Double,
    trigger: Option<[Level; 8]>,
    events: Seq<DrainEvent>,
)
    requires
        c.start(sps, Retention::Window { seconds: retention_secs }, trigger).1 is Ok,
        crate::samples::matched(events).len() <= u64::MAX,
    ensures
        ({
            let (starting, plan) = c.start(
                sps,
                Retention::Window { seconds: retention_secs },
                trigger,
            );
            let shared = SharedView::begun(plan->Ok_0.sps, plan->Ok_0.cap).drained_all(events);
            let stopping = starting.started(true).0.stop().0;
            let (after, stats) = stopping.stopped(true, shared);
            let all = crate::samples::matched(events);
            let room = crate::capacity::window_size(sps, retention_secs);
            let k = if all.len() < room {
                all.len()
            } else {
                room as nat
            };
            &&& room >= 1
            &&& stopping.owns(shared)
            &&& stats matches Ok(stats) && stats.samples == all.len()
            &&& after.export(None) == Some((sps, all.skip(all.len() - k)))
        }),
{
    let room = crate::capacity::window_size(sps, retention_secs);
    let all = crate::samples::matched(events);
    let begun = SharedView::begun(sps, room);
    crate::samples::lemma_only_matches_recorded(begun, events);
    assert(begun.history + all =~= all);
    assert(all.skip(0) =~= all);
}

/// A capture of fixed duration loses no sample: as long as no more windows match than
/// the rate takes in the duration and one second more, all of them are retained, in
/// order.
pub proof fn lemma_capture_keeps_all(
    c: ControllerView,
    sps: usize,
    duration: Double,
    trigger: Option<[Level; 8]>,
    events: Seq<DrainEvent>,
)
    requires
        c.start(sps, Retention::Capture { seconds: duration }, trigger).1 is Ok,
        crate::samples::matched(events).len() <= crate::capacity::capture_size(sps, duration),
    ensures
        ({
            let (starting, plan) = c.start(sps, Retention::Capture { seconds: duration }, trigger);
            let shared = SharedView::begun(plan->Ok_0.sps, plan->Ok_0.cap).drained_all(events);
            let stopping = starting.started(true).0.stop().0;
            let (after, stats) = stopping.stopped(true, shared);
            let all = crate::samples::matched(events);
            &&& stopping.owns(shared)
            &&& stats matches Ok(stats) && stats.samples == all.len()
            &&& after.last_samples == Some((sps, all))
            &&& after.export(None) == Some((sps, all))
        }),
{
    let room = crate::capacity::capture_size(sps, duration);
    let all = crate::samples::matched(events);
    let begun = SharedView::begun(sps, room);
    crate::samples::lemma_only_matches_recorded(begun, events);
    assert(begun.history + all =~= all);
}

/// An export changes nothing, whatever came of writing the file: exporting again, to any
/// path, writes the same samples at the same rate.
pub proof fn lemma_export_repeats(
    s: ServerView,
    path: Seq<char>,
    live: Option<SharedView>,
    event: EventView,
    again: Seq<char>,
)
    requires
        s.job is Free,
        s.export(path, live).1 is Perform,
        s.export(path, live).0.expects(event),
    ensures
        ({
            let first = s.export(path, live).1->action;
            let second = s.export(path, live).0.resume(event).0.export(again, live).1->action;
            &&& s.export(path, live).0.resume(event).0 == s
            &&& first is WriteCsv && second is WriteCsv
            &&& second->WriteCsv_sps == first->WriteCsv_sps
            &&& second->WriteCsv_samples == first->WriteCsv_samples
        }),
{
}

/// While a session runs, the status shows its rate and its trigger as a pattern that
/// parses to the same levels.
pub proof fn lemma_status_shows_trigger(
    c: ControllerView,
    sps: usize,
    retention: Retention,
    levels: [Level; 8],
    live: Option<(SharedView, Double)>,
    parsed: Result<[Level; 8], ControllerError>,
)
    requires
        c.start(sps, retention, Some(levels)).1 is Ok,
        crate::trigger::parses_to(
            crate::text::trimmed(crate::trigger::pattern_of(levels@)),
            parsed,
        ),
    ensures
        ({
            let status = c.start(sps, retention, Some(levels)).0.started(true).0.status(live);
            &&& status.measuring && status.connected && !status.broken
            &&& status.sps == Some(sps)
            &&& status.trigger == Some(crate::trigger::pattern_of(levels@))
            &&& parsed matches Ok(l) && l@ == levels@
        }),
{
    crate::trigger::lemma_trigger_round_trip(levels, parsed);
}

/// Connecting takes three operations, in this order: the port is opened, DUT power is
/// switched off, the voltage is set. When all three succeeded the controller is idle,
/// DUT power is off, and the voltage is the one that was asked for.
pub proof fn lemma_connect_sequence(
    s: ServerView,
    port: Option<Seq<char>>,
    mode: Option<Seq<char>>,
    voltage_mv: Option<u16>,
)
    requires
        s.connect(port, mode, voltage_mv).1 is Perform,
    ensures
        ({
            let ok = EventView::Done { ok: true };
            let (s1, opening) = s.connect(port, mode, voltage_mv);
            let (s2, power_off) = s1.resume(ok);
            let (s3, voltage) = s2.resume(ok);
            let (s4, end) = s3.resume(ok);
            let mv = match voltage_mv {
                Some(mv) => mv,
                None => 3300,
            };
            &&& opening->action is Open
            &&& power_off == crate::server::perform(ActionView::SetDevicePower { on: false })
            &&& voltage == crate::server::perform(ActionView::SetSourceVoltage { mv })
            &&& end->result is Ok
            &&& s4.job is Free
            &&& s4.ctl matches Some(c) && c.state is Idle && !c.dut_power && c.voltage_mv == mv
                && c.max_voltage_mv == s.max_voltage_mv
        }),
{
}

/// Connecting fails closed: when any of its operations fails it is given up with an
/// error, nothing more is done to the device, and a controller that was connected
/// before is left as it was.
pub proof fn lemma_connect_fails_closed(s: ServerView, connecting: ConnectingView)
    requires
        s.job == (JobView::Connect { connecting }),
    ensures
        s.resume(EventView::Done { ok: false }).0 == (ServerView { job: JobView::Free, ..s }),
        s.resume(EventView::Done { ok: false }).1 matches StepView::Answer { result: Err(_) },
        connecting.advance(false) is Failed,
        connecting.advance(true) is Connected <==> connecting.stage == Stage::Voltage,
{
}

/// Before the port is opened the mode and the voltage are known to be right: a wrong one
/// is an error, and nothing is done.
pub proof fn lemma_connect_checks_first(
    s: ServerView,
    port: Option<Seq<char>>,
    mode: Option<Seq<char>>,
    mv: u16,
)
    requires
        !crate::voltage::allowed(mv, s.max_voltage_mv) || (mode matches Some(m)
            && crate::mode::mode_of(m) is None),
    ensures
        s.connect(port, mode, Some(mv)).0 == s,
        s.connect(port, mode, Some(mv)).1 matches StepView::Answer { result: Err(_) },
{
}

/// Stopping takes the device worker first and the drain thread second, whether or not
/// the worker stopped as it should. Only then is the call answered.
pub proof fn lemma_stop_sequence(s: ServerView, ok: bool, shared: SharedView)
    requires
        s.measuring(),
        s.owns(shared),
        s.job is Free,
    ensures
        ({
            let (s1, first) = s.stop();
            let (s2, second) = s1.resume(EventView::Done { ok });
            let (s3, end) = s2.resume(EventView::Drained { shared });
            &&& first == crate::server::perform(ActionView::StopDevice)
            &&& second == crate::server::perform(ActionView::StopDrain)
            &&& s2.expects(EventView::Drained { shared })
            &&& s3.job is Free
            &&& ok ==> end == (StepView::Answer {
                result: Ok(
                    ReplyView::Report {
                        heading: Heading::SessionStopped,
                        stats: crate::samples::stats_of(shared),
                    },
                ),
            })
            &&& !ok ==> end == crate::server::failed(ControllerError::StopFailed)
            &&& s3.ctl matches Some(c) && (if ok {
                c.state is Idle
            } else {
                c.state is Broken
            })
        }),
{
}

/// A capture is a session that is started, left running for its duration and stopped:
/// it answers with the statistics of that session, which are from then on the last
/// ones, and leaves the controller idle.
pub proof fn lemma_measure_sequence(
    s: ServerView,
    duration_s: Double,
    duration: Double,
    sps: Option<usize>,
    trigger: Option<Seq<char>>,
    retention: Seq<char>,
    shared: SharedView,
)
    requires
        s.measure(duration_s, duration, sps, trigger).1 is Perform,
        shared.sps == s.measure(duration_s, duration, sps, trigger).1->action->plan.sps,
        shared.cap == s.measure(duration_s, duration, sps, trigger).1->action->plan.cap,
    ensures
        ({
            let ok = EventView::Done { ok: true };
            let (s1, starting) = s.measure(duration_s, duration, sps, trigger);
            let plan = starting->action->plan;
            let (s2, waiting) = s1.resume(EventView::Started { ok: true, retention });
            let (s3, stopping) = s2.resume(ok);
            let (s4, draining) = s3.resume(ok);
            let (s5, end) = s4.resume(EventView::Drained { shared });
            let stats = crate::samples::stats_of(shared);
            &&& starting->action is StartMeasurement
            &&& plan.sps == match sps {
                Some(sps) => sps,
                None => 10_000,
            }
            &&& plan.cap == crate::capacity::capture_size(plan.sps, duration)
            &&& s4.expects(EventView::Drained { shared })
            &&& waiting == crate::server::perform(ActionView::Wait { seconds: duration_s })
            &&& stopping == crate::server::perform(ActionView::StopDevice)
            &&& draining == crate::server::perform(ActionView::StopDrain)
            &&& end == (StepView::Answer {
                result: Ok(ReplyView::Report { heading: Heading::MeasurementComplete, stats }),
            })
            &&& s5.job is Free
            &&& s5.ctl == Some(
                ControllerView {
                    last_stats: Some(stats),
                    last_samples: Some(
                        (plan.sps, crate::samples::window(shared.history, plan.cap)),
                    ),
                    ..s.ctl->0
                },
            )
            &&& s5.stats(None) == Ok::<ReplyView, Seq<char>>(
                ReplyView::Report { heading: Heading::CurrentStats, stats },
            )
        }),
{
}

/// Before a connection every tool but connecting and the status answers with an error,
/// and does nothing.
pub proof fn lemma_not_connected(s: ServerView, input: Input)
    requires
        s.ctl is None,
        s.job is Free,
        s.enabled(input),
        !(input is Connect),
    ensures
        s.step(input).0 == s,
        s.step(input).1 matches StepView::Answer { result: Err(_) },
        s.stats(None) is Err,
{
}

/// What a server takes in: a tool call, or what came of an action.
pub enum Input {
    Connect { port: Option<Seq<char>>, mode: Option<Seq<char>>, voltage_mv: Option<u16> },
    Configure { voltage_mv: Option<u16>, dut_power: Option<bool> },
    Measure { duration_s: Double, duration: Double, sps: Option<usize>, trigger: Option<Seq<char>> },
    Start { sps: Option<usize>, retention_s: Option<Double>, trigger: Option<Seq<char>> },
    Stop,
    Export { path: Seq<char>, live: Option<SharedView> },
    Event { event: EventView },
}

impl ServerView {
    /// Whether the server may be given this input: a tool call while none is under way,
    /// or an event that the call under way awaits.
    pub open spec fn enabled(self, input: Input) -> bool {
        match input {
            Input::Event { event } => self.expects(event),
            Input::Export { live, .. } => {
                &&& self.job is Free
                &&& self.measuring() ==> live is Some
                &&& live matches Some(shared) ==> self.owns(shared)
            },
            Input::Measure { duration_s, duration, .. } => {
                &&& self.job is Free
                &&& crate::server::duration_ok(duration_s) ==> crate::server::clocked(
                    duration_s,
                    duration,
                )
            },
            _ => self.job is Free,
        }
    }

    /// What an input makes of the server.
    pub open spec fn step(self, input: Input) -> (ServerView, StepView) {
        match input {
            Input::Connect { port, mode, voltage_mv } => self.connect(port, mode, voltage_mv),
            Input::Configure { voltage_mv, dut_power } => self.configure(voltage_mv, dut_power),
            Input::Measure { duration_s, duration, sps, trigger } => self.measure(
                duration_s,
                duration,
                sps,
                trigger,
            ),
            Input::Start { sps, retention_s, trigger } => self.start(sps, retention_s, trigger),
            Input::Stop => self.stop(),
            Input::Export { path, live } => self.export(path, live),
            Input::Event { event } => self.resume(event),
        }
    }

    /// The server after a run of inputs.
    pub open spec fn run(self, inputs: Seq<Input>) -> ServerView
        decreases inputs.len(),
    {
        if inputs.len() == 0 {
            self
        } else {
            self.run(inputs.drop_last()).step(inputs.last()).0
        }
    }

    /// Whether every input of a run may be given when its turn comes.
    pub open spec fn accepts(self, inputs: Seq<Input>) -> bool
        decreases inputs.len(),
    {
        inputs.len() > 0 ==> self.accepts(inputs.drop_last()) && self.run(
            inputs.drop_last(),
        ).enabled(inputs.last())
    }
}

/// While a session runs, `ppk2_configure` does nothing to the device, whatever it is
/// asked for, and leaves the server as it was.
pub proof fn lemma_configure_refused_while_measuring(
    s: ServerView,
    voltage_mv: Option<u16>,
    dut_power: Option<bool>,
)
    requires
        s.job is Free,
        s.measuring(),
    ensures
        s.configure(voltage_mv, dut_power).0 == s,
        s.configure(voltage_mv, dut_power).1 is Answer,
        voltage_mv is Some || dut_power is Some ==> s.configure(voltage_mv, dut_power).1->result
            is Err,
{
}

/// Whether a step asks for something to be done to the device.
pub open spec fn touches_device(step: StepView) -> bool {
    step matches StepView::Perform { action } && !(action is WriteCsv)
}

/// One input other than a new connection leaves a broken controller as it is, and does
/// not touch the device.
proof fn lemma_step_broken(s: ServerView, input: Input)
    requires
        s.job is Free || s.job is Export,
        s.ctl matches Some(c) && c.state is Broken,
        s.enabled(input),
        !(input is Connect),
    ensures
        s.step(input).0.ctl == s.ctl,
        s.step(input).0.job is Free || s.step(input).0.job is Export,
        !touches_device(s.step(input).1),
{
}

/// Once the link is lost, no call but a new connection touches the device, and the
/// controller stays broken through any run of calls without one.
pub proof fn lemma_broken_server_waits_for_connect(s: ServerView, inputs: Seq<Input>)
    requires
        s.wf(),
        s.job is Free,
        s.ctl matches Some(c) && c.state is Broken,
        s.accepts(inputs),
        forall|i: int| 0 <= i < inputs.len() ==> !((#[trigger] inputs[i]) is Connect),
    ensures
        s.run(inputs).ctl == s.ctl,
        s.run(inputs).job is Free || s.run(inputs).job is Export,
        forall|next: Input|
            s.run(inputs).enabled(next) && !(next is Connect) ==> !touches_device(
                #[trigger] s.run(inputs).step(next).1,
            ),
    decreases inputs.len(),
{
    if inputs.len() > 0 {
        let before = inputs.drop_last();
        assert forall|i: int| 0 <= i < before.len() implies !((
        #[trigger] before[i]) is Connect) by {
            assert(before[i] == inputs[i]);
        }
        lemma_broken_server_waits_for_connect(s, before);
        assert(!(inputs[inputs.len() - 1] is Connect));
        lemma_step_broken(s.run(before), inputs.last());
    }
    assert forall|next: Input|
        s.run(inputs).enabled(next) && !(next is Connect) implies !touches_device(
        #[trigger] s.run(inputs).step(next).1,
    ) by {
        lemma_step_broken(s.run(inputs), next);
    }
}

/// Whether an answer asks for nothing that the ceiling forbids.
pub open spec fn within_ceiling(step: StepView, ceiling_mv: u16) -> bool {
    step matches StepView::Perform { action: ActionView::SetSourceVoltage { mv } }
        ==> crate::voltage::allowed(mv, ceiling_mv)
}

/// One input keeps a server well-formed and under the same ceiling, and asks for nothing
/// that the ceiling forbids.
#[verifier::rlimit(40)]
proof fn lemma_step_within_ceiling(s: ServerView, input: Input)
    requires
        s.wf(),
        s.enabled(input),
    ensures
        s.step(input).0.wf(),
        s.step(input).0.max_voltage_mv == s.max_voltage_mv,
        within_ceiling(s.step(input).1, s.max_voltage_mv),
{
    match input {
        Input::Event { event } => match s.job {
            JobView::StopDrain { .. } => {},
            JobView::Export { .. } => {},
            _ => {},
        },
        Input::Connect { .. } => {},
        Input::Configure { .. } => {},
        Input::Measure { .. } => {},
        Input::Start { .. } => {},
        _ => {},
    }
}

/// The server never applies a source voltage above its ceiling or outside the range of
/// the hardware. Whatever the calls and whatever came of their actions, every voltage
/// that is to be set, and the one that a controller has, is allowed under the ceiling
/// that the server was made with.
pub proof fn lemma_never_above_ceiling(s: ServerView, inputs: Seq<Input>)
    requires
        s.wf(),
        s.accepts(inputs),
    ensures
        s.run(inputs).wf(),
        s.run(inputs).max_voltage_mv == s.max_voltage_mv,
        s.run(inputs).ctl matches Some(c) ==> crate::voltage::allowed(
            c.voltage_mv,
            s.max_voltage_mv,
        ),
        forall|next: Input|
            s.run(inputs).enabled(next) ==> within_ceiling(
                #[trigger] s.run(inputs).step(next).1,
                s.max_voltage_mv,
            ),
    decreases inputs.len(),
{
    if inputs.len() > 0 {
        lemma_never_above_ceiling(s, inputs.drop_last());
        lemma_step_within_ceiling(s.run(inputs.drop_last()), inputs.last());
    }
    assert forall|next: Input| s.run(inputs).enabled(next) implies within_ceiling(
        #[trigger] s.run(inputs).step(next).1,
        s.max_voltage_mv,
    ) by {
        lemma_step_within_ceiling(s.run(inputs), next);
    }
}

/// Whether an input asks for DUT power.
pub open spec fn asks_for_power(input: Input) -> bool {
    input matches Input::Configure { dut_power: Some(true), .. }
}

/// DUT power is only ever switched on by an explicit request, whatever the server did
/// before: the input that leads to it asks for it, or carries on a call of
/// `ppk2_configure` that did.
pub proof fn lemma_power_on_was_requested(s: ServerView, input: Input)
    requires
        s.wf(),
        s.enabled(input),
        s.step(input).1 == crate::server::perform(ActionView::SetDevicePower { on: true }),
    ensures
        asks_for_power(input) || s.job == (JobView::ConfigureVoltage { dut_power: Some(true) }),
{
}

/// A call of `ppk2_configure` is left to switch DUT power on only where it was asked to.
pub proof fn lemma_pending_power_was_requested(s: ServerView, input: Input)
    requires
        s.wf(),
        s.enabled(input),
        s.step(input).0.job == (JobView::ConfigureVoltage { dut_power: Some(true) }),
    ensures
        asks_for_power(input),
{
}

/// Whether DUT power is off and no call under way is to switch it on.
pub open spec fn unpowered(s: ServerView) -> bool {
    &&& s.job != (JobView::ConfigureVoltage { dut_power: Some(true) })
    &&& s.ctl matches Some(c) ==> {
        &&& !c.dut_power
        &&& c.awaits_power() ==> !c.state->operation->on
    }
}

#[verifier::rlimit(40)]
proof fn lemma_step_unpowered(s: ServerView, input: Input)
    requires
        s.wf(),
        s.enabled(input),
        unpowered(s),
        !asks_for_power(input),
    ensures
        unpowered(s.step(input).0),
        s.step(input).1 != crate::server::perform(ActionView::SetDevicePower { on: true }),
{
    match input {
        Input::Event { event } => match s.job {
            JobView::StopDrain { .. } => {},
            JobView::Export { .. } => {},
            _ => {},
        },
        Input::Connect { .. } => {},
        Input::Configure { .. } => {},
        Input::Measure { .. } => {},
        Input::Start { .. } => {},
        _ => {},
    }
}

/// DUT power is only ever applied on request: as long as no call of `ppk2_configure`
/// asks for it, no action switches it on, and no controller has it on.
pub proof fn lemma_power_only_on_request(s: ServerView, inputs: Seq<Input>)
    requires
        s.wf(),
        unpowered(s),
        s.accepts(inputs),
        forall|i: int| 0 <= i < inputs.len() ==> !asks_for_power(#[trigger] inputs[i]),
    ensures
        unpowered(s.run(inputs)),
        forall|next: Input|
            s.run(inputs).enabled(next) && !asks_for_power(next) ==> #[trigger] s.run(inputs).step(
                next,
            ).1 != crate::server::perform(ActionView::SetDevicePower { on: true }),
    decreases inputs.len(),
{
    lemma_never_above_ceiling(s, inputs);
    if inputs.len() > 0 {
        let before = inputs.drop_last();
        assert forall|i: int| 0 <= i < before.len() implies !asks_for_power(
            #[trigger] before[i],
        ) by {
            assert(before[i] == inputs[i]);
        }
        lemma_never_above_ceiling(s, before);
        lemma_power_only_on_request(s, before);
        lemma_step_unpowered(s.run(before), inputs.last());
    }
    assert forall|next: Input|
        s.run(inputs).enabled(next) && !asks_for_power(next) implies #[trigger] s.run(inputs).step(
        next,
    ).1 != crate::server::perform(ActionView::SetDevicePower { on: true }) by {
        lemma_step_unpowered(s.run(inputs), next);
    }
}

} // verus!
