//! The tools that a client can call, on one controller.
//!
//! A tool call that needs the device, the clock or the file system says what to do
//! next, and goes on when it is told what came of it.

use vstd::prelude::*;

use crate::controller::{
    ConnectStep, Connecting, Ppk2Controller, Retention, Stage, StartPlan, State,
};
use crate::error::ControllerError;
use crate::ieee::Double;
use crate::mode::MeasurementMode;
use crate::report::{
    configured_string, connected_string, exported_string, started_string, status_string,
};
use crate::samples::{Sample, Shared, Stats};
use crate::trigger::{trigger_arg, Level};
use crate::voltage::VDD_HW_MAX_MV;

verus! {

/// The sampling rate of a measurement that names none.
pub const DEFAULT_SPS: usize = 10_000;

/// The source voltage (mV) of a connection that names none.
pub const DEFAULT_VOLTAGE_MV: u16 = 3300;

/// The retention window of a session that names none: sixty seconds, as `binary64`.
pub const DEFAULT_RETENTION: u64 = 0x404e_0000_0000_0000;

/// The longest capture: an hour, in seconds, as `binary64`.
pub const MAX_DURATION: u64 = 0x40ac_2000_0000_0000;

/// Arguments of `ppk2_connect`.
#[derive(Debug)]
pub struct ConnectArgs {
    /// Serial port path. Defaults to /dev/ttyACM0.
    pub port: Option<String>,
    /// Measurement mode: "source" (PPK2 supplies the DUT) or "ampere" (external
    /// supply, inline meter). Defaults to source.
    pub mode: Option<String>,
    /// Source voltage in millivolts (800–5000). Rejected (not clamped) if out of range
    /// or above the server's configured safety ceiling. Defaults to 3300.
    pub voltage_mv: Option<u16>,
}

/// Arguments of `ppk2_configure`.
#[derive(Debug)]
pub struct ConfigureArgs {
    /// New source voltage in millivolts (800–5000). Rejected (not clamped) if out of
    /// range or above the server's configured safety ceiling. Omit to leave unchanged.
    /// Only valid while not measuring.
    pub voltage_mv: Option<u16>,
    /// Turn DUT power on/off. Omit to leave unchanged. Only valid while not measuring.
    pub dut_power: Option<bool>,
}

/// Arguments of `ppk2_measure`.
#[derive(Debug)]
pub struct MeasureArgs {
    /// Capture duration in seconds.
    pub duration_s: Double,
    /// Samples per second (1–100000). Higher = finer resolution, more memory. Defaults
    /// to 10000.
    pub sps: Option<usize>,
    /// Optional digital trigger: an 8-char pattern (D0 leftmost) of 1=high, 0=low,
    /// X=either. Only windows matching the pattern are recorded. E.g. "X1XXXXXX"
    /// records only while D1 is high.
    pub trigger: Option<String>,
}

/// Arguments of `ppk2_start`.
#[derive(Debug)]
pub struct StartArgs {
    /// Samples per second (1–100000). Defaults to 10000.
    pub sps: Option<usize>,
    /// Rolling buffer retention window in seconds. Defaults to 60.
    pub retention_s: Option<Double>,
    /// Optional digital trigger, as for `ppk2_measure`.
    pub trigger: Option<String>,
}

/// Arguments of `ppk2_export_csv`.
#[derive(Debug)]
pub struct ExportArgs {
    /// Filesystem path to write the CSV (columns: t_seconds,current_ua,d0..d7).
    pub path: String,
}

/// What a tool call asks to be done.
#[derive(Debug)]
pub enum Action {
    /// Open the device on a port in a mode.
    Open { port: String, mode: MeasurementMode },
    /// Switch DUT power.
    SetDevicePower { on: bool },
    /// Set the source voltage.
    SetSourceVoltage { mv: u16 },
    /// Start the device, and a drain thread that fills a new session.
    StartMeasurement { plan: StartPlan },
    /// Wait while the measurement runs.
    Wait { seconds: Double },
    /// Stop the device worker.
    StopDevice,
    /// Stop the drain thread, and hand over the session it filled.
    StopDrain,
    /// Write samples at a rate to a file.
    WriteCsv { path: String, sps: usize, samples: Vec<Sample> },
}

/// What came of an action.
pub enum Event {
    /// The device or the clock did what it was asked for, or failed to.
    Done { ok: bool },
    /// The measurement was started, or was not. `retention` is the retention window in
    /// seconds as text.
    Started { ok: bool, retention: String },
    /// The drain thread has stopped, and left this session.
    Drained { shared: Shared },
    /// The file was written.
    Written,
    /// The file could not be created.
    NotCreated,
    /// The file could not be written, for the reason given.
    NotWritten { text: String },
}

/// A heading for statistics.
#[derive(Clone, Copy, Debug, PartialEq, Eq, Structural)]
pub enum Heading {
    /// Of a capture of fixed duration.
    MeasurementComplete,
    /// Of a background session that was stopped.
    SessionStopped,
    /// Of the live or the most recent session.
    CurrentStats,
}

impl Heading {
    /// The heading as text.
    pub open spec fn label(self) -> Seq<char> {
        match self {
            Heading::MeasurementComplete => "measurement complete"@,
            Heading::SessionStopped => "session stopped"@,
            Heading::CurrentStats => "current stats"@,
        }
    }

    /// The heading as text.
    pub fn text(self) -> (r: String)
        ensures
            r@ == self.label(),
    {
        match self {
            Heading::MeasurementComplete => "measurement complete".to_owned(),
            Heading::SessionStopped => "session stopped".to_owned(),
            Heading::CurrentStats => "current stats".to_owned(),
        }
    }
}

/// The answer to a tool call that succeeded.
#[derive(Debug)]
pub enum Reply {
    /// A text.
    Text { text: String },
    /// Statistics under a heading.
    Report { heading: Heading, stats: Stats },
}

/// Where a tool call stands.
#[derive(Debug)]
pub enum Step {
    /// Do this, and say what came of it.
    Perform { action: Action },
    /// The call is over.
    Answer { result: Result<Reply, ControllerError> },
}

/// The tool call under way.
#[derive(Debug)]
enum Job {
    Free,
    Connect { connecting: Connecting },
    ConfigureVoltage { dut_power: Option<bool> },
    ConfigurePower,
    Start { sps: usize, trigger: Option<String> },
    MeasureStart { seconds: Double },
    MeasureWait,
    StopDevice { heading: Heading },
    StopDrain { heading: Heading, ok: bool },
    Export { path: String, n: usize },
}

/// MCP server core holding a single PPK2 controller.
#[derive(Debug)]
pub struct Ppk2Server {
    ctl: Option<Ppk2Controller>,
    max_voltage_mv: u16,
    job: Job,
}

/// An action, as contracts see it.
pub enum ActionView {
    Open { port: Seq<char>, mode: MeasurementMode },
    SetDevicePower { on: bool },
    SetSourceVoltage { mv: u16 },
    StartMeasurement { plan: StartPlan },
    Wait { seconds: Double },
    StopDevice,
    StopDrain,
    WriteCsv { path: Seq<char>, sps: usize, samples: Seq<Sample> },
}

/// What came of an action, as contracts see it.
pub enum EventView {
    Done { ok: bool },
    Started { ok: bool, retention: Seq<char> },
    Drained { shared: crate::samples::SharedView },
    Written,
    NotCreated,
    NotWritten { text: Seq<char> },
}

/// An answer, as contracts see it.
pub enum ReplyView {
    Text { text: Seq<char> },
    Report { heading: Heading, stats: Stats },
}

/// Where a tool call stands, as contracts see it. A failure is the text that reports
/// it.
pub enum StepView {
    Perform { action: ActionView },
    Answer { result: Result<ReplyView, Seq<char>> },
}

/// The tool call under way, as contracts see it.
pub enum JobView {
    Free,
    Connect { connecting: crate::controller::ConnectingView },
    ConfigureVoltage { dut_power: Option<bool> },
    ConfigurePower,
    Start { sps: usize, trigger: Option<Seq<char>> },
    MeasureStart { seconds: Double },
    MeasureWait,
    StopDevice { heading: Heading },
    StopDrain { heading: Heading, ok: bool },
    Export { path: Seq<char>, n: usize },
}

/// A server, as contracts see it.
pub struct ServerView {
    pub ctl: Option<crate::controller::ControllerView>,
    pub max_voltage_mv: u16,
    pub job: JobView,
}

impl View for Action {
    type V = ActionView;

    open spec fn view(&self) -> ActionView {
        match *self {
            Action::Open { port, mode } => ActionView::Open { port: port@, mode },
            Action::SetDevicePower { on } => ActionView::SetDevicePower { on },
            Action::SetSourceVoltage { mv } => ActionView::SetSourceVoltage { mv },
            Action::StartMeasurement { plan } => ActionView::StartMeasurement { plan },
            Action::Wait { seconds } => ActionView::Wait { seconds },
            Action::StopDevice => ActionView::StopDevice,
            Action::StopDrain => ActionView::StopDrain,
            Action::WriteCsv { path, sps, samples } => ActionView::WriteCsv {
                path: path@,
                sps,
                samples: samples@,
            },
        }
    }
}

impl View for Event {
    type V = EventView;

    open spec fn view(&self) -> EventView {
        match *self {
            Event::Done { ok } => EventView::Done { ok },
            Event::Started { ok, retention } => EventView::Started { ok, retention: retention@ },
            Event::Drained { shared } => EventView::Drained { shared: shared@ },
            Event::Written => EventView::Written,
            Event::NotCreated => EventView::NotCreated,
            Event::NotWritten { text } => EventView::NotWritten { text: text@ },
        }
    }
}

impl View for Step {
    type V = StepView;

    open spec fn view(&self) -> StepView {
        match *self {
            Step::Perform { action } => StepView::Perform { action: action@ },
            Step::Answer { result: Ok(Reply::Text { text }) } => StepView::Answer {
                result: Ok(ReplyView::Text { text: text@ }),
            },
            Step::Answer { result: Ok(Reply::Report { heading, stats }) } => StepView::Answer {
                result: Ok(ReplyView::Report { heading, stats }),
            },
            Step::Answer { result: Err(e) } => StepView::Answer { result: Err(e.text()) },
        }
    }
}

/// The text of an optional string.
pub open spec fn text_of(s: Option<String>) -> Option<Seq<char>> {
    match s {
        Some(s) => Some(s@),
        None => None,
    }
}

impl Job {
    closed spec fn view(&self) -> JobView {
        match *self {
            Job::Free => JobView::Free,
            Job::Connect { connecting } => JobView::Connect { connecting: connecting@ },
            Job::ConfigureVoltage { dut_power } => JobView::ConfigureVoltage { dut_power },
            Job::ConfigurePower => JobView::ConfigurePower,
            Job::Start { sps, trigger } => JobView::Start { sps, trigger: text_of(trigger) },
            Job::MeasureStart { seconds } => JobView::MeasureStart { seconds },
            Job::MeasureWait => JobView::MeasureWait,
            Job::StopDevice { heading } => JobView::StopDevice { heading },
            Job::StopDrain { heading, ok } => JobView::StopDrain { heading, ok },
            Job::Export { path, n } => JobView::Export { path: path@, n },
        }
    }
}

impl View for Ppk2Server {
    type V = ServerView;

    closed spec fn view(&self) -> ServerView {
        ServerView {
            ctl: match self.ctl {
                Some(c) => Some(c@),
                None => None,
            },
            max_voltage_mv: self.max_voltage_mv,
            job: self.job.view(),
        }
    }
}

/// A call that failed.
pub open spec fn failed(error: ControllerError) -> StepView {
    StepView::Answer { result: Err(error.text()) }
}

/// A call that is answered with a text.
pub open spec fn answered(text: Seq<char>) -> StepView {
    StepView::Answer { result: Ok(ReplyView::Text { text }) }
}

/// Something to do next.
pub open spec fn perform(action: ActionView) -> StepView {
    StepView::Perform { action }
}

/// Whether a capture may have this duration: above zero, at most an hour.
pub open spec fn duration_ok(d: Double) -> bool {
    !d.is_nan() && 0 < d.value() <= crate::ieee::double_of(3600)
}

/// Whether `duration` is a number of seconds no more than a nanosecond from `seconds`.
pub open spec fn clocked(seconds: Double, duration: Double) -> bool {
    &&& !duration.is_nan()
    &&& -(crate::rounding::one() as int) <= (duration.value() - seconds.value()) * 1_000_000_000
        <= crate::rounding::one()
}

impl ServerView {
    /// The controller obeys the server's ceiling, what is being connected does, and the
    /// controller awaits an outcome exactly while the call under way needs it to.
    pub open spec fn wf(self) -> bool {
        &&& match self.ctl {
            Some(c) => c.wf() && c.max_voltage_mv == self.max_voltage_mv,
            None => true,
        }
        &&& match self.job {
            JobView::Free => self.settled(),
            JobView::Connect { connecting } => connecting.wf() && connecting.max_voltage_mv
                == self.max_voltage_mv && self.settled(),
            JobView::ConfigureVoltage { .. } => self.ctl is Some && self.ctl->0.awaits_voltage(),
            JobView::ConfigurePower => self.ctl is Some && self.ctl->0.awaits_power(),
            JobView::Start { .. } => self.ctl is Some && self.ctl->0.awaits_start(),
            JobView::MeasureStart { .. } => self.ctl is Some && self.ctl->0.awaits_start(),
            JobView::MeasureWait => self.ctl is Some && self.ctl->0.state is Measuring,
            JobView::StopDevice { .. } => self.ctl is Some && self.ctl->0.awaits_stop(),
            JobView::StopDrain { .. } => self.ctl is Some && self.ctl->0.awaits_stop(),
            JobView::Export { .. } => self.ctl is Some && self.settled(),
        }
    }

    /// Whether the controller, if there is one, awaits no outcome.
    pub open spec fn settled(self) -> bool {
        self.ctl matches Some(c) ==> !(c.state is Busy)
    }

    /// Whether a session is running.
    pub open spec fn measuring(self) -> bool {
        self.ctl matches Some(c) && c.state is Measuring
    }

    /// Whether samples at the rate and with the capacity of `shared` are those of the
    /// session that is running, or being stopped.
    pub open spec fn owns(self, shared: crate::samples::SharedView) -> bool {
        self.ctl matches Some(c) ==> c.owns(shared)
    }

    /// Whether the call under way awaits such an event.
    pub open spec fn expects(self, event: EventView) -> bool {
        match self.job {
            JobView::Free => false,
            JobView::Start { .. } => event is Started,
            JobView::MeasureStart { .. } => event is Started,
            JobView::StopDrain { .. } => event matches EventView::Drained { shared }
                && self.owns(shared),
            JobView::Export { .. } => event is Written || event is NotCreated || event is NotWritten,
            _ => event is Done,
        }
    }

    /// `ppk2_connect`: nothing is done before the mode and the voltage are known to be
    /// right.
    pub open spec fn connect(
        self,
        port: Option<Seq<char>>,
        mode: Option<Seq<char>>,
        voltage_mv: Option<u16>,
    ) -> (ServerView, StepView) {
        let port = match port {
            Some(port) => port,
            None => "/dev/ttyACM0"@,
        };
        let voltage_mv = match voltage_mv {
            Some(mv) => mv,
            None => DEFAULT_VOLTAGE_MV,
        };
        let parsed = match mode {
            Some(text) => crate::mode::mode_of(text),
            None => Some(MeasurementMode::Source),
        };
        match parsed {
            None => (
                self,
                StepView::Answer {
                    result: Err(
                        "Error parsing: expected one of [ampere | amp | a | source | s], but got "@
                            + mode->0,
                    ),
                },
            ),
            Some(mode) => match crate::voltage::voltage_check(voltage_mv, self.max_voltage_mv) {
                Err(e) => (self, failed(e)),
                Ok(_) => (
                    ServerView {
                        job: JobView::Connect {
                            connecting: crate::controller::ConnectingView {
                                port,
                                mode,
                                voltage_mv,
                                max_voltage_mv: self.max_voltage_mv,
                                stage: Stage::Open,
                            },
                        },
                        ..self
                    },
                    perform(ActionView::Open { port, mode }),
                ),
            },
        }
    }

    /// `ppk2_configure`: the voltage first, then the power; neither leaves all as it is.
    pub open spec fn configure(self, voltage_mv: Option<u16>, dut_power: Option<bool>) -> (
        ServerView,
        StepView,
    ) {
        match self.ctl {
            None => (self, failed(ControllerError::NotConnected)),
            Some(c) => match voltage_mv {
                Some(mv) => {
                    let (c, r) = c.set_voltage(mv);
                    match r {
                        Err(e) => (self, failed(e)),
                        Ok(mv) => (
                            ServerView {
                                ctl: Some(c),
                                job: JobView::ConfigureVoltage { dut_power },
                                ..self
                            },
                            perform(ActionView::SetSourceVoltage { mv }),
                        ),
                    }
                },
                None => self.configure_power(dut_power),
            },
        }
    }

    /// The second half of `ppk2_configure`.
    pub open spec fn configure_power(self, dut_power: Option<bool>) -> (ServerView, StepView) {
        let c = self.ctl->0;
        match dut_power {
            Some(on) => {
                let (c, r) = c.set_power(on);
                match r {
                    Err(e) => (ServerView { job: JobView::Free, ..self }, failed(e)),
                    Ok(on) => (
                        ServerView { ctl: Some(c), job: JobView::ConfigurePower, ..self },
                        perform(ActionView::SetDevicePower { on }),
                    ),
                }
            },
            None => (
                ServerView { job: JobView::Free, ..self },
                answered(crate::report::configured_text(c.voltage_mv, c.dut_power)),
            ),
        }
    }

    /// `ppk2_measure`: the duration and the trigger are checked before anything else.
    /// `duration` is the duration as the clock counts it.
    pub open spec fn measure(
        self,
        duration_s: Double,
        duration: Double,
        sps: Option<usize>,
        trigger: Option<Seq<char>>,
    ) -> (ServerView, StepView) {
        let sps = match sps {
            Some(sps) => sps,
            None => DEFAULT_SPS,
        };
        if !duration_ok(duration_s) {
            (self, failed(ControllerError::Duration))
        } else {
            match crate::trigger::trigger_option(trigger) {
                Err(e) => (self, failed(e)),
                Ok(levels) => match self.ctl {
                    None => (self, failed(ControllerError::NotConnected)),
                    Some(c) => {
                        let (c, r) = c.start(
                            sps,
                            Retention::Capture { seconds: duration },
                            levels,
                        );
                        match r {
                            Err(e) => (self, failed(e)),
                            Ok(plan) => (
                                ServerView {
                                    ctl: Some(c),
                                    job: JobView::MeasureStart { seconds: duration_s },
                                    ..self
                                },
                                perform(ActionView::StartMeasurement { plan }),
                            ),
                        }
                    },
                },
            }
        }
    }

    /// `ppk2_start`: the trigger is checked before anything else.
    pub open spec fn start(
        self,
        sps: Option<usize>,
        retention_s: Option<Double>,
        trigger: Option<Seq<char>>,
    ) -> (ServerView, StepView) {
        let sps = match sps {
            Some(sps) => sps,
            None => DEFAULT_SPS,
        };
        let seconds = match retention_s {
            Some(seconds) => seconds,
            None => Double { bits: DEFAULT_RETENTION },
        };
        match crate::trigger::trigger_option(trigger) {
            Err(e) => (self, failed(e)),
            Ok(levels) => match self.ctl {
                None => (self, failed(ControllerError::NotConnected)),
                Some(c) => {
                    let (c, r) = c.start(sps, Retention::Window { seconds }, levels);
                    match r {
                        Err(e) => (self, failed(e)),
                        Ok(plan) => (
                            ServerView {
                                ctl: Some(c),
                                job: JobView::Start { sps, trigger },
                                ..self
                            },
                            perform(ActionView::StartMeasurement { plan }),
                        ),
                    }
                },
            },
        }
    }

    /// `ppk2_stop`.
    pub open spec fn stop(self) -> (ServerView, StepView) {
        match self.ctl {
            None => (self, failed(ControllerError::NotConnected)),
            Some(_) => self.begin_stop(Heading::SessionStopped),
        }
    }

    /// Stopping the session, to report it under a heading: the device worker goes
    /// first.
    pub open spec fn begin_stop(self, heading: Heading) -> (ServerView, StepView) {
        let (c, r) = self.ctl->0.stop();
        match r {
            Err(e) => (ServerView { job: JobView::Free, ..self }, failed(e)),
            Ok(_) => (
                ServerView { ctl: Some(c), job: JobView::StopDevice { heading }, ..self },
                perform(ActionView::StopDevice),
            ),
        }
    }

    /// `ppk2_stats`.
    pub open spec fn stats(
        self,
        live: Option<crate::samples::SharedView>,
    ) -> Result<ReplyView, Seq<char>> {
        match self.ctl {
            None => Err(ControllerError::NotConnected.text()),
            Some(c) => {
                let stats = match (c.state, live) {
                    (State::Measuring { .. }, Some(shared)) => Some(
                        crate::samples::stats_of(shared),
                    ),
                    (_, _) => c.last_stats,
                };
                match stats {
                    Some(stats) => Ok(ReplyView::Report { heading: Heading::CurrentStats, stats }),
                    None => Ok(
                        ReplyView::Text {
                            text: "no statistics yet — start or run a measurement first"@,
                        },
                    ),
                }
            },
        }
    }

    /// `ppk2_status`.
    pub open spec fn status(
        self,
        live: Option<(crate::samples::SharedView, Double)>,
        elapsed: Seq<char>,
    ) -> Seq<char> {
        match self.ctl {
            None => "not connected"@,
            Some(c) => crate::report::status_text(c.status(live), elapsed),
        }
    }

    /// `ppk2_export_csv`.
    pub open spec fn export(
        self,
        path: Seq<char>,
        live: Option<crate::samples::SharedView>,
    ) -> (ServerView, StepView) {
        match self.ctl {
            None => (self, failed(ControllerError::NotConnected)),
            Some(c) => match c.export(live) {
                None => (self, failed(ControllerError::NoSamples)),
                Some((sps, samples)) => (
                    ServerView {
                        job: JobView::Export { path, n: samples.len() as usize },
                        ..self
                    },
                    perform(ActionView::WriteCsv { path, sps, samples }),
                ),
            },
        }
    }

    /// What follows from one step of connecting, with no call under way: the next
    /// operation, or a new controller in place of any before it, or a failure that
    /// leaves the controller as it was.
    pub open spec fn after_connect_step(
        self,
        step: crate::controller::ConnectStepView,
    ) -> (ServerView, StepView) {
        match step {
            crate::controller::ConnectStepView::Failed { text } => (
                self,
                StepView::Answer { result: Err(text) },
            ),
            crate::controller::ConnectStepView::Next { connecting } => (
                ServerView { job: JobView::Connect { connecting }, ..self },
                perform(
                    match connecting.stage {
                        Stage::Open => ActionView::Open {
                            port: connecting.port,
                            mode: connecting.mode,
                        },
                        Stage::PowerOff => ActionView::SetDevicePower { on: false },
                        Stage::Voltage => ActionView::SetSourceVoltage {
                            mv: connecting.voltage_mv,
                        },
                    },
                ),
            ),
            crate::controller::ConnectStepView::Connected { controller } => (
                ServerView { ctl: Some(controller), ..self },
                answered(
                    crate::report::connected_text(
                        controller.port,
                        controller.mode,
                        controller.voltage_mv,
                        controller.dut_power,
                    ),
                ),
            ),
        }
    }

    /// What follows from the event that the call under way awaits.
    pub open spec fn resume(self, event: EventView) -> (ServerView, StepView) {
        let idle = ServerView { job: JobView::Free, ..self };
        match (self.job, event) {
            (JobView::Connect { connecting }, EventView::Done { ok }) => idle.after_connect_step(
                connecting.advance(ok),
            ),
            (JobView::ConfigureVoltage { dut_power }, EventView::Done { ok }) => {
                let (c, r) = self.ctl->0.voltage_written(ok);
                match r {
                    Err(e) => (ServerView { ctl: Some(c), ..idle }, failed(e)),
                    Ok(_) => ServerView { ctl: Some(c), ..self }.configure_power(dut_power),
                }
            },
            (JobView::ConfigurePower, EventView::Done { ok }) => {
                let (c, r) = self.ctl->0.power_written(ok);
                let next = ServerView { ctl: Some(c), ..idle };
                match r {
                    Err(e) => (next, failed(e)),
                    Ok(_) => (
                        next,
                        answered(crate::report::configured_text(c.voltage_mv, c.dut_power)),
                    ),
                }
            },
            (JobView::Start { sps, trigger }, EventView::Started { ok, retention }) => {
                let (c, r) = self.ctl->0.started(ok);
                let next = ServerView { ctl: Some(c), ..idle };
                match r {
                    Err(e) => (next, failed(e)),
                    Ok(_) => (
                        next,
                        answered(crate::report::started_text(sps, retention, trigger)),
                    ),
                }
            },
            (JobView::MeasureStart { seconds }, EventView::Started { ok, .. }) => {
                let (c, r) = self.ctl->0.started(ok);
                match r {
                    Err(e) => (ServerView { ctl: Some(c), ..idle }, failed(e)),
                    Ok(_) => (
                        ServerView { ctl: Some(c), job: JobView::MeasureWait, ..self },
                        perform(ActionView::Wait { seconds }),
                    ),
                }
            },
            (JobView::MeasureWait, EventView::Done { .. }) => self.begin_stop(
                Heading::MeasurementComplete,
            ),
            (JobView::StopDevice { heading }, EventView::Done { ok }) => (
                ServerView { job: JobView::StopDrain { heading, ok }, ..self },
                perform(ActionView::StopDrain),
            ),
            (JobView::StopDrain { heading, ok }, EventView::Drained { shared }) => {
                let (c, r) = self.ctl->0.stopped(ok, shared);
                let next = ServerView { ctl: Some(c), ..idle };
                match r {
                    Err(e) => (next, failed(e)),
                    Ok(stats) => (
                        next,
                        StepView::Answer { result: Ok(ReplyView::Report { heading, stats }) },
                    ),
                }
            },
            (JobView::Export { path, n }, EventView::Written) => (
                idle,
                answered(crate::report::exported_text(n as nat, path)),
            ),
            (JobView::Export { path, .. }, EventView::NotCreated) => (
                idle,
                StepView::Answer { result: Err("creating "@ + path) },
            ),
            (JobView::Export { .. }, EventView::NotWritten { text }) => (
                idle,
                StepView::Answer { result: Err(text) },
            ),
            (_, _) => (self, arbitrary()),
        }
    }
}

/// `s`, or a default in its place.
fn text_or(s: Option<String>, default: &str) -> (r: String)
    ensures
        r@ == (match s {
            Some(s) => s@,
            None => default@,
        }),
{
    match s {
        Some(s) => s,
        None => default.to_owned(),
    }
}

fn sps_or_default(sps: Option<usize>) -> (r: usize)
    ensures
        r == (match sps {
            Some(sps) => sps,
            None => DEFAULT_SPS,
        }),
{
    match sps {
        Some(sps) => sps,
        None => DEFAULT_SPS,
    }
}

fn refuse(error: ControllerError) -> (r: Step)
    ensures
        r@ == failed(error),
{
    Step::Answer { result: Err(error) }
}

fn answer(text: String) -> (r: Step)
    ensures
        r@ == answered(text@),
{
    Step::Answer { result: Ok(Reply::Text { text }) }
}

/// The longest capture takes 3600 seconds.
proof fn lemma_max_duration()
    ensures
        !(Double { bits: MAX_DURATION }).is_nan(),
        (Double { bits: MAX_DURATION }).value() == crate::ieee::double_of(3600),
{
    vstd::arithmetic::power2::lemma2_to64_rest();
    crate::ieee::lemma_double_of(Double { bits: MAX_DURATION }, 3600, 41);
}

/// The retention window of a session that names none is 60 seconds.
pub proof fn lemma_default_retention()
    ensures
        (Double { bits: DEFAULT_RETENTION }).value() == crate::ieee::double_of(60),
{
    vstd::arithmetic::power2::lemma2_to64_rest();
    crate::ieee::lemma_double_of(Double { bits: DEFAULT_RETENTION }, 60, 47);
}

/// Whether a capture may have this duration: above zero, at most an hour.
pub fn duration_allowed(d: Double) -> (r: bool)
    ensures
        r == duration_ok(d),
{
    let zero = Double { bits: 0 };
    let most = Double { bits: MAX_DURATION };
    proof {
        lemma_max_duration();
    }
    zero.less(d) && !most.less(d)
}

impl Ppk2Server {
    /// Create a server that will never apply a source voltage above `max_voltage_mv`.
    pub fn new(max_voltage_mv: u16) -> (r: Ppk2Server)
        ensures
            r@ == (ServerView { ctl: None, max_voltage_mv, job: JobView::Free }),
            r@.wf(),
    {
        Ppk2Server { ctl: None, max_voltage_mv, job: Job::Free }
    }

    /// Whether a session is running.
    pub fn is_measuring(&self) -> (r: bool)
        ensures
            r == self@.measuring(),
    {
        match &self.ctl {
            Some(c) => c.is_measuring(),
            None => false,
        }
    }

    /// Whether `shared` has the rate and the capacity of the session that is running, or
    /// being stopped.
    pub fn owns(&self, shared: &Shared) -> (r: bool)
        ensures
            r == self@.owns(shared@),
    {
        match &self.ctl {
            Some(c) => c.owns(shared),
            None => true,
        }
    }

    /// Connect to the PPK2 over serial, read calibration metadata, and set the source
    /// voltage. Leaves DUT power off. Where that fails, a controller that was connected
    /// before stays.
    pub fn ppk2_connect(&mut self, args: ConnectArgs) -> (r: Step)
        requires
            old(self)@.wf(),
            old(self)@.job is Free,
        ensures
            (final(self)@, r@) == old(self)@.connect(
                text_of(args.port),
                text_of(args.mode),
                args.voltage_mv,
            ),
            final(self)@.wf(),
    {
        let port: String = text_or(args.port, "/dev/ttyACM0");
        let mode: MeasurementMode = match &args.mode {
            Some(text) => match MeasurementMode::parse(text.as_str()) {
                Ok(mode) => mode,
                Err(e) => return refuse(e),
            },
            None => MeasurementMode::Source,
        };
        let voltage_mv: u16 = match args.voltage_mv {
            Some(mv) => mv,
            None => DEFAULT_VOLTAGE_MV,
        };
        match Ppk2Controller::connect(port.as_str(), mode, voltage_mv, self.max_voltage_mv) {
            Ok(connecting) => {
                self.job = Job::Connect { connecting };
                Step::Perform { action: Action::Open { port, mode } }
            },
            Err(e) => refuse(e),
        }
    }

    /// Set source voltage (mV) and/or toggle DUT power. Only valid while not measuring.
    pub fn ppk2_configure(&mut self, args: ConfigureArgs) -> (r: Step)
        requires
            old(self)@.wf(),
            old(self)@.job is Free,
        ensures
            (final(self)@, r@) == old(self)@.configure(args.voltage_mv, args.dut_power),
            final(self)@.wf(),
    {
        match self.ctl.take() {
            None => refuse(ControllerError::NotConnected),
            Some(c) => {
                let mut c = c;
                match args.voltage_mv {
                    Some(mv) => match c.set_source_voltage(mv) {
                        Err(e) => {
                            self.ctl = Some(c);
                            refuse(e)
                        },
                        Ok(mv) => {
                            self.ctl = Some(c);
                            self.job = Job::ConfigureVoltage { dut_power: args.dut_power };
                            Step::Perform { action: Action::SetSourceVoltage { mv } }
                        },
                    },
                    None => self.go_on_configuring(c, args.dut_power),
                }
            },
        }
    }

    /// The second half of `ppk2_configure`, on the controller `c`.
    fn go_on_configuring(&mut self, c: Ppk2Controller, dut_power: Option<bool>) -> (r: Step)
        requires
            c@.wf(),
            !(c@.state is Busy),
            c@.max_voltage_mv == old(self)@.max_voltage_mv,
        ensures
            (final(self)@, r@) == (ServerView { ctl: Some(c@), ..old(self)@ }).configure_power(
                dut_power,
            ),
            final(self)@.wf(),
    {
        let mut c = c;
        self.job = Job::Free;
        match dut_power {
            Some(on) => match c.set_dut_power(on) {
                Err(e) => {
                    self.ctl = Some(c);
                    refuse(e)
                },
                Ok(on) => {
                    self.ctl = Some(c);
                    self.job = Job::ConfigurePower;
                    Step::Perform { action: Action::SetDevicePower { on } }
                },
            },
            None => {
                let text = configured(&c);
                self.ctl = Some(c);
                answer(text)
            },
        }
    }

    /// Capture current for a fixed duration and return summary statistics. `duration` is
    /// the duration in seconds as the clock counts it, to the nanosecond.
    pub fn ppk2_measure(&mut self, args: MeasureArgs, duration: Double) -> (r: Step)
        requires
            old(self)@.wf(),
            old(self)@.job is Free,
            duration_ok(args.duration_s) ==> clocked(args.duration_s, duration),
        ensures
            (final(self)@, r@) == old(self)@.measure(
                args.duration_s,
                duration,
                args.sps,
                text_of(args.trigger),
            ),
            final(self)@.wf(),
    {
        if !duration_allowed(args.duration_s) {
            return refuse(ControllerError::Duration);
        }
        let sps: usize = sps_or_default(args.sps);
        let levels: Option<[Level; 8]> = match trigger_arg(&args.trigger) {
            Ok(levels) => levels,
            Err(e) => return refuse(e),
        };
        match self.ctl.take() {
            None => refuse(ControllerError::NotConnected),
            Some(c) => {
                let mut c = c;
                let r = c.measure(duration, sps, levels);
                self.ctl = Some(c);
                match r {
                    Err(e) => refuse(e),
                    Ok(plan) => {
                        self.job = Job::MeasureStart { seconds: args.duration_s };
                        Step::Perform { action: Action::StartMeasurement { plan } }
                    },
                }
            },
        }
    }

    /// Start a background measurement session.
    pub fn ppk2_start(&mut self, args: StartArgs) -> (r: Step)
        requires
            old(self)@.wf(),
            old(self)@.job is Free,
        ensures
            (final(self)@, r@) == old(self)@.start(
                args.sps,
                args.retention_s,
                text_of(args.trigger),
            ),
            final(self)@.wf(),
    {
        let sps: usize = sps_or_default(args.sps);
        let seconds: Double = match args.retention_s {
            Some(seconds) => seconds,
            None => Double { bits: DEFAULT_RETENTION },
        };
        let levels: Option<[Level; 8]> = match trigger_arg(&args.trigger) {
            Ok(levels) => levels,
            Err(e) => return refuse(e),
        };
        match self.ctl.take() {
            None => refuse(ControllerError::NotConnected),
            Some(c) => {
                let mut c = c;
                let r = c.start(sps, seconds, levels);
                self.ctl = Some(c);
                match r {
                    Err(e) => refuse(e),
                    Ok(plan) => {
                        self.job = Job::Start { sps, trigger: args.trigger };
                        Step::Perform { action: Action::StartMeasurement { plan } }
                    },
                }
            },
        }
    }

    /// Stop the current background measurement session and return its final statistics.
    pub fn ppk2_stop(&mut self) -> (r: Step)
        requires
            old(self)@.wf(),
            old(self)@.job is Free,
        ensures
            (final(self)@, r@) == old(self)@.stop(),
            final(self)@.wf(),
    {
        match self.ctl.take() {
            None => refuse(ControllerError::NotConnected),
            Some(c) => self.begin_stop(c, Heading::SessionStopped),
        }
    }

    fn begin_stop(&mut self, c: Ppk2Controller, heading: Heading) -> (r: Step)
        requires
            c@.wf(),
            !(c@.state is Busy),
            c@.max_voltage_mv == old(self)@.max_voltage_mv,
        ensures
            (final(self)@, r@) == (ServerView { ctl: Some(c@), ..old(self)@ }).begin_stop(heading),
            final(self)@.wf(),
    {
        let mut c = c;
        let r = c.stop();
        self.ctl = Some(c);
        match r {
            Err(e) => {
                self.job = Job::Free;
                refuse(e)
            },
            Ok(()) => {
                self.job = Job::StopDevice { heading };
                Step::Perform { action: Action::StopDevice }
            },
        }
    }

    /// Return statistics for the live session (if measuring) or the most recent
    /// session. `live` is the live session.
    pub fn ppk2_stats(&self, live: Option<&Shared>) -> (r: Result<
        Reply,
        ControllerError,
    >)
        requires
            self@.measuring() ==> live is Some,
            live matches Some(shared) ==> shared.wf() && self@.owns(shared@),
        ensures
            (Step::Answer { result: r })@ == (StepView::Answer {
                result: self@.stats(
                    match live {
                        Some(shared) => Some(shared@),
                        None => None,
                    },
                ),
            }),
    {
        match &self.ctl {
            None => Err(ControllerError::NotConnected),
            Some(c) => match c.stats(live) {
                Some(stats) => Ok(Reply::Report { heading: Heading::CurrentStats, stats }),
                None => Ok(
                    Reply::Text {
                        text: "no statistics yet — start or run a measurement first".to_owned(),
                    },
                ),
            },
        }
    }

    /// Export the retained sample buffer to a CSV file. `live` is the live session.
    pub fn ppk2_export_csv(&mut self, args: ExportArgs, live: Option<&Shared>) -> (r: Step)
        requires
            old(self)@.wf(),
            old(self)@.job is Free,
            old(self)@.measuring() ==> live is Some,
            live matches Some(shared) ==> shared.wf() && old(self)@.owns(shared@),
        ensures
            (final(self)@, r@) == old(self)@.export(
                args.path@,
                match live {
                    Some(shared) => Some(shared@),
                    None => None,
                },
            ),
            final(self)@.wf(),
    {
        let picked = match &self.ctl {
            None => return refuse(ControllerError::NotConnected),
            Some(c) => c.export_csv(live),
        };
        match picked {
            Err(e) => refuse(e),
            Ok((sps, samples)) => {
                self.job = Job::Export { path: args.path.clone(), n: samples.len() };
                Step::Perform { action: Action::WriteCsv { path: args.path, sps, samples } }
            },
        }
    }

    /// Report connection state, mode, voltage, DUT power, and buffer status. `live` is
    /// the live session with the seconds that it has been running for, and `elapsed`
    /// those seconds as text.
    pub fn ppk2_status(&self, live: Option<(&Shared, Double)>, elapsed: &str) -> (r: String)
        requires
            self@.measuring() ==> live is Some,
            live matches Some((shared, seconds)) ==> shared.wf() && self@.owns(shared@),
        ensures
            r@ == self@.status(
                match live {
                    Some((shared, seconds)) => Some((shared@, seconds)),
                    None => None,
                },
                elapsed@,
            ),
    {
        match &self.ctl {
            None => "not connected".to_owned(),
            Some(c) => {
                let status = c.status(live);
                status_string(&status, elapsed)
            },
        }
    }

    /// Go on with the call under way, given what came of the action it asked for.
    pub fn resume(&mut self, event: Event) -> (r: Step)
        requires
            old(self)@.wf(),
            old(self)@.expects(event@),
            event matches Event::Drained { shared } ==> shared.wf(),
        ensures
            (final(self)@, r@) == old(self)@.resume(event@),
            final(self)@.wf(),
    {
        let mut job = Job::Free;
        core::mem::swap(&mut self.job, &mut job);
        match (job, event) {
            (Job::Connect { connecting }, Event::Done { ok }) => self.go_on_connecting(
                connecting.advance(ok),
            ),
            (Job::ConfigureVoltage { dut_power }, Event::Done { ok }) => {
                let mut c = self.ctl.take().unwrap();
                match c.source_voltage_written(ok) {
                    Err(e) => {
                        self.ctl = Some(c);
                        refuse(e)
                    },
                    Ok(()) => self.go_on_configuring(c, dut_power),
                }
            },
            (Job::ConfigurePower, Event::Done { ok }) => {
                let mut c = self.ctl.take().unwrap();
                let r = c.dut_power_written(ok);
                let text = configured(&c);
                self.ctl = Some(c);
                match r {
                    Err(e) => refuse(e),
                    Ok(()) => answer(text),
                }
            },
            (Job::Start { sps, trigger }, Event::Started { ok, retention }) => {
                let mut c = self.ctl.take().unwrap();
                let r = c.started(ok);
                self.ctl = Some(c);
                match r {
                    Err(e) => refuse(e),
                    Ok(()) => answer(started_string(sps, retention.as_str(), &trigger)),
                }
            },
            (Job::MeasureStart { seconds }, Event::Started { ok, .. }) => {
                let mut c = self.ctl.take().unwrap();
                let r = c.started(ok);
                self.ctl = Some(c);
                match r {
                    Err(e) => refuse(e),
                    Ok(()) => {
                        self.job = Job::MeasureWait;
                        Step::Perform { action: Action::Wait { seconds } }
                    },
                }
            },
            (Job::MeasureWait, Event::Done { .. }) => {
                let c = self.ctl.take().unwrap();
                self.begin_stop(c, Heading::MeasurementComplete)
            },
            (Job::StopDevice { heading }, Event::Done { ok }) => {
                self.job = Job::StopDrain { heading, ok };
                Step::Perform { action: Action::StopDrain }
            },
            (Job::StopDrain { heading, ok }, Event::Drained { shared }) => {
                let mut c = self.ctl.take().unwrap();
                let r = c.stopped(ok, &shared);
                self.ctl = Some(c);
                match r {
                    Err(e) => refuse(e),
                    Ok(stats) => Step::Answer { result: Ok(Reply::Report { heading, stats }) },
                }
            },
            (Job::Export { path, n }, Event::Written) => answer(exported_string(n, path.as_str())),
            (Job::Export { path, .. }, Event::NotCreated) => refuse(
                ControllerError::CreateFailed { path },
            ),
            (Job::Export { .. }, Event::NotWritten { text }) => refuse(
                ControllerError::WriteFailed { text },
            ),
            (_, _) => {
                assert(false);
                refuse(ControllerError::NotConnected)
            },
        }
    }

    fn go_on_connecting(&mut self, step: ConnectStep) -> (r: Step)
        requires
            old(self)@.wf(),
            old(self)@.job is Free,
            step matches ConnectStep::Next { connecting } ==> connecting@.wf()
                && connecting@.max_voltage_mv == old(self)@.max_voltage_mv,
            step matches ConnectStep::Connected { controller } ==> controller@.wf()
                && controller@.max_voltage_mv == old(self)@.max_voltage_mv && controller@.state
                is Idle,
        ensures
            (final(self)@, r@) == old(self)@.after_connect_step(step@),
            final(self)@.wf(),
    {
        match step {
            ConnectStep::Failed { error } => refuse(error),
            ConnectStep::Next { connecting } => {
                let action = match connecting.stage() {
                    Stage::Open => Action::Open {
                        port: connecting.port().clone(),
                        mode: connecting.mode(),
                    },
                    Stage::PowerOff => Action::SetDevicePower { on: false },
                    Stage::Voltage => Action::SetSourceVoltage { mv: connecting.voltage_mv() },
                };
                self.job = Job::Connect { connecting };
                Step::Perform { action }
            },
            ConnectStep::Connected { controller } => {
                let text = connected_string(&controller.status(None));
                self.ctl = Some(controller);
                answer(text)
            },
        }
    }
}

/// The report of a configuration.
fn configured(c: &Ppk2Controller) -> (r: String)
    ensures
        r@ == crate::report::configured_text(c@.voltage_mv, c@.dut_power),
{
    configured_string(c.voltage_mv(), c.dut_power())
}

impl Default for Ppk2Server {
    /// A server whose ceiling is the hardware maximum.
    fn default() -> (r: Ppk2Server)
        ensures
            r@ == (ServerView {
                ctl: None,
                max_voltage_mv: VDD_HW_MAX_MV,
                job: JobView::Free,
            }),
            r@.wf(),
    {
        Ppk2Server::new(VDD_HW_MAX_MV)
    }
}

/// The headings under which statistics are told.
pub proof fn lemma_headings()
    ensures
        Heading::MeasurementComplete.label() == "measurement complete"@,
        Heading::SessionStopped.label() == "session stopped"@,
        Heading::CurrentStats.label() == "current stats"@,
{
}

} // verus!
