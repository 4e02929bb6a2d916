//! The controller of one PPK2: what it may be asked in which state, what is then to
//! be done with the device, and what follows from the outcome.
//!
//! The controller does not hold the device. An operation that needs it comes in two
//! halves. The first checks the request and says what to do; from there on the
//! controller counts as broken. The second takes the outcome: success restores the
//! controller, a failure leaves it broken, so that a lost link is noticed instead of
//! leaving a live-looking but dead connection.

use vstd::prelude::*;

use crate::capacity::{capture_capacity, window_capacity};
use crate::error::ControllerError;
use crate::ieee::Double;
use crate::mode::MeasurementMode;
use crate::samples::{Sample, Shared, Stats};
use crate::trigger::{trigger_to_string, Level};
use crate::voltage::validate_voltage;

verus! {

/// The highest sampling rate (samples per second).
pub const SPS_MAX: usize = 100_000;

/// A measurement session.
#[derive(Clone, Copy, Debug)]
pub struct Session {
    /// Samples per second.
    pub sps: usize,
    /// How many samples the rolling buffer keeps.
    pub cap: usize,
    /// Active digital trigger pattern, if any (only matching windows are recorded).
    pub trigger: Option<[Level; 8]>,
}

/// An operation on the device whose outcome is awaited.
#[derive(Clone, Copy, Debug)]
pub enum Operation {
    /// Setting the source voltage.
    SetVoltage { mv: u16 },
    /// Switching DUT power.
    SetPower { on: bool },
    /// Starting a measurement.
    Start { session: Session },
    /// Stopping a measurement.
    Stop { session: Session },
}

/// What the controller is doing.
#[derive(Clone, Copy, Debug)]
pub enum State {
    /// Connected, not measuring.
    Idle,
    /// A measurement session is running.
    Measuring { session: Session },
    /// An operation on the device is under way. Until its outcome is known the
    /// controller counts as broken.
    Busy { operation: Operation },
    /// The device handle was lost; the caller must reconnect.
    Broken,
}

/// How long samples are kept.
#[derive(Clone, Copy, Debug)]
pub enum Retention {
    /// A rolling window of that many seconds.
    Window { seconds: Double },
    /// A whole capture of that many seconds, and one second more.
    Capture { seconds: Double },
}

impl Retention {
    /// How many samples are kept at `sps` samples per second.
    pub open spec fn size(self, sps: usize) -> usize {
        match self {
            Retention::Window { seconds } => crate::capacity::window_size(sps, seconds),
            Retention::Capture { seconds } => crate::capacity::capture_size(sps, seconds),
        }
    }

    /// How many samples are kept at `sps` samples per second.
    pub fn capacity(&self, sps: usize) -> (r: usize)
        ensures
            r == self.size(sps),
    {
        match *self {
            Retention::Window { seconds } => window_capacity(sps, seconds),
            Retention::Capture { seconds } => capture_capacity(sps, seconds),
        }
    }
}

/// What starting a measurement asks of the device and of the sample buffer.
#[derive(Clone, Copy, Debug)]
pub struct StartPlan {
    /// The levels that a window must have to be recorded.
    pub pins: [Level; 8],
    /// Samples per second.
    pub sps: usize,
    /// How long samples are kept.
    pub retention: Retention,
    /// How many samples the buffer keeps for that.
    pub cap: usize,
}

/// The levels that a trigger asks for: without one, any level on every pin.
pub open spec fn trigger_pins(trigger: Option<[Level; 8]>) -> [Level; 8] {
    match trigger {
        Some(levels) => levels,
        None => [
            Level::Either,
            Level::Either,
            Level::Either,
            Level::Either,
            Level::Either,
            Level::Either,
            Level::Either,
            Level::Either,
        ],
    }
}

/// A controller as its contracts see it.
pub struct ControllerView {
    pub state: State,
    pub port: Seq<char>,
    pub mode: MeasurementMode,
    /// The source voltage (mV) last set.
    pub voltage_mv: u16,
    /// The DUT power state last set.
    pub dut_power: bool,
    /// The operator's ceiling for the source voltage (mV).
    pub max_voltage_mv: u16,
    /// Rate and retained samples of the most recent session.
    pub last_samples: Option<(usize, Seq<Sample>)>,
    /// Statistics of the most recent session.
    pub last_stats: Option<Stats>,
}

/// Whether `sps` is a sampling rate of the device.
pub open spec fn rate_ok(sps: usize) -> bool {
    1 <= sps <= SPS_MAX
}

impl ControllerView {
    /// The voltage of a controller, and any it is about to set, are allowed under its
    /// ceiling, and a session has a sampling rate of the device.
    pub open spec fn wf(self) -> bool {
        &&& crate::voltage::allowed(self.voltage_mv, self.max_voltage_mv)
        &&& match self.state {
            State::Measuring { session } => rate_ok(session.sps),
            State::Busy { operation: Operation::SetVoltage { mv } } => crate::voltage::allowed(
                mv,
                self.max_voltage_mv,
            ),
            State::Busy { operation: Operation::Start { session } } => rate_ok(session.sps),
            State::Busy { operation: Operation::Stop { session } } => rate_ok(session.sps),
            _ => true,
        }
    }

    /// Whether the device handle is lost, or may be.
    pub open spec fn is_broken(self) -> bool {
        self.state is Broken || self.state is Busy
    }

    /// Asking for the source voltage `mv`: out of range or above the ceiling it is
    /// rejected; otherwise it needs an idle controller.
    pub open spec fn set_voltage(self, mv: u16) -> (ControllerView, Result<u16, ControllerError>) {
        match crate::voltage::voltage_check(mv, self.max_voltage_mv) {
            Err(e) => (self, Err(e)),
            Ok(_) => match self.state {
                State::Idle => (
                    ControllerView {
                        state: State::Busy { operation: Operation::SetVoltage { mv } },
                        ..self
                    },
                    Ok(mv),
                ),
                State::Measuring { .. } => (self, Err(ControllerError::MeasuringVoltage)),
                _ => (self, Err(ControllerError::BrokenWrite)),
            },
        }
    }

    /// The outcome of writing the source voltage.
    pub open spec fn voltage_written(self, ok: bool) -> (ControllerView, Result<
        (),
        ControllerError,
    >) {
        if ok {
            (
                ControllerView {
                    state: State::Idle,
                    voltage_mv: self.state->operation->mv,
                    ..self
                },
                Ok(()),
            )
        } else {
            (
                ControllerView { state: State::Broken, ..self },
                Err(ControllerError::VoltageWriteFailed),
            )
        }
    }

    /// Asking for DUT power on or off: it needs an idle controller.
    pub open spec fn set_power(self, on: bool) -> (ControllerView, Result<bool, ControllerError>) {
        match self.state {
            State::Idle => (
                ControllerView {
                    state: State::Busy { operation: Operation::SetPower { on } },
                    ..self
                },
                Ok(on),
            ),
            State::Measuring { .. } => (self, Err(ControllerError::MeasuringPower)),
            _ => (self, Err(ControllerError::BrokenWrite)),
        }
    }

    /// The outcome of writing the DUT power state.
    pub open spec fn power_written(self, ok: bool) -> (ControllerView, Result<
        (),
        ControllerError,
    >) {
        if ok {
            (
                ControllerView {
                    state: State::Idle,
                    dut_power: self.state->operation->on,
                    ..self
                },
                Ok(()),
            )
        } else {
            (
                ControllerView { state: State::Broken, ..self },
                Err(ControllerError::PowerWriteFailed),
            )
        }
    }

    /// Asking for a measurement: it needs a sampling rate of the device and an idle
    /// controller.
    pub open spec fn start(
        self,
        sps: usize,
        retention: Retention,
        trigger: Option<[Level; 8]>,
    ) -> (ControllerView, Result<StartPlan, ControllerError>) {
        if !rate_ok(sps) {
            (self, Err(ControllerError::SampleRate))
        } else {
            match self.state {
                State::Idle => (
                    ControllerView {
                        state: State::Busy {
                            operation: Operation::Start {
                                session: Session { sps, cap: retention.size(sps), trigger },
                            },
                        },
                        ..self
                    },
                    Ok(
                        StartPlan {
                            pins: trigger_pins(trigger),
                            sps,
                            retention,
                            cap: retention.size(sps),
                        },
                    ),
                ),
                State::Measuring { .. } => (self, Err(ControllerError::AlreadyMeasuring)),
                _ => (self, Err(ControllerError::BrokenStart)),
            }
        }
    }

    /// The outcome of starting a measurement.
    pub open spec fn started(self, ok: bool) -> (ControllerView, Result<(), ControllerError>) {
        if ok {
            (
                ControllerView {
                    state: State::Measuring { session: self.state->operation->Start_session },
                    ..self
                },
                Ok(()),
            )
        } else {
            (
                ControllerView { state: State::Broken, ..self },
                Err(ControllerError::StartFailed),
            )
        }
    }

    /// Asking for the end of the measurement: it needs one that is running.
    pub open spec fn stop(self) -> (ControllerView, Result<(), ControllerError>) {
        match self.state {
            State::Measuring { session } => (
                ControllerView {
                    state: State::Busy { operation: Operation::Stop { session } },
                    ..self
                },
                Ok(()),
            ),
            _ => (self, Err(ControllerError::NotMeasuring)),
        }
    }

    /// The outcome of stopping the device worker, and the session as the drain thread
    /// left it.
    pub open spec fn stopped(
        self,
        ok: bool,
        shared: crate::samples::SharedView,
    ) -> (ControllerView, Result<Stats, ControllerError>) {
        if ok {
            let stats = crate::samples::stats_of(shared);
            (
                ControllerView {
                    state: State::Idle,
                    last_samples: Some(
                        (shared.sps, crate::samples::window(shared.history, shared.cap)),
                    ),
                    last_stats: Some(stats),
                    ..self
                },
                Ok(stats),
            )
        } else {
            (
                ControllerView { state: State::Broken, ..self },
                Err(ControllerError::StopFailed),
            )
        }
    }

    /// Whether samples at the rate and with the capacity of `shared` are those of the
    /// session that is running, or being stopped.
    pub open spec fn owns(self, shared: crate::samples::SharedView) -> bool {
        match self.state {
            State::Measuring { session }
            | State::Busy { operation: Operation::Stop { session } } => shared.sps == session.sps
                && shared.cap == session.cap,
            _ => true,
        }
    }

    /// Whether the outcome of setting the source voltage is awaited.
    pub open spec fn awaits_voltage(self) -> bool {
        self.state is Busy && self.state->operation is SetVoltage
    }

    /// Whether the outcome of switching DUT power is awaited.
    pub open spec fn awaits_power(self) -> bool {
        self.state is Busy && self.state->operation is SetPower
    }

    /// Whether the outcome of starting a measurement is awaited.
    pub open spec fn awaits_start(self) -> bool {
        self.state is Busy && self.state->operation is Start
    }

    /// Whether the outcome of stopping a measurement is awaited.
    pub open spec fn awaits_stop(self) -> bool {
        self.state is Busy && self.state->operation is Stop
    }
}

/// High-level PPK2 controller.
#[derive(Debug)]
pub struct Ppk2Controller {
    state: State,
    port: String,
    mode: MeasurementMode,
    voltage_mv: u16,
    dut_power: bool,
    max_voltage_mv: u16,
    last_samples: Option<(usize, Vec<Sample>)>,
    last_stats: Option<Stats>,
}

impl View for Ppk2Controller {
    type V = ControllerView;

    closed spec fn view(&self) -> ControllerView {
        ControllerView {
            state: self.state,
            port: self.port@,
            mode: self.mode,
            voltage_mv: self.voltage_mv,
            dut_power: self.dut_power,
            max_voltage_mv: self.max_voltage_mv,
            last_samples: match self.last_samples {
                Some((sps, samples)) => Some((sps, samples@)),
                None => None,
            },
            last_stats: self.last_stats,
        }
    }
}

/// Snapshot of controller state for a status query.
#[derive(Clone, Debug)]
pub struct Status {
    pub port: String,
    pub connected: bool,
    pub measuring: bool,
    pub broken: bool,
    pub mode: MeasurementMode,
    pub voltage_mv: u16,
    pub max_voltage_mv: u16,
    /// Last-commanded DUT power state. Only reliable while `!broken`; when
    /// `broken`, the true state is unknown — a failed power write may have left
    /// the DUT in either state, so callers must treat this as last-known-only.
    pub dut_power: bool,
    pub sps: Option<usize>,
    pub buffered_samples: Option<usize>,
    pub elapsed_s: Option<Double>,
    /// Active digital trigger pattern (D0 leftmost), if any.
    pub trigger: Option<String>,
}

/// A status snapshot, as contracts see it.
pub struct StatusView {
    pub port: Seq<char>,
    pub connected: bool,
    pub measuring: bool,
    pub broken: bool,
    pub mode: MeasurementMode,
    pub voltage_mv: u16,
    pub max_voltage_mv: u16,
    pub dut_power: bool,
    pub sps: Option<usize>,
    pub buffered_samples: Option<nat>,
    pub elapsed_s: Option<Double>,
    pub trigger: Option<Seq<char>>,
}

impl View for Status {
    type V = StatusView;

    open spec fn view(&self) -> StatusView {
        StatusView {
            port: self.port@,
            connected: self.connected,
            measuring: self.measuring,
            broken: self.broken,
            mode: self.mode,
            voltage_mv: self.voltage_mv,
            max_voltage_mv: self.max_voltage_mv,
            dut_power: self.dut_power,
            sps: self.sps,
            buffered_samples: match self.buffered_samples {
                Some(n) => Some(n as nat),
                None => None,
            },
            elapsed_s: self.elapsed_s,
            trigger: match self.trigger {
                Some(t) => Some(t@),
                None => None,
            },
        }
    }
}

/// Opening a connection, which takes three operations in order: opening the port,
/// switching DUT power off, and setting the source voltage.
#[derive(Debug)]
pub struct Connecting {
    port: String,
    mode: MeasurementMode,
    voltage_mv: u16,
    max_voltage_mv: u16,
    stage: Stage,
}

/// The operation of connecting whose outcome is awaited.
#[derive(Clone, Copy, Debug, PartialEq, Eq, Structural)]
pub enum Stage {
    /// Opening the port and reading the calibration.
    Open,
    /// Switching DUT power off.
    PowerOff,
    /// Setting the source voltage.
    Voltage,
}

/// A connection being opened, as its contracts see it.
pub struct ConnectingView {
    pub port: Seq<char>,
    pub mode: MeasurementMode,
    pub voltage_mv: u16,
    pub max_voltage_mv: u16,
    pub stage: Stage,
}

impl View for Connecting {
    type V = ConnectingView;

    closed spec fn view(&self) -> ConnectingView {
        ConnectingView {
            port: self.port@,
            mode: self.mode,
            voltage_mv: self.voltage_mv,
            max_voltage_mv: self.max_voltage_mv,
            stage: self.stage,
        }
    }
}

/// What follows from the outcome of one operation of connecting.
#[derive(Debug)]
pub enum ConnectStep {
    /// The next operation is due.
    Next { connecting: Connecting },
    /// The connection stands.
    Connected { controller: Ppk2Controller },
    /// The connection is given up.
    Failed { error: ControllerError },
}

/// What follows from the outcome of one operation of connecting, as contracts see it.
pub enum ConnectStepView {
    Next { connecting: ConnectingView },
    Connected { controller: ControllerView },
    Failed { text: Seq<char> },
}

impl View for ConnectStep {
    type V = ConnectStepView;

    open spec fn view(&self) -> ConnectStepView {
        match *self {
            ConnectStep::Next { connecting } => ConnectStepView::Next { connecting: connecting@ },
            ConnectStep::Connected { controller } => ConnectStepView::Connected {
                controller: controller@,
            },
            ConnectStep::Failed { error } => ConnectStepView::Failed { text: error.text() },
        }
    }
}

impl ConnectingView {
    /// The voltage is allowed under the ceiling before the device is touched.
    pub open spec fn wf(self) -> bool {
        crate::voltage::allowed(self.voltage_mv, self.max_voltage_mv)
    }

    /// What follows when the awaited operation succeeds or fails. Only when all three
    /// succeeded is there a controller: idle, with DUT power off.
    pub open spec fn advance(self, ok: bool) -> ConnectStepView {
        if !ok {
            ConnectStepView::Failed {
                text: match self.stage {
                    Stage::Open => "opening PPK2 on "@ + self.port
                        + " (in use, missing permissions, or unplugged?)"@,
                    Stage::PowerOff => "forcing DUT power off on connect"@,
                    Stage::Voltage => "setting source voltage"@,
                },
            }
        } else {
            match self.stage {
                Stage::Open => ConnectStepView::Next {
                    connecting: ConnectingView { stage: Stage::PowerOff, ..self },
                },
                Stage::PowerOff => ConnectStepView::Next {
                    connecting: ConnectingView { stage: Stage::Voltage, ..self },
                },
                Stage::Voltage => ConnectStepView::Connected {
                    controller: ControllerView {
                        state: State::Idle,
                        port: self.port,
                        mode: self.mode,
                        voltage_mv: self.voltage_mv,
                        dut_power: false,
                        max_voltage_mv: self.max_voltage_mv,
                        last_samples: None,
                        last_stats: None,
                    },
                },
            }
        }
    }
}

impl Connecting {
    /// The port to open.
    pub fn port(&self) -> (r: &String)
        ensures
            r@ == self@.port,
    {
        &self.port
    }

    /// The measurement mode to open the device in.
    pub fn mode(&self) -> (r: MeasurementMode)
        ensures
            r == self@.mode,
    {
        self.mode
    }

    /// The source voltage (mV) to set.
    pub fn voltage_mv(&self) -> (r: u16)
        ensures
            r == self@.voltage_mv,
    {
        self.voltage_mv
    }

    /// The operation whose outcome is awaited.
    pub fn stage(&self) -> (r: Stage)
        ensures
            r == self@.stage,
    {
        self.stage
    }

    /// Take the outcome of the awaited operation.
    pub fn advance(self, ok: bool) -> (r: ConnectStep)
        requires
            self@.wf(),
        ensures
            r@ == self@.advance(ok),
            r matches ConnectStep::Connected { controller } ==> controller@.wf(),
            r matches ConnectStep::Next { connecting } ==> connecting@.wf(),
    {
        let Connecting { port, mode, voltage_mv, max_voltage_mv, stage } = self;
        if !ok {
            let error = match stage {
                Stage::Open => ControllerError::OpenFailed { port },
                Stage::PowerOff => ControllerError::PowerOffFailed,
                Stage::Voltage => ControllerError::InitialVoltageFailed,
            };
            return ConnectStep::Failed { error };
        }
        match stage {
            Stage::Open => ConnectStep::Next {
                connecting: Connecting {
                    port,
                    mode,
                    voltage_mv,
                    max_voltage_mv,
                    stage: Stage::PowerOff,
                },
            },
            Stage::PowerOff => ConnectStep::Next {
                connecting: Connecting {
                    port,
                    mode,
                    voltage_mv,
                    max_voltage_mv,
                    stage: Stage::Voltage,
                },
            },
            Stage::Voltage => ConnectStep::Connected {
                controller: Ppk2Controller {
                    state: State::Idle,
                    port,
                    mode,
                    voltage_mv,
                    dut_power: false,
                    max_voltage_mv,
                    last_samples: None,
                    last_stats: None,
                },
            },
        }
    }
}

impl Ppk2Controller {
    /// Begin to open the device on `port`. `max_voltage_mv` is the operator safety
    /// ceiling: `voltage_mv` (and any later change) above it is rejected.
    ///
    /// The requested voltage is validated *before* the device is touched, and DUT
    /// power is forced off on the hardware right after opening, so a device left
    /// powered by a previous session cannot keep driving the DUT. If that cannot be
    /// confirmed, connecting fails.
    pub fn connect(port: &str, mode: MeasurementMode, voltage_mv: u16, max_voltage_mv: u16) -> (r:
        Result<Connecting, ControllerError>)
        ensures
            match crate::voltage::voltage_check(voltage_mv, max_voltage_mv) {
                Err(e) => r == Err::<Connecting, ControllerError>(e),
                Ok(_) => r matches Ok(c) && c@ == (ConnectingView {
                    port: port@,
                    mode,
                    voltage_mv,
                    max_voltage_mv,
                    stage: Stage::Open,
                }) && c@.wf(),
            },
    {
        match validate_voltage(voltage_mv, max_voltage_mv) {
            Err(e) => Err(e),
            Ok(()) => Ok(
                Connecting {
                    port: port.to_owned(),
                    mode,
                    voltage_mv,
                    max_voltage_mv,
                    stage: Stage::Open,
                },
            ),
        }
    }

    /// Leave the idle state for a write to the device. The controller counts as broken
    /// until the outcome is known, so a failed write is detected instead of leaving a
    /// live-looking but dead connection. During a measurement the write is refused with
    /// `busy`.
    fn take_idle_for_write(&mut self, operation: Operation, busy: ControllerError) -> (r: Result<
        (),
        ControllerError,
    >)
        ensures
            match old(self)@.state {
                State::Idle => r is Ok && final(self)@ == (ControllerView {
                    state: State::Busy { operation },
                    ..old(self)@
                }),
                State::Measuring { .. } => r == Err::<(), ControllerError>(busy) && final(self)@
                    == old(self)@,
                _ => r == Err::<(), ControllerError>(ControllerError::BrokenWrite) && final(self)@
                    == old(self)@,
            },
    {
        match self.state {
            State::Idle => {
                self.state = State::Busy { operation };
                Ok(())
            },
            State::Measuring { .. } => Err(busy),
            _ => Err(ControllerError::BrokenWrite),
        }
    }

    /// Ask for the source voltage (mV). Only valid while idle. Rejected (not clamped)
    /// if out of the PPK2 range or above the configured safety ceiling. The voltage
    /// returned is to be written to the device, and the outcome reported to
    /// [`Ppk2Controller::source_voltage_written`].
    pub fn set_source_voltage(&mut self, mv: u16) -> (r: Result<u16, ControllerError>)
        requires
            old(self)@.wf(),
        ensures
            (final(self)@, r) == old(self)@.set_voltage(mv),
            final(self)@.wf(),
    {
        match validate_voltage(mv, self.max_voltage_mv) {
            Err(e) => return Err(e),
            Ok(()) => {},
        }
        match self.take_idle_for_write(
            Operation::SetVoltage { mv },
            ControllerError::MeasuringVoltage,
        ) {
            Ok(()) => Ok(mv),
            Err(e) => Err(e),
        }
    }

    /// Take the outcome of writing the source voltage. A failure leaves the
    /// controller broken.
    pub fn source_voltage_written(&mut self, ok: bool) -> (r: Result<(), ControllerError>)
        requires
            old(self)@.wf(),
            old(self)@.awaits_voltage(),
        ensures
            (final(self)@, r) == old(self)@.voltage_written(ok),
            final(self)@.wf(),
    {
        if !ok {
            self.state = State::Broken;
            return Err(ControllerError::VoltageWriteFailed);
        }
        if let State::Busy { operation: Operation::SetVoltage { mv } } = self.state {
            self.voltage_mv = mv;
        }
        self.state = State::Idle;
        Ok(())
    }

    /// Ask for DUT power on or off. Only valid while idle. The state returned is to be
    /// written to the device, and the outcome reported to
    /// [`Ppk2Controller::dut_power_written`].
    pub fn set_dut_power(&mut self, on: bool) -> (r: Result<bool, ControllerError>)
        requires
            old(self)@.wf(),
        ensures
            (final(self)@, r) == old(self)@.set_power(on),
            final(self)@.wf(),
    {
        match self.take_idle_for_write(
            Operation::SetPower { on },
            ControllerError::MeasuringPower,
        ) {
            Ok(()) => Ok(on),
            Err(e) => Err(e),
        }
    }

    /// Take the outcome of writing the DUT power state. A failure leaves the
    /// controller broken — critically, if disabling power fails, the real DUT power
    /// state becomes unknown (see [`Status::dut_power`]).
    pub fn dut_power_written(&mut self, ok: bool) -> (r: Result<(), ControllerError>)
        requires
            old(self)@.wf(),
            old(self)@.awaits_power(),
        ensures
            (final(self)@, r) == old(self)@.power_written(ok),
            final(self)@.wf(),
    {
        if !ok {
            self.state = State::Broken;
            return Err(ControllerError::PowerWriteFailed);
        }
        if let State::Busy { operation: Operation::SetPower { on } } = self.state {
            self.dut_power = on;
        }
        self.state = State::Idle;
        Ok(())
    }

    fn begin(&mut self, sps: usize, retention: Retention, trigger: Option<[Level; 8]>) -> (r:
        Result<StartPlan, ControllerError>)
        requires
            old(self)@.wf(),
        ensures
            (final(self)@, r) == old(self)@.start(sps, retention, trigger),
            final(self)@.wf(),
    {
        if sps == 0 || sps > SPS_MAX {
            return Err(ControllerError::SampleRate);
        }
        match self.state {
            State::Idle => {
                let cap: usize = retention.capacity(sps);
                let session = Session { sps, cap, trigger };
                self.state = State::Busy { operation: Operation::Start { session } };
                let pins: [Level; 8] = match trigger {
                    Some(levels) => levels,
                    None => [Level::Either; 8],
                };
                assert(pins =~= trigger_pins(trigger));
                Ok(StartPlan { pins, sps, retention, cap })
            },
            State::Measuring { .. } => Err(ControllerError::AlreadyMeasuring),
            _ => Err(ControllerError::BrokenStart),
        }
    }

    /// Ask for a background measurement session at the given samples-per-second and
    /// retention window (seconds of samples kept in the rolling buffer). When
    /// `trigger` is set, only aggregated windows whose digital pins match the
    /// pattern are recorded (High/Low require that level; Either is a wildcard). The
    /// plan returned is to be carried out, and the outcome reported to
    /// [`Ppk2Controller::started`].
    pub fn start(&mut self, sps: usize, retention_secs: Double, trigger: Option<[Level; 8]>) -> (r:
        Result<StartPlan, ControllerError>)
        requires
            old(self)@.wf(),
        ensures
            (final(self)@, r) == old(self)@.start(
                sps,
                Retention::Window { seconds: retention_secs },
                trigger,
            ),
            final(self)@.wf(),
    {
        self.begin(sps, Retention::Window { seconds: retention_secs }, trigger)
    }

    /// Ask for a capture of `duration` seconds: a session that is started as by
    /// [`Ppk2Controller::start`], left running for that long and then stopped. It
    /// retains the full capture window, so that no samples are dropped.
    pub fn measure(&mut self, duration: Double, sps: usize, trigger: Option<[Level; 8]>) -> (r:
        Result<StartPlan, ControllerError>)
        requires
            old(self)@.wf(),
        ensures
            (final(self)@, r) == old(self)@.start(
                sps,
                Retention::Capture { seconds: duration },
                trigger,
            ),
            final(self)@.wf(),
    {
        self.begin(sps, Retention::Capture { seconds: duration }, trigger)
    }

    /// Take the outcome of starting the measurement. A failure leaves the controller
    /// broken.
    pub fn started(&mut self, ok: bool) -> (r: Result<(), ControllerError>)
        requires
            old(self)@.wf(),
            old(self)@.awaits_start(),
        ensures
            (final(self)@, r) == old(self)@.started(ok),
            final(self)@.wf(),
    {
        if !ok {
            self.state = State::Broken;
            return Err(ControllerError::StartFailed);
        }
        if let State::Busy { operation: Operation::Start { session } } = self.state {
            self.state = State::Measuring { session };
        }
        Ok(())
    }

    /// Ask for the end of the current session. The device worker is to be stopped, then
    /// the drain thread, and the outcome reported to [`Ppk2Controller::stopped`].
    pub fn stop(&mut self) -> (r: Result<(), ControllerError>)
        requires
            old(self)@.wf(),
        ensures
            (final(self)@, r) == old(self)@.stop(),
            final(self)@.wf(),
    {
        match self.state {
            State::Measuring { session } => {
                self.state = State::Busy { operation: Operation::Stop { session } };
                Ok(())
            },
            _ => Err(ControllerError::NotMeasuring),
        }
    }

    /// Take the outcome of stopping the device worker, and the session as the drain
    /// thread left it. Its statistics and its retained samples replace those of the
    /// session before. A failure leaves the controller broken, and keeps those.
    pub fn stopped(&mut self, ok: bool, shared: &Shared) -> (r: Result<Stats, ControllerError>)
        requires
            old(self)@.wf(),
            old(self)@.awaits_stop(),
            shared.wf(),
            old(self)@.owns(shared@),
        ensures
            (final(self)@, r) == old(self)@.stopped(ok, shared@),
            final(self)@.wf(),
    {
        if !ok {
            self.state = State::Broken;
            return Err(ControllerError::StopFailed);
        }
        let stats = shared.stats();
        self.last_samples = Some((shared.sps(), shared.samples()));
        self.last_stats = Some(stats);
        self.state = State::Idle;
        Ok(stats)
    }

    /// The source voltage (mV) last set.
    pub fn voltage_mv(&self) -> (r: u16)
        ensures
            r == self@.voltage_mv,
    {
        self.voltage_mv
    }

    /// The DUT power state last set.
    pub fn dut_power(&self) -> (r: bool)
        ensures
            r == self@.dut_power,
    {
        self.dut_power
    }

    /// Whether a session is running.
    pub fn is_measuring(&self) -> (r: bool)
        ensures
            r == (self@.state is Measuring),
    {
        match self.state {
            State::Measuring { .. } => true,
            _ => false,
        }
    }

    /// Whether `shared` has the rate and the capacity of the session that is running,
    /// or being stopped.
    pub fn owns(&self, shared: &Shared) -> (r: bool)
        ensures
            r == self@.owns(shared@),
    {
        match self.state {
            State::Measuring { session }
            | State::Busy { operation: Operation::Stop { session } } => shared.sps() == session.sps
                && shared.cap() == session.cap,
            _ => true,
        }
    }

    /// Current statistics: of the live session if measuring, else the last session's.
    /// `live` is the live session.
    pub fn stats(&self, live: Option<&Shared>) -> (r: Option<Stats>)
        requires
            self@.state is Measuring ==> live is Some,
            live matches Some(shared) ==> shared.wf() && self@.owns(shared@),
        ensures
            r == (match (self@.state, live) {
                (State::Measuring { .. }, Some(shared)) => Some(crate::samples::stats_of(shared@)),
                (_, _) => self@.last_stats,
            }),
    {
        match self.state {
            State::Measuring { .. } => match live {
                Some(shared) => Some(shared.stats()),
                None => None,
            },
            _ => self.last_stats,
        }
    }

    /// The samples to write to CSV, and their rate: those of the live buffer if
    /// measuring, otherwise the most recent session's retained window. `live` is the
    /// live session.
    pub fn export_csv(&self, live: Option<&Shared>) -> (r: Result<
        (usize, Vec<Sample>),
        ControllerError,
    >)
        requires
            self@.state is Measuring ==> live is Some,
            live matches Some(shared) ==> shared.wf() && self@.owns(shared@),
        ensures
            match self@.export(
                match live {
                    Some(shared) => Some(shared@),
                    None => None,
                },
            ) {
                Some((sps, samples)) => r matches Ok((rate, v)) && rate == sps && v@ == samples,
                None => r == Err::<(usize, Vec<Sample>), ControllerError>(
                    ControllerError::NoSamples,
                ),
            },
    {
        match self.state {
            State::Measuring { .. } => match live {
                Some(shared) => Ok((shared.sps(), shared.samples())),
                None => Err(ControllerError::NoSamples),
            },
            _ => match &self.last_samples {
                Some((sps, samples)) => Ok((*sps, copy_samples(samples))),
                None => Err(ControllerError::NoSamples),
            },
        }
    }

    /// Snapshot of controller status. `live` is the live session with the seconds that
    /// it has been running for.
    pub fn status(&self, live: Option<(&Shared, Double)>) -> (r: Status)
        requires
            self@.state is Measuring ==> live is Some,
            live matches Some((shared, elapsed)) ==> shared.wf() && self@.owns(shared@),
        ensures
            r@ == self@.status(
                match live {
                    Some((shared, elapsed)) => Some((shared@, elapsed)),
                    None => None,
                },
            ),
    {
        let mut status = Status {
            port: self.port.clone(),
            connected: true,
            measuring: false,
            broken: false,
            mode: self.mode,
            voltage_mv: self.voltage_mv,
            max_voltage_mv: self.max_voltage_mv,
            dut_power: self.dut_power,
            sps: None,
            buffered_samples: None,
            elapsed_s: None,
            trigger: None,
        };
        match self.state {
            State::Idle => {},
            State::Measuring { session } => {
                status.measuring = true;
                status.sps = Some(session.sps);
                match live {
                    Some((shared, elapsed)) => {
                        status.buffered_samples = Some(shared.buffered());
                        status.elapsed_s = Some(elapsed);
                    },
                    None => {},
                }
                match session.trigger {
                    Some(levels) => {
                        status.trigger = Some(trigger_to_string(&levels));
                    },
                    None => {},
                }
            },
            State::Busy { .. } | State::Broken => {
                status.connected = false;
                status.broken = true;
            },
        }
        status
    }
}

impl ControllerView {
    /// The status of the controller. What only a session has comes from the session,
    /// and from the live one with the seconds that it has been running for.
    pub open spec fn status(
        self,
        live: Option<(crate::samples::SharedView, Double)>,
    ) -> StatusView {
        let session = match self.state {
            State::Measuring { session } => Some(session),
            _ => None,
        };
        StatusView {
            port: self.port,
            connected: !self.is_broken(),
            measuring: session is Some,
            broken: self.is_broken(),
            mode: self.mode,
            voltage_mv: self.voltage_mv,
            max_voltage_mv: self.max_voltage_mv,
            dut_power: self.dut_power,
            sps: match session {
                Some(s) => Some(s.sps),
                None => None,
            },
            buffered_samples: match (session, live) {
                (Some(_), Some((shared, _))) => Some(
                    crate::samples::window(shared.history, shared.cap).len(),
                ),
                (_, _) => None,
            },
            elapsed_s: match (session, live) {
                (Some(_), Some((_, elapsed))) => Some(elapsed),
                (_, _) => None,
            },
            trigger: match session {
                Some(Session { trigger: Some(levels), .. }) => Some(
                    crate::trigger::pattern_of(levels@),
                ),
                _ => None,
            },
        }
    }

    /// The samples that an export writes, and their rate.
    pub open spec fn export(self, live: Option<crate::samples::SharedView>) -> Option<
        (usize, Seq<Sample>),
    > {
        match self.state {
            State::Measuring { .. } => match live {
                Some(s) => Some((s.sps, crate::samples::window(s.history, s.cap))),
                None => None,
            },
            _ => self.last_samples,
        }
    }
}

fn copy_samples(samples: &Vec<Sample>) -> (r: Vec<Sample>)
    ensures
        r@ == samples@,
{
    let mut r: Vec<Sample> = Vec::new();
    let mut i: usize = 0;
    while i < samples.len()
        invariant
            i <= samples@.len(),
            r@ == samples@.take(i as int),
        decreases samples@.len() - i,
    {
        r.push(samples[i]);
        assert(r@ =~= samples@.take(i + 1));
        i = i + 1;
    }
    assert(samples@.take(samples@.len() as int) =~= samples@);
    r
}

} // verus!
