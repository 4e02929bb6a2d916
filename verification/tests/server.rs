use mcp_nordic_ppk2::controller::Retention;
use mcp_nordic_ppk2::ieee::{Double, Single};
use mcp_nordic_ppk2::mode::MeasurementMode;
use mcp_nordic_ppk2::report::{format_stats, Figures};
use mcp_nordic_ppk2::samples::{Shared, Stats};
use mcp_nordic_ppk2::server::{
    duration_allowed, Action, ConfigureArgs, ConnectArgs, Event, ExportArgs, Heading, MeasureArgs,
    Ppk2Server, Reply, StartArgs, Step,
};
use mcp_nordic_ppk2::trigger::Level;

fn double(v: f64) -> Double {
    Double { bits: v.to_bits() }
}

/// Two samples at the default rate, in the default window.
fn session() -> Shared {
    session_in(10_000, 600_000)
}

fn session_in(sps: usize, cap: usize) -> Shared {
    let mut s = Shared::new(sps, cap);
    for ua in [1.0f32, 3.0] {
        s.push(Single { bits: ua.to_bits() }, 0b10);
    }
    s
}

fn action(step: Step) -> Action {
    match step {
        Step::Perform { action } => action,
        other => panic!("{other:?}"),
    }
}

fn text(step: Step) -> String {
    match step {
        Step::Answer { result: Ok(Reply::Text { text }) } => text,
        other => panic!("{other:?}"),
    }
}

fn report(step: Step) -> (Heading, Stats) {
    match step {
        Step::Answer { result: Ok(Reply::Report { heading, stats }) } => (heading, stats),
        other => panic!("{other:?}"),
    }
}

fn error(step: Step) -> String {
    match step {
        Step::Answer { result: Err(e) } => e.message(),
        other => panic!("{other:?}"),
    }
}

fn connect_args(port: Option<&str>, mode: Option<&str>, voltage_mv: Option<u16>) -> ConnectArgs {
    ConnectArgs {
        port: port.map(|s| s.to_string()),
        mode: mode.map(|s| s.to_string()),
        voltage_mv,
    }
}

fn connected(max: u16) -> Ppk2Server {
    let mut s = Ppk2Server::new(max);
    action(s.ppk2_connect(connect_args(None, None, None)));
    action(s.resume(Event::Done { ok: true }));
    action(s.resume(Event::Done { ok: true }));
    text(s.resume(Event::Done { ok: true }));
    s
}

fn start_args(trigger: Option<&str>) -> StartArgs {
    StartArgs { sps: None, retention_s: None, trigger: trigger.map(|s| s.to_string()) }
}

fn measuring(trigger: Option<&str>) -> Ppk2Server {
    let mut s = connected(3300);
    action(s.ppk2_start(start_args(trigger)));
    text(s.resume(Event::Started { ok: true, retention: "60".to_string() }));
    s
}

fn configure(voltage_mv: Option<u16>, dut_power: Option<bool>) -> ConfigureArgs {
    ConfigureArgs { voltage_mv, dut_power }
}

fn status(s: &Ppk2Server) -> String {
    s.ppk2_status(None, "")
}

#[test]
fn connect_uses_its_defaults() {
    let mut s = Ppk2Server::new(3300);
    match action(s.ppk2_connect(connect_args(None, None, None))) {
        Action::Open { port, mode } => {
            assert_eq!(port, "/dev/ttyACM0");
            assert_eq!(mode, MeasurementMode::Source);
        }
        other => panic!("{other:?}"),
    }
    assert!(matches!(
        action(s.resume(Event::Done { ok: true })),
        Action::SetDevicePower { on: false }
    ));
    assert!(matches!(
        action(s.resume(Event::Done { ok: true })),
        Action::SetSourceVoltage { mv: 3300 }
    ));
    assert_eq!(
        text(s.resume(Event::Done { ok: true })),
        "connected: port=/dev/ttyACM0 mode=Source voltage=3300mV dut_power=false"
    );
}

#[test]
fn connect_takes_its_arguments() {
    let mut s = Ppk2Server::new(5000);
    match action(s.ppk2_connect(connect_args(Some("COM3"), Some("Ampere"), Some(5000)))) {
        Action::Open { port, mode } => {
            assert_eq!(port, "COM3");
            assert_eq!(mode, MeasurementMode::Ampere);
        }
        other => panic!("{other:?}"),
    }
    action(s.resume(Event::Done { ok: true }));
    action(s.resume(Event::Done { ok: true }));
    assert_eq!(
        text(s.resume(Event::Done { ok: true })),
        "connected: port=COM3 mode=Ampere voltage=5000mV dut_power=false"
    );
}

#[test]
fn connect_refuses_before_it_opens() {
    let mut s = Ppk2Server::new(3300);
    assert_eq!(
        error(s.ppk2_connect(connect_args(None, Some("volt"), Some(1)))),
        "Error parsing: expected one of [ampere | amp | a | source | s], but got volt"
    );
    assert_eq!(
        error(s.ppk2_connect(connect_args(None, None, Some(5000)))),
        "voltage 5000 mV exceeds the configured safety ceiling of 3300 mV \
         (raise it with --max-voltage-mv or PPK2_MAX_VOLTAGE_MV)"
    );
    assert_eq!(status(&s), "not connected");
}

#[test]
fn connect_failure_keeps_the_connection_before() {
    let mut s = connected(3300);
    action(s.ppk2_connect(connect_args(Some("COM9"), None, None)));
    assert_eq!(
        error(s.resume(Event::Done { ok: false })),
        "opening PPK2 on COM9 (in use, missing permissions, or unplugged?)"
    );
    assert!(status(&s).starts_with("port=/dev/ttyACM0 connected=true"));
}

#[test]
fn ceiling_of_a_default_server_is_the_hardware_maximum() {
    let mut s = Ppk2Server::default();
    action(s.ppk2_connect(connect_args(None, None, Some(5000))));
    let mut s = Ppk2Server::default();
    error(s.ppk2_connect(connect_args(None, None, Some(5001))));
}

#[test]
fn configure_sets_the_voltage_then_the_power() {
    let mut s = connected(3300);
    assert!(matches!(
        action(s.ppk2_configure(configure(Some(1800), Some(true)))),
        Action::SetSourceVoltage { mv: 1800 }
    ));
    assert!(matches!(
        action(s.resume(Event::Done { ok: true })),
        Action::SetDevicePower { on: true }
    ));
    assert_eq!(
        text(s.resume(Event::Done { ok: true })),
        "configured: voltage=1800mV dut_power=true"
    );
    assert!(matches!(
        action(s.ppk2_configure(configure(None, Some(false)))),
        Action::SetDevicePower { on: false }
    ));
    assert_eq!(
        text(s.resume(Event::Done { ok: true })),
        "configured: voltage=1800mV dut_power=false"
    );
}

#[test]
fn configure_stops_at_a_failed_write() {
    let mut s = connected(3300);
    action(s.ppk2_configure(configure(Some(1800), Some(true))));
    assert_eq!(error(s.resume(Event::Done { ok: false })), "setting source voltage (link lost)");
    assert_eq!(
        status(&s),
        "port=/dev/ttyACM0 connected=false measuring=false broken=true mode=Source \
         voltage=3300mV max_voltage=3300mV dut_power=false sps=None buffered=None \
         elapsed_s=None trigger=None"
    );
    assert_eq!(
        error(s.ppk2_configure(configure(None, Some(false)))),
        "controller is broken; reconnect (ppk2_connect)"
    );
}

#[test]
fn configure_of_nothing_reports() {
    let mut s = measuring(None);
    assert_eq!(
        text(s.ppk2_configure(configure(None, None))),
        "configured: voltage=3300mV dut_power=false"
    );
    assert!(s.is_measuring());
}

#[test]
fn configure_is_refused_while_measuring() {
    let mut s = measuring(None);
    assert_eq!(
        error(s.ppk2_configure(configure(Some(1800), None))),
        "stop measuring before changing voltage"
    );
    assert_eq!(
        error(s.ppk2_configure(configure(None, Some(true)))),
        "stop measuring before toggling DUT power"
    );
    assert_eq!(
        error(s.ppk2_configure(configure(Some(3301), None))),
        "voltage 3301 mV exceeds the configured safety ceiling of 3300 mV \
         (raise it with --max-voltage-mv or PPK2_MAX_VOLTAGE_MV)"
    );
}

#[test]
fn calls_without_a_connection_are_refused() {
    let not = "not connected — call ppk2_connect first";
    let mut s = Ppk2Server::new(3300);
    assert_eq!(error(s.ppk2_configure(configure(Some(0), None))), not);
    assert_eq!(error(s.ppk2_start(start_args(None))), not);
    assert_eq!(error(s.ppk2_stop()), not);
    assert_eq!(s.ppk2_stats(None).unwrap_err().message(), not);
    assert_eq!(error(s.ppk2_export_csv(ExportArgs { path: "x".to_string() }, None)), not);
    let args = MeasureArgs { duration_s: double(1.0), sps: None, trigger: None };
    assert_eq!(error(s.ppk2_measure(args, double(1.0))), not);
    assert!(!s.is_measuring());
}

#[test]
fn start_uses_its_defaults() {
    let mut s = connected(3300);
    match action(s.ppk2_start(start_args(None))) {
        Action::StartMeasurement { plan } => {
            assert_eq!((plan.sps, plan.cap), (10_000, 600_000));
            assert_eq!(plan.pins, [Level::Either; 8]);
            assert!(
                matches!(plan.retention, Retention::Window { seconds } if seconds == double(60.0))
            );
        }
        other => panic!("{other:?}"),
    }
    assert_eq!(
        text(s.resume(Event::Started { ok: true, retention: "60".to_string() })),
        "measuring @ 10000 sps (retention 60s)"
    );
}

#[test]
fn start_takes_its_arguments() {
    let mut s = connected(3300);
    let args = StartArgs {
        sps: Some(50),
        retention_s: Some(double(1.5)),
        trigger: Some("x1xxxxxx".to_string()),
    };
    match action(s.ppk2_start(args)) {
        Action::StartMeasurement { plan } => {
            assert_eq!((plan.sps, plan.cap), (50, 75));
            assert_eq!(plan.pins[1], Level::High);
            assert!(
                matches!(plan.retention, Retention::Window { seconds } if seconds == double(1.5))
            );
        }
        other => panic!("{other:?}"),
    }
    assert_eq!(
        text(s.resume(Event::Started { ok: true, retention: "1.5".to_string() })),
        "measuring @ 50 sps (retention 1.5s, trigger=x1xxxxxx)"
    );
    let live = session_in(50, 75);
    assert!(s.owns(&live));
    assert!(!s.owns(&session_in(50, 76)));
    assert!(!s.owns(&session_in(51, 75)));
    assert_eq!(
        s.ppk2_status(Some((&live, double(2.25))), "2.25"),
        "port=/dev/ttyACM0 connected=true measuring=true broken=false mode=Source \
         voltage=3300mV max_voltage=3300mV dut_power=false sps=Some(50) buffered=Some(2) \
         elapsed_s=Some(2.25) trigger=Some(\"X1XXXXXX\")"
    );
}

#[test]
fn start_checks_the_trigger_first() {
    let mut s = Ppk2Server::new(3300);
    assert_eq!(
        error(s.ppk2_start(start_args(Some("101")))),
        "trigger must be exactly 8 characters (D0..D7), got 3"
    );
    let mut s = connected(3300);
    let args = StartArgs { sps: Some(0), retention_s: None, trigger: None };
    assert_eq!(error(s.ppk2_start(args)), "sps must be in 1..=100000");
    action(s.ppk2_start(start_args(None)));
    assert_eq!(
        error(s.resume(Event::Started { ok: false, retention: String::new() })),
        "start_measurement_matching"
    );
}

#[test]
fn measure_starts_waits_and_stops() {
    let mut s = connected(3300);
    let args = MeasureArgs { duration_s: double(5.0), sps: None, trigger: None };
    match action(s.ppk2_measure(args, double(5.0))) {
        Action::StartMeasurement { plan } => {
            assert_eq!((plan.sps, plan.cap), (10_000, 60_000));
            assert!(
                matches!(plan.retention, Retention::Capture { seconds } if seconds == double(5.0))
            );
        }
        other => panic!("{other:?}"),
    }
    let started = Event::Started { ok: true, retention: String::new() };
    assert!(matches!(
        action(s.resume(started)),
        Action::Wait { seconds } if seconds == double(5.0)
    ));
    assert!(matches!(action(s.resume(Event::Done { ok: true })), Action::StopDevice));
    assert!(matches!(action(s.resume(Event::Done { ok: true })), Action::StopDrain));
    let (heading, stats) =
        report(s.resume(Event::Drained { shared: session_in(10_000, 60_000) }));
    assert_eq!(heading.text(), "measurement complete");
    assert_eq!(stats.samples, 2);
    match s.ppk2_stats(None).unwrap() {
        Reply::Report { heading, stats } => {
            assert_eq!(heading.text(), "current stats");
            assert_eq!(stats.samples, 2);
        }
        other => panic!("{other:?}"),
    }
}

#[test]
fn measure_duration_must_be_in_range() {
    for d in [0.0, -0.0, -1.0, f64::NAN, 3600.0000001, f64::INFINITY, f64::NEG_INFINITY] {
        assert!(!duration_allowed(double(d)));
        let args = MeasureArgs {
            duration_s: double(d),
            sps: None,
            trigger: Some("bad".to_string()),
        };
        assert_eq!(
            error(Ppk2Server::new(3300).ppk2_measure(args, double(1.0))),
            "duration_s must be in (0, 3600]"
        );
    }
    for d in [3600.0, 0.001, f64::MIN_POSITIVE, f64::from_bits(1), 1.0] {
        assert!(duration_allowed(double(d)));
    }
    let args = MeasureArgs {
        duration_s: double(1.0),
        sps: None,
        trigger: Some("1010101?".to_string()),
    };
    assert_eq!(
        error(Ppk2Server::new(3300).ppk2_measure(args, double(1.0))),
        "invalid trigger char '?' at position 7 (use 1/0/X)"
    );
}

#[test]
fn measure_is_refused_while_measuring() {
    let mut s = measuring(None);
    let args = MeasureArgs { duration_s: double(1.0), sps: None, trigger: None };
    assert_eq!(error(s.ppk2_measure(args, double(1.0))), "already measuring");
    assert!(s.is_measuring());
}

#[test]
fn stop_takes_the_device_before_the_drain() {
    let mut s = measuring(None);
    assert!(matches!(action(s.ppk2_stop()), Action::StopDevice));
    assert!(matches!(action(s.resume(Event::Done { ok: true })), Action::StopDrain));
    let (heading, stats) =
        report(s.resume(Event::Drained { shared: session() }));
    assert_eq!(heading.text(), "session stopped");
    assert_eq!(stats.min_ua, double(1.0));
    assert_eq!(error(s.ppk2_stop()), "not measuring");
}

#[test]
fn stop_failure_still_takes_the_drain() {
    let mut s = measuring(None);
    action(s.ppk2_stop());
    assert!(matches!(action(s.resume(Event::Done { ok: false })), Action::StopDrain));
    assert_eq!(
        error(s.resume(Event::Drained { shared: session() })),
        "stopping device worker"
    );
    assert!(status(&s).contains("broken=true"));
    // A new connection helps.
    action(s.ppk2_connect(connect_args(None, None, None)));
    action(s.resume(Event::Done { ok: true }));
    action(s.resume(Event::Done { ok: true }));
    text(s.resume(Event::Done { ok: true }));
    assert!(status(&s).contains("broken=false"));
}

#[test]
fn stats_before_any_session() {
    let s = connected(3300);
    assert!(matches!(
        s.ppk2_stats(None).unwrap(),
        Reply::Text { text } if text == "no statistics yet — start or run a measurement first"
    ));
}

#[test]
fn stats_of_the_live_session() {
    let s = measuring(None);
    let live = session();
    match s.ppk2_stats(Some(&live)).unwrap() {
        Reply::Report { heading: Heading::CurrentStats, stats } => {
            assert_eq!(stats.samples, 2);
            assert_eq!(stats.mean_ua, double(2.0));
        }
        other => panic!("{other:?}"),
    }
}

#[test]
fn export_writes_the_retained_samples() {
    let mut s = connected(3300);
    let path = || ExportArgs { path: "/tmp/x.csv".to_string() };
    assert_eq!(error(s.ppk2_export_csv(path(), None)), "no samples to export");
    let mut s = measuring(None);
    let live = session();
    match action(s.ppk2_export_csv(path(), Some(&live))) {
        Action::WriteCsv { path, sps, samples } => {
            assert_eq!(path, "/tmp/x.csv");
            assert_eq!(sps, 10_000);
            assert_eq!(samples.len(), 2);
        }
        other => panic!("{other:?}"),
    }
    assert_eq!(text(s.resume(Event::Written)), "wrote 2 samples to /tmp/x.csv");
    action(s.ppk2_export_csv(path(), Some(&live)));
    assert_eq!(error(s.resume(Event::NotCreated)), "creating /tmp/x.csv");
    action(s.ppk2_export_csv(path(), Some(&live)));
    assert_eq!(
        error(s.resume(Event::NotWritten { text: "disk full".to_string() })),
        "disk full"
    );
}

#[test]
fn export_repeats() {
    let mut s = measuring(None);
    action(s.ppk2_stop());
    action(s.resume(Event::Done { ok: true }));
    report(s.resume(Event::Drained { shared: session() }));
    let mut exports = vec![];
    for event in [Event::Written, Event::NotCreated, Event::Written] {
        match action(s.ppk2_export_csv(ExportArgs { path: "a".to_string() }, None)) {
            Action::WriteCsv { sps, samples, .. } => exports.push((sps, samples)),
            other => panic!("{other:?}"),
        }
        s.resume(event);
    }
    assert_eq!(exports[0].0, 10_000);
    assert_eq!(exports[0].1.len(), 2);
    assert_eq!(exports[0], exports[1]);
    assert_eq!(exports[0], exports[2]);
}

#[test]
fn capture_counts_the_duration_of_the_clock() {
    let mut s = connected(3300);
    let args = MeasureArgs { duration_s: double(0.4999999999), sps: Some(2), trigger: None };
    match action(s.ppk2_measure(args, double(0.5))) {
        Action::StartMeasurement { plan } => assert_eq!((plan.sps, plan.cap), (2, 3)),
        other => panic!("{other:?}"),
    }
}

#[test]
fn stats_report_layout() {
    let cell = |s: &str| s.to_string();
    let figures = Figures {
        duration_s: cell("0.500"),
        mean_ua: cell("2.000"),
        avg_ma: cell("0.0020"),
        min_ua: cell("1.000"),
        max_ua: cell("3.000"),
        stddev_ua: cell("1.000"),
        charge_uc: cell("1.000"),
        charge_mah: cell("0.000000"),
        pin_duty: (0..8).map(|i| (i * 10).to_string()).collect(),
        json: cell("{}"),
    };
    assert_eq!(
        format_stats("session stopped", 12345, &figures),
        "session stopped\n\
         samples:   12345\n\
         duration:  0.500 s\n\
         mean:      2.000 µA (0.0020 mA)\n\
         min/max:   1.000 / 3.000 µA\n\
         stddev:    1.000 µA\n\
         charge:    1.000 µC (0.000000 mAh)\n\
         pin duty:  D0=0% D1=10% D2=20% D3=30% D4=40% D5=50% D6=60% D7=70%\n\
         json: {}"
    );
}

#[test]
fn no_voltage_above_the_ceiling_is_ever_set() {
    let mut s = connected(3300);
    for mv in 0..=u16::MAX {
        match s.ppk2_configure(configure(Some(mv), None)) {
            Step::Perform { action: Action::SetSourceVoltage { mv: set } } => {
                assert_eq!(set, mv);
                assert!((800..=3300).contains(&mv));
                text(s.resume(Event::Done { ok: true }));
            }
            step => {
                assert!(!(800..=3300).contains(&mv));
                error(step);
            }
        }
        if let Step::Perform { .. } =
            Ppk2Server::new(3300).ppk2_connect(connect_args(None, None, Some(mv)))
        {
            assert!((800..=3300).contains(&mv));
        }
    }
}

#[test]
fn power_is_only_applied_on_request() {
    let mut s = connected(3300);
    let mut actions = vec![];
    actions.push(action(s.ppk2_configure(configure(Some(1800), None))));
    text(s.resume(Event::Done { ok: true }));
    actions.push(action(s.ppk2_start(start_args(None))));
    text(s.resume(Event::Started { ok: true, retention: "60".to_string() }));
    actions.push(action(s.ppk2_stop()));
    actions.push(action(s.resume(Event::Done { ok: true })));
    report(s.resume(Event::Drained { shared: session() }));
    actions.push(action(s.ppk2_connect(connect_args(None, None, None))));
    actions.push(action(s.resume(Event::Done { ok: true })));
    actions.push(action(s.resume(Event::Done { ok: true })));
    text(s.resume(Event::Done { ok: true }));
    assert!(!actions.iter().any(|a| matches!(a, Action::SetDevicePower { on: true })));
    assert!(status(&s).contains("dut_power=false"));
}

#[test]
fn connecting_again_cuts_the_power() {
    let mut s = connected(3300);
    action(s.ppk2_configure(configure(None, Some(true))));
    text(s.resume(Event::Done { ok: true }));
    assert!(status(&s).contains("dut_power=true"));
    action(s.ppk2_connect(connect_args(None, None, None)));
    assert!(matches!(
        action(s.resume(Event::Done { ok: true })),
        Action::SetDevicePower { on: false }
    ));
    action(s.resume(Event::Done { ok: true }));
    text(s.resume(Event::Done { ok: true }));
    assert!(status(&s).contains("dut_power=false"));
}

#[test]
fn broken_server_waits_for_a_connection() {
    let mut s = connected(3300);
    action(s.ppk2_configure(configure(None, Some(true))));
    assert_eq!(error(s.resume(Event::Done { ok: false })), "setting DUT power (link lost)");
    error(s.ppk2_configure(configure(Some(1800), None)));
    error(s.ppk2_start(start_args(None)));
    let args = MeasureArgs { duration_s: double(1.0), sps: None, trigger: None };
    assert_eq!(error(s.ppk2_measure(args, double(1.0))), "controller is broken; reconnect");
    error(s.ppk2_stop());
    assert!(status(&s).contains("broken=true"));
}
