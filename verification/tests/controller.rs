use mcp_nordic_ppk2::controller::{
    ConnectStep, Connecting, Ppk2Controller, Retention, Stage,
};
use mcp_nordic_ppk2::error::ControllerError;
use mcp_nordic_ppk2::ieee::{Double, Single};
use mcp_nordic_ppk2::mode::MeasurementMode;
use mcp_nordic_ppk2::samples::{Sample, Shared};
use mcp_nordic_ppk2::trigger::Level;

fn double(v: f64) -> Double {
    Double { bits: v.to_bits() }
}

fn single(v: f32) -> Single {
    Single { bits: v.to_bits() }
}

fn next(step: ConnectStep) -> Connecting {
    match step {
        ConnectStep::Next { connecting } => connecting,
        other => panic!("{other:?}"),
    }
}

fn failure(step: ConnectStep) -> String {
    match step {
        ConnectStep::Failed { error } => error.message(),
        other => panic!("{other:?}"),
    }
}

fn connecting() -> Connecting {
    Ppk2Controller::connect("/dev/ttyACM0", MeasurementMode::Source, 3300, 5000).unwrap()
}

fn connected() -> Ppk2Controller {
    let c = next(connecting().advance(true));
    match next(c.advance(true)).advance(true) {
        ConnectStep::Connected { controller } => controller,
        other => panic!("{other:?}"),
    }
}

fn session(cap: usize, currents: &[f32]) -> Shared {
    let mut s = Shared::new(1000, cap);
    for ua in currents {
        s.push(single(*ua), 1);
    }
    s
}

#[test]
fn connecting_opens_then_powers_off_then_sets_the_voltage() {
    let c = connecting();
    assert_eq!(c.stage(), Stage::Open);
    assert_eq!(c.port(), "/dev/ttyACM0");
    assert_eq!(c.mode(), MeasurementMode::Source);
    let c = next(c.advance(true));
    assert_eq!(c.stage(), Stage::PowerOff);
    let c = next(c.advance(true));
    assert_eq!(c.stage(), Stage::Voltage);
    assert_eq!(c.voltage_mv(), 3300);
    assert!(matches!(c.advance(true), ConnectStep::Connected { .. }));
}

#[test]
fn connecting_fails_closed() {
    assert_eq!(
        failure(connecting().advance(false)),
        "opening PPK2 on /dev/ttyACM0 (in use, missing permissions, or unplugged?)"
    );
    let c = next(connecting().advance(true));
    assert_eq!(failure(c.advance(false)), "forcing DUT power off on connect");
    let c = next(next(connecting().advance(true)).advance(true));
    assert_eq!(failure(c.advance(false)), "setting source voltage");
}

#[test]
fn connecting_checks_the_voltage_before_anything() {
    let refused = |mv, max| {
        Ppk2Controller::connect("p", MeasurementMode::Ampere, mv, max).unwrap_err()
    };
    assert!(matches!(refused(799, 5000), ControllerError::BelowMinimum { mv: 799 }));
    assert!(matches!(refused(33000, 5000), ControllerError::AboveHardwareMaximum { mv: 33000 }));
    assert!(matches!(
        refused(5000, 3300),
        ControllerError::AboveCeiling { mv: 5000, ceiling_mv: 3300 }
    ));
}

#[test]
fn status_of_a_new_controller() {
    let st = connected().status(None);
    assert_eq!(st.port, "/dev/ttyACM0");
    assert!(st.connected && !st.measuring && !st.broken && !st.dut_power);
    assert_eq!(st.mode, MeasurementMode::Source);
    assert_eq!((st.voltage_mv, st.max_voltage_mv), (3300, 5000));
    assert_eq!((st.sps, st.buffered_samples, st.elapsed_s), (None, None, None));
    assert_eq!(st.trigger, None);
}

#[test]
fn voltage_change_is_exact() {
    let mut c = connected();
    assert_eq!(c.set_source_voltage(1801).unwrap(), 1801);
    assert!(c.status(None).broken);
    c.source_voltage_written(true).unwrap();
    assert_eq!(c.voltage_mv(), 1801);
    assert!(!c.status(None).broken);
}

#[test]
fn voltage_refused_is_not_clamped() {
    let mut c = connected();
    assert!(c.set_source_voltage(5001).is_err());
    assert!(c.set_source_voltage(0).is_err());
    assert_eq!(c.voltage_mv(), 3300);
    assert!(c.status(None).connected);
}

#[test]
fn voltage_write_failure_breaks_the_controller() {
    let mut c = connected();
    c.set_source_voltage(1800).unwrap();
    assert_eq!(
        c.source_voltage_written(false).unwrap_err().message(),
        "setting source voltage (link lost)"
    );
    let st = c.status(None);
    assert!(st.broken && !st.connected);
    assert_eq!(st.voltage_mv, 3300);
}

#[test]
fn broken_controller_refuses_everything() {
    let mut c = connected();
    c.set_dut_power(false).unwrap();
    assert_eq!(
        c.dut_power_written(false).unwrap_err().message(),
        "setting DUT power (link lost)"
    );
    let broken = "controller is broken; reconnect (ppk2_connect)";
    assert_eq!(c.set_source_voltage(3300).unwrap_err().message(), broken);
    assert_eq!(c.set_dut_power(true).unwrap_err().message(), broken);
    assert_eq!(
        c.start(1000, double(1.0), None).unwrap_err().message(),
        "controller is broken; reconnect"
    );
    assert_eq!(c.stop().unwrap_err().message(), "not measuring");
    assert!(c.status(None).broken);
}

#[test]
fn power_change_is_reported() {
    let mut c = connected();
    assert!(c.set_dut_power(true).unwrap());
    assert!(!c.dut_power());
    c.dut_power_written(true).unwrap();
    assert!(c.dut_power());
    assert!(!c.set_dut_power(false).unwrap());
    c.dut_power_written(true).unwrap();
    assert!(!c.dut_power());
}

#[test]
fn rate_must_be_one_of_the_device() {
    let mut c = connected();
    for sps in [0, 100_001, usize::MAX] {
        assert_eq!(
            c.start(sps, double(1.0), None).unwrap_err().message(),
            "sps must be in 1..=100000"
        );
    }
    assert!(c.status(None).connected);
    assert!(c.start(100_000, double(1.0), None).is_ok());
    let mut c = connected();
    assert!(c.measure(double(1.0), 1, None).is_ok());
}

#[test]
fn start_hands_the_trigger_to_the_device() {
    let mut c = connected();
    let mut levels = [Level::Either; 8];
    levels[1] = Level::High;
    let plan = c.start(1000, double(2.5), Some(levels)).unwrap();
    assert_eq!(plan.pins, levels);
    assert_eq!((plan.sps, plan.cap), (1000, 2500));
    assert!(matches!(plan.retention, Retention::Window { seconds } if seconds == double(2.5)));
    c.started(true).unwrap();
    let live = session(2500, &[1.0, 2.0, 3.0]);
    let st = c.status(Some((&live, double(0.25))));
    assert!(st.measuring && st.connected && !st.broken);
    assert_eq!(st.sps, Some(1000));
    assert_eq!(st.buffered_samples, Some(3));
    assert_eq!(st.elapsed_s, Some(double(0.25)));
    assert_eq!(st.trigger.as_deref(), Some("X1XXXXXX"));
    let mut c = connected();
    assert_eq!(c.start(1000, double(2.5), None).unwrap().pins, [Level::Either; 8]);
}

#[test]
fn start_failure_breaks_the_controller() {
    let mut c = connected();
    c.start(1000, double(1.0), None).unwrap();
    assert_eq!(c.started(false).unwrap_err().message(), "start_measurement_matching");
    assert!(c.status(None).broken);
}

#[test]
fn measuring_controller_refuses_changes() {
    let mut c = connected();
    c.start(1000, double(1.0), None).unwrap();
    c.started(true).unwrap();
    assert!(c.is_measuring());
    assert_eq!(
        c.set_source_voltage(1800).unwrap_err().message(),
        "stop measuring before changing voltage"
    );
    assert_eq!(
        c.set_dut_power(true).unwrap_err().message(),
        "stop measuring before toggling DUT power"
    );
    assert_eq!(c.start(1, double(1.0), None).unwrap_err().message(), "already measuring");
    assert!(c.is_measuring());
}

#[test]
fn session_leaves_its_statistics_and_samples() {
    let mut c = connected();
    assert!(c.stats(None).is_none());
    assert_eq!(c.export_csv(None).unwrap_err().message(), "no samples to export");
    assert_eq!(c.start(1000, double(0.002), None).unwrap().cap, 2);
    c.started(true).unwrap();
    let live = session(2, &[4.0, 1.0, 3.0]);
    assert!(c.owns(&live));
    assert!(!c.owns(&session(3, &[])));
    assert!(!c.owns(&Shared::new(999, 2)));
    let now = c.stats(Some(&live)).unwrap();
    assert_eq!((now.samples, now.mean_ua), (3, double(8.0 / 3.0)));
    let (sps, samples) = c.export_csv(Some(&live)).unwrap();
    assert_eq!((sps, samples.len()), (1000, 2));
    let st = c.status(Some((&live, double(0.003))));
    assert_eq!((st.sps, st.buffered_samples), (Some(sps), Some(samples.len())));
    c.stop().unwrap();
    let stats = c.stopped(true, &live).unwrap();
    assert_eq!((stats.samples, stats.mean_ua), (3, double(8.0 / 3.0)));
    assert_eq!((stats.min_ua, stats.max_ua), (double(1.0), double(4.0)));
    assert_eq!(c.stats(None).unwrap().mean_ua, double(8.0 / 3.0));
    let (sps, samples) = c.export_csv(None).unwrap();
    assert_eq!(sps, 1000);
    assert_eq!(
        samples,
        vec![Sample { ua: single(1.0), pins: 1 }, Sample { ua: single(3.0), pins: 1 }]
    );
    assert!(c.status(None).connected);
    assert_eq!(c.voltage_mv(), 3300);
}

#[test]
fn stop_failure_keeps_the_session_before() {
    let mut c = connected();
    for (ok, ua) in [(true, 1.0), (false, 2.0)] {
        c.start(1000, double(1.0), None).unwrap();
        c.started(true).unwrap();
        c.stop().unwrap();
        let r = c.stopped(ok, &session(1000, &[ua]));
        assert_eq!(r.is_ok(), ok);
        if let Err(e) = r {
            assert_eq!(e.message(), "stopping device worker");
        }
    }
    assert!(c.status(None).broken);
    assert_eq!(c.stats(None).unwrap().mean_ua, double(1.0));
}

#[test]
fn capture_keeps_every_sample() {
    let mut c = connected();
    let plan = c.measure(double(0.5), 10, None).unwrap();
    assert_eq!((plan.sps, plan.cap), (10, 15));
    assert!(matches!(plan.retention, Retention::Capture { seconds } if seconds == double(0.5)));
    c.started(true).unwrap();
    let mut live = Shared::new(plan.sps, plan.cap);
    for i in 0..15u8 {
        live.push(single(i as f32), i);
    }
    c.stop().unwrap();
    assert_eq!(c.stopped(true, &live).unwrap().samples, 15);
    let (sps, samples) = c.export_csv(None).unwrap();
    assert_eq!(sps, 10);
    let expected: Vec<Sample> =
        (0..15u8).map(|i| Sample { ua: single(i as f32), pins: i }).collect();
    assert_eq!(samples, expected);
    assert_eq!(c.export_csv(None).unwrap().1, expected);
}

#[test]
fn session_retains_the_last_samples() {
    let mut c = connected();
    let plan = c.start(10, double(0.25), None).unwrap();
    assert_eq!(plan.cap, 3);
    c.started(true).unwrap();
    let mut live = Shared::new(plan.sps, plan.cap);
    for i in 0..9u8 {
        live.push(single(0.0), i);
    }
    c.stop().unwrap();
    assert_eq!(c.stopped(true, &live).unwrap().samples, 9);
    let (_, samples) = c.export_csv(None).unwrap();
    assert_eq!(samples.iter().map(|s| s.pins).collect::<Vec<u8>>(), vec![6, 7, 8]);
}
