//! The texts in which results are reported.

use vstd::prelude::*;

use crate::controller::{Status, StatusView};
use crate::mode::MeasurementMode;
use crate::text::decimal_string;

verus! {

/// `true` or `false`.
pub open spec fn flag(b: bool) -> Seq<char> {
    if b {
        "true"@
    } else {
        "false"@
    }
}

fn flag_str(b: bool) -> (r: &'static str)
    ensures
        r@ == flag(b),
{
    if b {
        "true"
    } else {
        "false"
    }
}

/// An optional number: `Some(n)` or `None`.
pub open spec fn optional_number(n: Option<nat>) -> Seq<char> {
    match n {
        Some(n) => "Some("@ + crate::text::decimal(n) + ")"@,
        None => "None"@,
    }
}

fn append_optional_number(s: &mut String, n: Option<usize>)
    ensures
        final(s)@ == old(s)@ + optional_number(
            match n {
                Some(n) => Some(n as nat),
                None => None,
            },
        ),
{
    match n {
        Some(n) => {
            s.append("Some(");
            s.append(decimal_string(n as u64).as_str());
            s.append(")");
            assert(s@ =~= old(s)@ + optional_number(Some(n as nat)));
        },
        None => {
            s.append("None");
        },
    }
}

/// The report of a new connection.
pub open spec fn connected_text(
    port: Seq<char>,
    mode: MeasurementMode,
    voltage_mv: u16,
    dut_power: bool,
) -> Seq<char> {
    "connected: port="@ + port + " mode="@ + mode.label() + " voltage="@ + crate::text::decimal(
        voltage_mv as nat,
    ) + "mV dut_power="@ + flag(dut_power)
}

/// The report of a new connection.
pub fn connected_string(status: &Status) -> (r: String)
    ensures
        r@ == connected_text(status.port@, status.mode, status.voltage_mv, status.dut_power),
{
    let mut s = "connected: port=".to_owned();
    s.append(status.port.as_str());
    s.append(" mode=");
    s.append(status.mode.name().as_str());
    s.append(" voltage=");
    s.append(decimal_string(status.voltage_mv as u64).as_str());
    s.append("mV dut_power=");
    s.append(flag_str(status.dut_power));
    s
}

/// The report of a new configuration.
pub open spec fn configured_text(voltage_mv: u16, dut_power: bool) -> Seq<char> {
    "configured: voltage="@ + crate::text::decimal(voltage_mv as nat) + "mV dut_power="@ + flag(
        dut_power,
    )
}

/// The report of a new configuration.
pub fn configured_string(voltage_mv: u16, dut_power: bool) -> (r: String)
    ensures
        r@ == configured_text(voltage_mv, dut_power),
{
    let mut s = "configured: voltage=".to_owned();
    s.append(decimal_string(voltage_mv as u64).as_str());
    s.append("mV dut_power=");
    s.append(flag_str(dut_power));
    s
}

/// The report of a session that was started. `retention` is the retention window in
/// seconds, as text, and `trigger` the pattern as it was asked for.
pub open spec fn started_text(
    sps: usize,
    retention: Seq<char>,
    trigger: Option<Seq<char>>,
) -> Seq<char> {
    "measuring @ "@ + crate::text::decimal(sps as nat) + " sps (retention "@ + retention + "s"@ + (
    match trigger {
        Some(pattern) => ", trigger="@ + pattern,
        None => Seq::empty(),
    }) + ")"@
}

/// The report of a session that was started.
pub fn started_string(sps: usize, retention: &str, trigger: &Option<String>) -> (r: String)
    ensures
        r@ == started_text(
            sps,
            retention@,
            match trigger {
                Some(pattern) => Some(pattern@),
                None => None,
            },
        ),
{
    let mut s = "measuring @ ".to_owned();
    s.append(decimal_string(sps as u64).as_str());
    s.append(" sps (retention ");
    s.append(retention);
    s.append("s");
    let mut t = String::new();
    match trigger {
        Some(pattern) => {
            t.append(", trigger=");
            t.append(pattern.as_str());
            assert(t@ =~= ", trigger="@ + pattern@);
        },
        None => {},
    }
    s.append(t.as_str());
    s.append(")");
    s
}

/// The report of an export.
pub open spec fn exported_text(n: nat, path: Seq<char>) -> Seq<char> {
    "wrote "@ + crate::text::decimal(n) + " samples to "@ + path
}

/// The report of an export.
pub fn exported_string(n: usize, path: &str) -> (r: String)
    ensures
        r@ == exported_text(n as nat, path@),
{
    let mut s = "wrote ".to_owned();
    s.append(decimal_string(n as u64).as_str());
    s.append(" samples to ");
    s.append(path);
    s
}

/// The report of a controller's status. `elapsed` is the number of seconds that the
/// session has been running for, as text.
pub open spec fn status_text(status: StatusView, elapsed: Seq<char>) -> Seq<char> {
    "port="@ + status.port + " connected="@ + flag(status.connected) + " measuring="@ + flag(
        status.measuring,
    ) + " broken="@ + flag(status.broken) + " mode="@ + status.mode.label() + " voltage="@
        + crate::text::decimal(status.voltage_mv as nat) + "mV max_voltage="@
        + crate::text::decimal(status.max_voltage_mv as nat) + "mV dut_power="@ + flag(
        status.dut_power,
    ) + " sps="@ + optional_number(
        match status.sps {
            Some(n) => Some(n as nat),
            None => None,
        },
    ) + " buffered="@ + optional_number(
        status.buffered_samples,
    ) + " elapsed_s="@ + (match status.elapsed_s {
        Some(_) => "Some("@ + elapsed + ")"@,
        None => "None"@,
    }) + " trigger="@ + (match status.trigger {
        Some(pattern) => "Some(\""@ + pattern + "\")"@,
        None => "None"@,
    })
}

/// The report of a controller's status.
pub fn status_string(status: &Status, elapsed: &str) -> (r: String)
    ensures
        r@ == status_text(status@, elapsed@),
{
    let mut s = "port=".to_owned();
    s.append(status.port.as_str());
    s.append(" connected=");
    s.append(flag_str(status.connected));
    s.append(" measuring=");
    s.append(flag_str(status.measuring));
    s.append(" broken=");
    s.append(flag_str(status.broken));
    s.append(" mode=");
    s.append(status.mode.name().as_str());
    s.append(" voltage=");
    s.append(decimal_string(status.voltage_mv as u64).as_str());
    s.append("mV max_voltage=");
    s.append(decimal_string(status.max_voltage_mv as u64).as_str());
    s.append("mV dut_power=");
    s.append(flag_str(status.dut_power));
    s.append(" sps=");
    append_optional_number(&mut s, status.sps);
    s.append(" buffered=");
    append_optional_number(&mut s, status.buffered_samples);
    s.append(" elapsed_s=");
    let mut e = String::new();
    match status.elapsed_s {
        Some(_) => {
            e.append("Some(");
            e.append(elapsed);
            e.append(")");
            assert(e@ =~= "Some("@ + elapsed@ + ")"@);
        },
        None => {
            e.append("None");
            assert(e@ =~= "None"@);
        },
    }
    s.append(e.as_str());
    s.append(" trigger=");
    let mut t = String::new();
    match &status.trigger {
        Some(pattern) => {
            t.append("Some(\"");
            t.append(pattern.as_str());
            t.append("\")");
            assert(t@ =~= "Some(\""@ + pattern@ + "\")"@);
        },
        None => {
            t.append("None");
            assert(t@ =~= "None"@);
        },
    }
    s.append(t.as_str());
    s
}

/// The figures of a session's statistics as text, each to the precision in which it
/// is reported.
#[derive(Debug)]
pub struct Figures {
    pub duration_s: String,
    pub mean_ua: String,
    pub avg_ma: String,
    pub min_ua: String,
    pub max_ua: String,
    pub stddev_ua: String,
    pub charge_uc: String,
    pub charge_mah: String,
    /// The duty cycle of each pin in percent.
    pub pin_duty: Vec<String>,
    /// All figures as a JSON object.
    pub json: String,
}

/// The duty cycles of the pins, each with the name of its pin, between spaces.
pub open spec fn duty_text(duty: Seq<String>) -> Seq<char>
    decreases duty.len(),
{
    if duty.len() == 0 {
        Seq::empty()
    } else {
        let n = duty.len() - 1;
        let before = duty_text(duty.drop_last());
        (if n == 0 {
            before
        } else {
            before + " "@
        }) + "D"@ + crate::text::decimal(n as nat) + "="@ + duty.last()@ + "%"@
    }
}

fn duty_string(duty: &Vec<String>) -> (r: String)
    ensures
        r@ == duty_text(duty@),
{
    let mut s = String::new();
    let mut i: usize = 0;
    assert(duty@.take(0) =~= Seq::<String>::empty());
    while i < duty.len()
        invariant
            i <= duty@.len(),
            s@ == duty_text(duty@.take(i as int)),
        decreases duty@.len() - i,
    {
        assert(duty@.take(i + 1).drop_last() =~= duty@.take(i as int));
        if i != 0 {
            s.append(" ");
        }
        s.append("D");
        s.append(decimal_string(i as u64).as_str());
        s.append("=");
        s.append(duty[i].as_str());
        s.append("%");
        i = i + 1;
    }
    assert(duty@.take(duty@.len() as int) =~= duty@);
    s
}

/// The report of a session's statistics under a heading.
pub open spec fn stats_text(label: Seq<char>, samples: u64, f: Figures) -> Seq<char> {
    label + "\nsamples:   "@ + crate::text::decimal(samples as nat) + "\nduration:  "@
        + f.duration_s@ + " s\nmean:      "@ + f.mean_ua@ + " µA ("@ + f.avg_ma@
        + " mA)\nmin/max:   "@ + f.min_ua@ + " / "@ + f.max_ua@ + " µA\nstddev:    "@ + f.stddev_ua@
        + " µA\ncharge:    "@ + f.charge_uc@ + " µC ("@ + f.charge_mah@ + " mAh)\npin duty:  "@
        + duty_text(f.pin_duty@) + "\njson: "@ + f.json@
}

/// The report of a session's statistics under a heading.
pub fn format_stats(label: &str, samples: u64, f: &Figures) -> (r: String)
    ensures
        r@ == stats_text(label@, samples, *f),
{
    let mut s = label.to_owned();
    s.append("\nsamples:   ");
    s.append(decimal_string(samples).as_str());
    s.append("\nduration:  ");
    s.append(f.duration_s.as_str());
    s.append(" s\nmean:      ");
    s.append(f.mean_ua.as_str());
    s.append(" µA (");
    s.append(f.avg_ma.as_str());
    s.append(" mA)\nmin/max:   ");
    s.append(f.min_ua.as_str());
    s.append(" / ");
    s.append(f.max_ua.as_str());
    s.append(" µA\nstddev:    ");
    s.append(f.stddev_ua.as_str());
    s.append(" µA\ncharge:    ");
    s.append(f.charge_uc.as_str());
    s.append(" µC (");
    s.append(f.charge_mah.as_str());
    s.append(" mAh)\npin duty:  ");
    s.append(duty_string(&f.pin_duty).as_str());
    s.append("\njson: ");
    s.append(f.json.as_str());
    s
}

/// The report of a connection is the same for all, but for the port, the mode, the voltage
/// in decimal and the power, which stand in it in this order.
pub proof fn lemma_connected_text() -> (l: [Seq<char>; 4])
    ensures
        forall|port: Seq<char>, mode: MeasurementMode, mv: u16, on: bool|
            #[trigger] connected_text(port, mode, mv, on) == l[0] + port + l[1] + mode.label()
                + l[2] + crate::text::decimal(mv as nat) + l[3] + flag(on),
        l[0] == "connected: port="@,
        l[1] == " mode="@,
        l[2] == " voltage="@,
        l[3] == "mV dut_power="@,
{
    ["connected: port="@, " mode="@, " voltage="@, "mV dut_power="@]
}

/// The report of a configuration is the same for all, but for the voltage in decimal and
/// the power.
pub proof fn lemma_configured_text() -> (l: [Seq<char>; 2])
    ensures
        forall|mv: u16, on: bool|
            #[trigger] configured_text(mv, on) == l[0] + crate::text::decimal(mv as nat) + l[1]
                + flag(on),
        l[0] == "configured: voltage="@,
        l[1] == "mV dut_power="@,
{
    ["configured: voltage="@, "mV dut_power="@]
}

/// The report of a session that was started is the same for all, but for the rate in
/// decimal, the retention and the trigger as they were given.
pub proof fn lemma_started_text() -> (l: [Seq<char>; 5])
    ensures
        forall|sps: usize, retention: Seq<char>|
            #[trigger] started_text(sps, retention, None) == l[0] + crate::text::decimal(sps as nat)
                + l[1] + retention + l[2] + l[4],
        forall|sps: usize, retention: Seq<char>, pattern: Seq<char>|
            #[trigger] started_text(sps, retention, Some(pattern)) == l[0] + crate::text::decimal(
                sps as nat,
            ) + l[1] + retention + l[2] + (l[3] + pattern) + l[4],
        l[0] == "measuring @ "@,
        l[1] == " sps (retention "@,
        l[2] == "s"@,
        l[3] == ", trigger="@,
        l[4] == ")"@,
{
    let l = ["measuring @ "@, " sps (retention "@, "s"@, ", trigger="@, ")"@];
    assert forall|sps: usize, retention: Seq<char>|
        #[trigger] started_text(sps, retention, None) == l[0] + crate::text::decimal(sps as nat)
            + l[1] + retention + l[2] + l[4] by {
        let t = l[0] + crate::text::decimal(sps as nat) + l[1] + retention + l[2];
        assert(t + Seq::<char>::empty() =~= t);
    }
    l
}

/// The report of an export is the same for all, but for the number of samples in decimal
/// and the path.
pub proof fn lemma_exported_text() -> (l: [Seq<char>; 2])
    ensures
        forall|n: nat, path: Seq<char>|
            #[trigger] exported_text(n, path) == l[0] + crate::text::decimal(n) + l[1] + path,
        l[0] == "wrote "@,
        l[1] == " samples to "@,
{
    ["wrote "@, " samples to "@]
}

/// An optional number is told in decimal between two texts, or by a text of its own.
pub proof fn lemma_optional_number() -> (l: [Seq<char>; 3])
    ensures
        forall|n: nat|
            #[trigger] optional_number(Some(n)) == l[0] + crate::text::decimal(n) + l[1],
        optional_number(None) == l[2],
        l[0] == "Some("@ && l[1] == ")"@ && l[2] == "None"@,
{
    ["Some("@, ")"@, "None"@]
}

/// The report of a status is the same for all, but for what it tells, in this order.
pub proof fn lemma_status_text() -> (l: [Seq<char>; 12])
    ensures
        forall|t: StatusView, elapsed: Seq<char>|
            #[trigger] status_text(t, elapsed) == l[0] + t.port + l[1] + flag(t.connected) + l[2]
                + flag(t.measuring) + l[3] + flag(t.broken) + l[4] + t.mode.label() + l[5]
                + crate::text::decimal(t.voltage_mv as nat) + l[6] + crate::text::decimal(
                t.max_voltage_mv as nat,
            ) + l[7] + flag(t.dut_power) + l[8] + optional_number(
                if t.sps is Some {
                    Some(t.sps->0 as nat)
                } else {
                    None
                },
            ) + l[9] + optional_number(t.buffered_samples) + l[10] + (if t.elapsed_s is Some {
                "Some("@ + elapsed + ")"@
            } else {
                "None"@
            }) + l[11] + (if t.trigger is Some {
                "Some(\""@ + t.trigger->0 + "\")"@
            } else {
                "None"@
            }),
        l[0] == "port="@,
        l[1] == " connected="@,
        l[2] == " measuring="@,
        l[3] == " broken="@,
        l[4] == " mode="@,
        l[5] == " voltage="@,
        l[6] == "mV max_voltage="@,
        l[7] == "mV dut_power="@,
        l[8] == " sps="@,
        l[9] == " buffered="@,
        l[10] == " elapsed_s="@,
        l[11] == " trigger="@,
{
    [
        "port="@,
        " connected="@,
        " measuring="@,
        " broken="@,
        " mode="@,
        " voltage="@,
        "mV max_voltage="@,
        "mV dut_power="@,
        " sps="@,
        " buffered="@,
        " elapsed_s="@,
        " trigger="@,
    ]
}

/// The duty cycles of one more pin follow those of the pins before it, under the number of
/// the pin.
pub proof fn lemma_duty_text() -> (l: [Seq<char>; 4])
    ensures
        duty_text(Seq::empty()) == Seq::<char>::empty(),
        forall|duty: Seq<String>, x: String|
            #[trigger] duty_text(duty.push(x)) == (if duty.len() == 0 {
                Seq::<char>::empty()
            } else {
                duty_text(duty) + l[0]
            }) + l[1] + crate::text::decimal(duty.len()) + l[2] + x@ + l[3],
        l[0] == " "@,
        l[1] == "D"@,
        l[2] == "="@,
        l[3] == "%"@,
{
    let l = [" "@, "D"@, "="@, "%"@];
    reveal_with_fuel(duty_text, 2);
    assert(l[0] == " "@ && l[1] == "D"@ && l[2] == "="@ && l[3] == "%"@);
    assert forall|duty: Seq<String>, x: String|
        #[trigger] duty_text(duty.push(x)) == (if duty.len() == 0 {
            Seq::<char>::empty()
        } else {
            duty_text(duty) + l[0]
        }) + l[1] + crate::text::decimal(duty.len()) + l[2] + x@ + l[3] by {
        let d = duty.push(x);
        assert(d.drop_last() =~= duty);
        assert(d.last() == x);
        assert(d.len() - 1 == duty.len());
        assert(duty.len() == 0 ==> duty_text(duty) == Seq::<char>::empty());
        assert(duty_text(d) == (if duty.len() == 0 {
            duty_text(d.drop_last())
        } else {
            duty_text(d.drop_last()) + " "@
        }) + "D"@ + crate::text::decimal(duty.len()) + "="@ + x@ + "%"@);
    }
    l
}

/// The report of statistics is the same for all, but for the heading, the number of
/// samples in decimal and the figures, which stand in it in this order.
pub proof fn lemma_stats_text() -> (l: [Seq<char>; 11])
    ensures
        forall|label: Seq<char>, samples: u64, f: Figures|
            #[trigger] stats_text(label, samples, f) == label + l[0] + crate::text::decimal(
                samples as nat,
            ) + l[1] + f.duration_s@ + l[2] + f.mean_ua@ + l[3] + f.avg_ma@ + l[4] + f.min_ua@
                + l[5] + f.max_ua@ + l[6] + f.stddev_ua@ + l[7] + f.charge_uc@ + l[8]
                + f.charge_mah@ + l[9] + duty_text(f.pin_duty@) + l[10] + f.json@,
        l[0] == "\nsamples:   "@,
        l[1] == "\nduration:  "@,
        l[2] == " s\nmean:      "@,
        l[3] == " µA ("@,
        l[4] == " mA)\nmin/max:   "@,
        l[5] == " / "@,
        l[6] == " µA\nstddev:    "@,
        l[7] == " µA\ncharge:    "@,
        l[8] == " µC ("@,
        l[9] == " mAh)\npin duty:  "@,
        l[10] == "\njson: "@,
{
    [
        "\nsamples:   "@,
        "\nduration:  "@,
        " s\nmean:      "@,
        " µA ("@,
        " mA)\nmin/max:   "@,
        " / "@,
        " µA\nstddev:    "@,
        " µA\ncharge:    "@,
        " µC ("@,
        " mAh)\npin duty:  "@,
        "\njson: "@,
    ]
}

/// A state that holds or does not is told as such.
pub proof fn lemma_flag(b: bool)
    ensures
        flag(b) == if b { "true"@ } else { "false"@ },
{
}

} // verus!
