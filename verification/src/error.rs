//! What can go wrong, and the text that reports it.

use vstd::prelude::*;

use crate::text::{debug_string, decimal_string};

verus! {

/// Why a request was refused, or what failed while it was carried out.
#[derive(Debug)]
pub enum ControllerError {
    /// The voltage is below what the PPK2 can supply.
    BelowMinimum { mv: u16 },
    /// The voltage is above what the PPK2 can supply.
    AboveHardwareMaximum { mv: u16 },
    /// The voltage is above the operator's safety ceiling.
    AboveCeiling { mv: u16, ceiling_mv: u16 },
    /// The configured safety ceiling is not a number of millivolts.
    InvalidMaxVoltage { text: String },
    /// The serial ports could not be listed.
    PortEnumeration,
    /// No serial port belongs to a PPK2.
    NoDevice,
    /// A trigger pattern does not have eight characters.
    TriggerLength { len: usize },
    /// A trigger pattern holds a character that stands for no level.
    TriggerChar { c: char, position: usize },
    /// The measurement mode has no such name.
    UnknownMode { text: String },
    /// The capture duration is out of range.
    Duration,
    /// The sampling rate is out of range.
    SampleRate,
    /// No controller has been connected.
    NotConnected,
    /// The port could not be opened.
    OpenFailed { port: String },
    /// DUT power could not be switched off on connecting.
    PowerOffFailed,
    /// The source voltage could not be set on connecting.
    InitialVoltageFailed,
    /// A voltage change was asked for during a measurement.
    MeasuringVoltage,
    /// A power change was asked for during a measurement.
    MeasuringPower,
    /// The device handle was lost; a write needs a new connection.
    BrokenWrite,
    /// Writing the source voltage failed.
    VoltageWriteFailed,
    /// Writing the DUT power state failed.
    PowerWriteFailed,
    /// A measurement is already running.
    AlreadyMeasuring,
    /// The device handle was lost; a measurement needs a new connection.
    BrokenStart,
    /// The device did not start measuring.
    StartFailed,
    /// No measurement is running.
    NotMeasuring,
    /// The device worker did not stop.
    StopFailed,
    /// There is nothing to export.
    NoSamples,
    /// The export file could not be created.
    CreateFailed { path: String },
    /// The export file could not be written.
    WriteFailed { text: String },
}

impl ControllerError {
    /// The text that reports the error.
    pub open spec fn text(self) -> Seq<char> {
        match self {
            ControllerError::BelowMinimum { mv } => "voltage "@ + crate::text::decimal(mv as nat)
                + " mV is below the PPK2 minimum of 800 mV"@,
            ControllerError::AboveHardwareMaximum { mv } => "voltage "@ + crate::text::decimal(mv as nat)
                + " mV exceeds the PPK2 hardware maximum of 5000 mV"@,
            ControllerError::AboveCeiling { mv, ceiling_mv } => "voltage "@ + crate::text::decimal(mv as nat)
                + " mV exceeds the configured safety ceiling of "@ + crate::text::decimal(ceiling_mv as nat)
                + " mV (raise it with --max-voltage-mv or PPK2_MAX_VOLTAGE_MV)"@,
            ControllerError::InvalidMaxVoltage { text } => "invalid max voltage "@ + crate::text::debug_text(
                text@,
            ) + ": expected millivolts (e.g. 3300)"@,
            ControllerError::PortEnumeration => "enumerating serial ports"@,
            ControllerError::NoDevice =>
                "no PPK2 (USB 1915:c00a) found — is it plugged in, and are permissions set (dialout group / nrf-udev rules)?"@,
            ControllerError::TriggerLength { len } =>
                "trigger must be exactly 8 characters (D0..D7), got "@ + crate::text::decimal(len as nat),
            ControllerError::TriggerChar { c, position } => "invalid trigger char '"@.push(c)
                + "' at position "@ + crate::text::decimal(position as nat) + " (use 1/0/X)"@,
            ControllerError::UnknownMode { text } =>
                "Error parsing: expected one of [ampere | amp | a | source | s], but got "@ + text@,
            ControllerError::Duration => "duration_s must be in (0, 3600]"@,
            ControllerError::SampleRate => "sps must be in 1..=100000"@,
            ControllerError::NotConnected => "not connected — call ppk2_connect first"@,
            ControllerError::OpenFailed { port } => "opening PPK2 on "@ + port@
                + " (in use, missing permissions, or unplugged?)"@,
            ControllerError::PowerOffFailed => "forcing DUT power off on connect"@,
            ControllerError::InitialVoltageFailed => "setting source voltage"@,
            ControllerError::MeasuringVoltage => "stop measuring before changing voltage"@,
            ControllerError::MeasuringPower => "stop measuring before toggling DUT power"@,
            ControllerError::BrokenWrite => "controller is broken; reconnect (ppk2_connect)"@,
            ControllerError::VoltageWriteFailed => "setting source voltage (link lost)"@,
            ControllerError::PowerWriteFailed => "setting DUT power (link lost)"@,
            ControllerError::AlreadyMeasuring => "already measuring"@,
            ControllerError::BrokenStart => "controller is broken; reconnect"@,
            ControllerError::StartFailed => "start_measurement_matching"@,
            ControllerError::NotMeasuring => "not measuring"@,
            ControllerError::StopFailed => "stopping device worker"@,
            ControllerError::NoSamples => "no samples to export"@,
            ControllerError::CreateFailed { path } => "creating "@ + path@,
            ControllerError::WriteFailed { text } => text@,
        }
    }

    /// The text that reports the error.
    pub fn message(&self) -> (r: String)
        ensures
            r@ == self.text(),
    {
        match self {
            ControllerError::BelowMinimum { mv } => {
                let mut s = "voltage ".to_owned();
                s.append(decimal_string(*mv as u64).as_str());
                s.append(" mV is below the PPK2 minimum of 800 mV");
                s
            },
            ControllerError::AboveHardwareMaximum { mv } => {
                let mut s = "voltage ".to_owned();
                s.append(decimal_string(*mv as u64).as_str());
                s.append(" mV exceeds the PPK2 hardware maximum of 5000 mV");
                s
            },
            ControllerError::AboveCeiling { mv, ceiling_mv } => {
                let mut s = "voltage ".to_owned();
                s.append(decimal_string(*mv as u64).as_str());
                s.append(" mV exceeds the configured safety ceiling of ");
                s.append(decimal_string(*ceiling_mv as u64).as_str());
                s.append(" mV (raise it with --max-voltage-mv or PPK2_MAX_VOLTAGE_MV)");
                s
            },
            ControllerError::InvalidMaxVoltage { text } => {
                let mut s = "invalid max voltage ".to_owned();
                s.append(debug_string(text.as_str()).as_str());
                s.append(": expected millivolts (e.g. 3300)");
                s
            },
            ControllerError::PortEnumeration => "enumerating serial ports".to_owned(),
            ControllerError::NoDevice =>
                "no PPK2 (USB 1915:c00a) found — is it plugged in, and are permissions set (dialout group / nrf-udev rules)?".to_owned(),
            ControllerError::TriggerLength { len } => {
                let mut s = "trigger must be exactly 8 characters (D0..D7), got ".to_owned();
                s.append(decimal_string(*len as u64).as_str());
                s
            },
            ControllerError::TriggerChar { c, position } => {
                let mut s = "invalid trigger char '".to_owned();
                s.push(*c);
                s.append("' at position ");
                s.append(decimal_string(*position as u64).as_str());
                s.append(" (use 1/0/X)");
                s
            },
            ControllerError::UnknownMode { text } => {
                let mut s = "Error parsing: expected one of [ampere | amp | a | source | s], but got ".to_owned();
                s.append(text.as_str());
                s
            },
            ControllerError::Duration => "duration_s must be in (0, 3600]".to_owned(),
            ControllerError::SampleRate => "sps must be in 1..=100000".to_owned(),
            ControllerError::NotConnected => "not connected — call ppk2_connect first".to_owned(),
            ControllerError::OpenFailed { port } => {
                let mut s = "opening PPK2 on ".to_owned();
                s.append(port.as_str());
                s.append(" (in use, missing permissions, or unplugged?)");
                s
            },
            ControllerError::PowerOffFailed => "forcing DUT power off on connect".to_owned(),
            ControllerError::InitialVoltageFailed => "setting source voltage".to_owned(),
            ControllerError::MeasuringVoltage => "stop measuring before changing voltage".to_owned(),
            ControllerError::MeasuringPower => "stop measuring before toggling DUT power".to_owned(),
            ControllerError::BrokenWrite =>
                "controller is broken; reconnect (ppk2_connect)".to_owned(),
            ControllerError::VoltageWriteFailed => "setting source voltage (link lost)".to_owned(),
            ControllerError::PowerWriteFailed => "setting DUT power (link lost)".to_owned(),
            ControllerError::AlreadyMeasuring => "already measuring".to_owned(),
            ControllerError::BrokenStart => "controller is broken; reconnect".to_owned(),
            ControllerError::StartFailed => "start_measurement_matching".to_owned(),
            ControllerError::NotMeasuring => "not measuring".to_owned(),
            ControllerError::StopFailed => "stopping device worker".to_owned(),
            ControllerError::NoSamples => "no samples to export".to_owned(),
            ControllerError::CreateFailed { path } => {
                let mut s = "creating ".to_owned();
                s.append(path.as_str());
                s
            },
            ControllerError::WriteFailed { text } => text.clone(),
        }
    }
}

/// An error that tells of a value is reported in the same words whatever the value, with
/// the value itself among them.
pub proof fn lemma_error_texts() -> (l: [Seq<char>; 17])
    ensures
        forall|mv: u16|
            #[trigger] (ControllerError::BelowMinimum { mv }).text() == l[0] + crate::text::decimal(
                mv as nat,
            ) + l[1],
        forall|mv: u16|
            #[trigger] (ControllerError::AboveHardwareMaximum { mv }).text() == l[2]
                + crate::text::decimal(mv as nat) + l[3],
        forall|mv: u16, ceiling_mv: u16|
            #[trigger] (ControllerError::AboveCeiling { mv, ceiling_mv }).text() == l[4]
                + crate::text::decimal(mv as nat) + l[5] + crate::text::decimal(ceiling_mv as nat)
                + l[6],
        forall|text: String|
            #[trigger] (ControllerError::InvalidMaxVoltage { text }).text() == l[7]
                + crate::text::debug_text(text@) + l[8],
        forall|len: usize|
            #[trigger] (ControllerError::TriggerLength { len }).text() == l[9] + crate::text::decimal(
                len as nat,
            ),
        forall|c: char, position: usize|
            #[trigger] (ControllerError::TriggerChar { c, position }).text() == l[10].push(c) + l[11]
                + crate::text::decimal(position as nat) + l[12],
        forall|text: String|
            #[trigger] (ControllerError::UnknownMode { text }).text() == l[13] + text@,
        forall|port: String|
            #[trigger] (ControllerError::OpenFailed { port }).text() == l[14] + port@ + l[15],
        forall|path: String|
            #[trigger] (ControllerError::CreateFailed { path }).text() == l[16] + path@,
        forall|text: String| #[trigger] (ControllerError::WriteFailed { text }).text() == text@,
        l[0] == "voltage "@,
        l[1] == " mV is below the PPK2 minimum of 800 mV"@,
        l[2] == "voltage "@,
        l[3] == " mV exceeds the PPK2 hardware maximum of 5000 mV"@,
        l[4] == "voltage "@,
        l[5] == " mV exceeds the configured safety ceiling of "@,
        l[6] == " mV (raise it with --max-voltage-mv or PPK2_MAX_VOLTAGE_MV)"@,
        l[7] == "invalid max voltage "@,
        l[8] == ": expected millivolts (e.g. 3300)"@,
        l[9] == "trigger must be exactly 8 characters (D0..D7), got "@,
        l[10] == "invalid trigger char '"@,
        l[11] == "' at position "@,
        l[12] == " (use 1/0/X)"@,
        l[13] == "Error parsing: expected one of [ampere | amp | a | source | s], but got "@,
        l[14] == "opening PPK2 on "@,
        l[15] == " (in use, missing permissions, or unplugged?)"@,
        l[16] == "creating "@,
{
    [
        "voltage "@,
        " mV is below the PPK2 minimum of 800 mV"@,
        "voltage "@,
        " mV exceeds the PPK2 hardware maximum of 5000 mV"@,
        "voltage "@,
        " mV exceeds the configured safety ceiling of "@,
        " mV (raise it with --max-voltage-mv or PPK2_MAX_VOLTAGE_MV)"@,
        "invalid max voltage "@,
        ": expected millivolts (e.g. 3300)"@,
        "trigger must be exactly 8 characters (D0..D7), got "@,
        "invalid trigger char '"@,
        "' at position "@,
        " (use 1/0/X)"@,
        "Error parsing: expected one of [ampere | amp | a | source | s], but got "@,
        "opening PPK2 on "@,
        " (in use, missing permissions, or unplugged?)"@,
        "creating "@,
    ]
}

/// Every other error has a text of its own.
pub proof fn lemma_fixed_error_texts()
    ensures
        ControllerError::PortEnumeration.text() == "enumerating serial ports"@,
        ControllerError::NoDevice.text() == "no PPK2 (USB 1915:c00a) found — is it plugged in, and are permissions set (dialout group / nrf-udev rules)?"@,
        ControllerError::Duration.text() == "duration_s must be in (0, 3600]"@,
        ControllerError::SampleRate.text() == "sps must be in 1..=100000"@,
        ControllerError::NotConnected.text() == "not connected — call ppk2_connect first"@,
        ControllerError::PowerOffFailed.text() == "forcing DUT power off on connect"@,
        ControllerError::InitialVoltageFailed.text() == "setting source voltage"@,
        ControllerError::MeasuringVoltage.text() == "stop measuring before changing voltage"@,
        ControllerError::MeasuringPower.text() == "stop measuring before toggling DUT power"@,
        ControllerError::BrokenWrite.text() == "controller is broken; reconnect (ppk2_connect)"@,
        ControllerError::VoltageWriteFailed.text() == "setting source voltage (link lost)"@,
        ControllerError::PowerWriteFailed.text() == "setting DUT power (link lost)"@,
        ControllerError::AlreadyMeasuring.text() == "already measuring"@,
        ControllerError::BrokenStart.text() == "controller is broken; reconnect"@,
        ControllerError::StartFailed.text() == "start_measurement_matching"@,
        ControllerError::NotMeasuring.text() == "not measuring"@,
        ControllerError::StopFailed.text() == "stopping device worker"@,
        ControllerError::NoSamples.text() == "no samples to export"@,
{
}

} // verus!
