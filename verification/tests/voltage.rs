use mcp_nordic_ppk2::error::ControllerError;
use mcp_nordic_ppk2::voltage::{
    resolve_max_voltage_mv, validate_voltage, DEFAULT_MAX_VOLTAGE_MV, VDD_HW_MAX_MV, VDD_MIN_MV,
};

#[test]
fn voltage_within_range_and_ceiling_ok() {
    assert!(validate_voltage(3300, 5000).is_ok());
    assert!(validate_voltage(VDD_MIN_MV, VDD_HW_MAX_MV).is_ok());
    assert!(validate_voltage(VDD_HW_MAX_MV, VDD_HW_MAX_MV).is_ok());
    assert!(validate_voltage(3300, 3300).is_ok()); // exactly at ceiling
}

#[test]
fn voltage_below_minimum_rejected() {
    assert!(validate_voltage(VDD_MIN_MV - 1, VDD_HW_MAX_MV).is_err());
    assert!(validate_voltage(0, VDD_HW_MAX_MV).is_err());
}

#[test]
fn voltage_above_hardware_max_rejected() {
    assert!(validate_voltage(VDD_HW_MAX_MV + 1, VDD_HW_MAX_MV).is_err());
    // The classic extra-zero fat-finger (3300 -> 33000) must fail loudly,
    // not clamp to 5000 V and cook a 3.3 V part.
    assert!(validate_voltage(33000, VDD_HW_MAX_MV).is_err());
}

#[test]
fn voltage_above_ceiling_rejected() {
    assert!(validate_voltage(3301, 3300).is_err());
    assert!(validate_voltage(VDD_HW_MAX_MV, 3300).is_err());
}

fn refusal(mv: u16, ceiling: u16) -> String {
    validate_voltage(mv, ceiling).unwrap_err().message()
}

#[test]
fn voltage_refusals_say_why() {
    assert_eq!(refusal(799, 5000), "voltage 799 mV is below the PPK2 minimum of 800 mV");
    assert_eq!(
        refusal(5001, 5000),
        "voltage 5001 mV exceeds the PPK2 hardware maximum of 5000 mV"
    );
    assert_eq!(
        refusal(3301, 3300),
        "voltage 3301 mV exceeds the configured safety ceiling of 3300 mV \
         (raise it with --max-voltage-mv or PPK2_MAX_VOLTAGE_MV)"
    );
    // The range of the hardware is checked before the ceiling.
    assert!(matches!(
        validate_voltage(33000, 3300),
        Err(ControllerError::AboveHardwareMaximum { mv: 33000 })
    ));
}

fn ceiling(args: &[&str], env: Option<&str>) -> Result<u16, String> {
    let args: Vec<String> = args.iter().map(|a| a.to_string()).collect();
    resolve_max_voltage_mv(&args, env.map(|e| e.to_string())).map_err(|e| e.message())
}

#[test]
fn ceiling_defaults_when_unset() {
    assert_eq!(DEFAULT_MAX_VOLTAGE_MV, 3300);
    assert_eq!(ceiling(&[], None), Ok(3300));
    assert_eq!(ceiling(&["--verbose", "3000"], None), Ok(3300));
}

#[test]
fn ceiling_from_command_line_wins_over_environment() {
    assert_eq!(ceiling(&["--max-voltage-mv", "1800"], Some("5000")), Ok(1800));
    assert_eq!(ceiling(&["--max-voltage-mv=1800"], Some("5000")), Ok(1800));
    assert_eq!(ceiling(&[], Some("5000")), Ok(5000));
    assert_eq!(ceiling(&["--max-voltage"], Some(" 4200\n")), Ok(4200));
}

#[test]
fn ceiling_last_option_counts() {
    assert_eq!(
        ceiling(&["--max-voltage-mv", "1800", "--max-voltage-mv=2500"], None),
        Ok(2500)
    );
    // An option without a value takes back the one before it.
    assert_eq!(ceiling(&["--max-voltage-mv=2500", "--max-voltage-mv"], None), Ok(3300));
    assert_eq!(ceiling(&["--max-voltage-mv=2500", "--max-voltage-mv"], Some("1000")), Ok(1000));
    // The value of an option is taken as it stands.
    assert_eq!(
        ceiling(&["--max-voltage-mv", "--max-voltage-mv=2500"], None),
        Err("invalid max voltage \"--max-voltage-mv=2500\": expected millivolts (e.g. 3300)"
            .to_string())
    );
}

#[test]
fn ceiling_never_widens_the_hardware_range() {
    assert_eq!(ceiling(&["--max-voltage-mv", "65535"], None), Ok(5000));
    assert_eq!(ceiling(&["--max-voltage-mv", "0"], None), Ok(800));
    assert_eq!(ceiling(&["--max-voltage-mv", "+900"], None), Ok(900));
}

#[test]
fn ceiling_that_is_no_number_is_an_error() {
    for bad in ["", "x", "3.3", "-1", "65536", "+", "3300mV", "٣"] {
        assert_eq!(
            ceiling(&["--max-voltage-mv", bad], None),
            Err(format!("invalid max voltage {bad:?}: expected millivolts (e.g. 3300)"))
        );
    }
    assert_eq!(
        ceiling(&[], Some("a\"b\n")),
        Err("invalid max voltage \"a\\\"b\\n\": expected millivolts (e.g. 3300)".to_string())
    );
}
