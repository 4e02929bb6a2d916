use mcp_nordic_ppk2::error::ControllerError;
use mcp_nordic_ppk2::trigger::{
    parse_trigger, pin_is_high, pins_to_byte, trigger_arg, trigger_to_string, Level,
};
use mcp_nordic_ppk2::trigger::Level::{Either, High, Low};

#[test]
fn trigger_pattern_reads_d0_leftmost() {
    assert_eq!(
        parse_trigger("X1XXXXXX").unwrap(),
        [Either, High, Either, Either, Either, Either, Either, Either]
    );
    assert_eq!(
        parse_trigger("1Hh0Ll.*").unwrap(),
        [High, High, High, Low, Low, Low, Either, Either]
    );
    assert_eq!(parse_trigger("xxxxxxxx").unwrap(), [Either; 8]);
}

#[test]
fn trigger_pattern_is_trimmed() {
    assert_eq!(parse_trigger(" \t00000000\u{3000}\n").unwrap(), [Low; 8]);
}

#[test]
fn trigger_pattern_of_other_length_is_an_error() {
    for (pattern, n) in [("", 0), ("1010101", 7), ("101010101", 9), (" 1010 10 ", 7)] {
        assert!(
            matches!(parse_trigger(pattern), Err(ControllerError::TriggerLength { len }) if len == n)
        );
    }
    assert_eq!(
        parse_trigger("101").unwrap_err().message(),
        "trigger must be exactly 8 characters (D0..D7), got 3"
    );
}

#[test]
fn trigger_pattern_error_names_the_first_bad_character() {
    let e = parse_trigger(" 10X?1é00 ").unwrap_err();
    assert!(matches!(e, ControllerError::TriggerChar { c: '?', position: 3 }));
    assert_eq!(e.message(), "invalid trigger char '?' at position 3 (use 1/0/X)");
    assert_eq!(
        parse_trigger("10X01é00").unwrap_err().message(),
        "invalid trigger char 'é' at position 5 (use 1/0/X)"
    );
}

#[test]
fn trigger_argument_is_optional() {
    assert_eq!(trigger_arg(&None).unwrap(), None);
    assert_eq!(trigger_arg(&Some("11111111".to_string())).unwrap(), Some([High; 8]));
    assert!(trigger_arg(&Some("1".to_string())).is_err());
}

#[test]
fn trigger_round_trip() {
    let levels = [High, Low, Either, Either, Low, High, High, Low];
    assert_eq!(trigger_to_string(&levels), "10XX0110");
    assert_eq!(parse_trigger(&trigger_to_string(&levels)).unwrap(), levels);
    assert_eq!(trigger_to_string(&parse_trigger("hL.*xX10").unwrap()), "10XXXX10");
}

#[test]
fn pins_pack_into_a_byte() {
    assert_eq!(pins_to_byte(&[Low; 8]), 0);
    assert_eq!(pins_to_byte(&[High; 8]), 0xff);
    assert_eq!(pins_to_byte(&[Either; 8]), 0);
    assert_eq!(pins_to_byte(&[High, Low, High, Low, Low, Low, Low, High]), 0b1000_0101);
    for b in 0..=255u8 {
        let mut levels = [Level::Low; 8];
        for i in 0..8 {
            assert_eq!(pin_is_high(b, i), (b >> i) & 1 == 1);
            if (b >> i) & 1 == 1 {
                levels[i] = Level::High;
            }
        }
        assert_eq!(pins_to_byte(&levels), b);
    }
}
