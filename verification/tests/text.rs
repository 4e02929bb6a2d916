use mcp_nordic_ppk2::mode::MeasurementMode;
use mcp_nordic_ppk2::text::{
    chars_of, decimal_string, is_white_space, parse_u16, text_precedes, trim_chars,
};

#[test]
fn white_space_is_that_of_unicode() {
    for c in '\0'..=char::MAX {
        assert_eq!(is_white_space(c), c.is_whitespace(), "{c:?}");
    }
}

#[test]
fn trimming_is_that_of_strings() {
    for s in ["", " ", "a", " a b ", "\u{a0}x\u{2028}", "x \u{200b} ", "\t\n"] {
        let trimmed: String = trim_chars(s).into_iter().collect();
        assert_eq!(trimmed, s.trim());
        let chars: String = chars_of(s).into_iter().collect();
        assert_eq!(chars, s);
    }
}

#[test]
fn decimal_is_that_of_display() {
    for n in [0, 1, 9, 10, 99, 100, 3300, 65535, 10_000_000_000, u64::MAX] {
        assert_eq!(decimal_string(n), n.to_string());
    }
}

#[test]
fn numbers_read_as_std_reads_them() {
    for s in [
        "", "0", "+0", "-0", "00012", "65535", "65536", "+65535", "++1", "1 ", " 1", "1_000", "٣",
        "99999999999999999999", "12a", "+",
    ] {
        assert_eq!(parse_u16(&chars_of(s)), s.parse::<u16>().ok(), "{s:?}");
    }
}

#[test]
fn order_is_that_of_strings() {
    let texts = ["", "a", "ab", "b", "B", "é", "😀", "\u{ffff}", "a\0"];
    for a in texts {
        for b in texts {
            assert_eq!(text_precedes(a, b), a < b);
        }
    }
}

#[test]
fn mode_names_in_any_case() {
    for s in ["ampere", "AMP", "a", "A", "AmPeRe"] {
        assert_eq!(MeasurementMode::parse(s).unwrap(), MeasurementMode::Ampere);
    }
    for s in ["source", "Source", "s", "S", "SOURCE"] {
        assert_eq!(MeasurementMode::parse(s).unwrap(), MeasurementMode::Source);
    }
    for s in ["", "amps", " source", "ſource", "am", "sink"] {
        assert_eq!(
            MeasurementMode::parse(s).unwrap_err().message(),
            format!(
                "Error parsing: expected one of [ampere | amp | a | source | s], but got {s}"
            )
        );
    }
}

#[test]
fn mode_names_read_back() {
    for mode in [MeasurementMode::Ampere, MeasurementMode::Source] {
        assert_eq!(MeasurementMode::parse(&mode.name()).unwrap(), mode);
        assert_eq!(mode.name(), format!("{mode:?}"));
    }
}

#[test]
fn mode_names_need_no_more_than_ascii_case() {
    // Only the ASCII letters have a lower case made of the letters of the mode names.
    for c in '\u{80}'..=char::MAX {
        let lower: String = c.to_lowercase().collect();
        assert!(!lower.chars().all(|l| "amperesouc".contains(l)), "{c:?}");
    }
}
