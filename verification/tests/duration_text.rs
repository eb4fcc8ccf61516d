use pp2ot_bridge::format_ms_to_duration;
use pp2ot_bridge::parse_duration_to_ms;
use pp2ot_bridge::time_format::validate_hms;

#[test]
fn parses_canonical_duration() {
    assert_eq!(parse_duration_to_ms("01:02:03"), 3723000);
}

#[test]
fn formats_canonical_duration() {
    assert_eq!(format_ms_to_duration(3723000), "01:02:03");
}

#[test]
fn round_trips_well_formed_durations() {
    for s in ["00:00:00", "00:05:00", "23:59:59", "07:30:15", "12:00:01"] {
        assert_eq!(format_ms_to_duration(parse_duration_to_ms(s)), s);
    }
}

#[test]
fn parses_zero_duration() {
    assert_eq!(parse_duration_to_ms("00:00:00"), 0);
}

#[test]
fn parses_unpadded_components() {
    assert_eq!(parse_duration_to_ms("1:2:3"), 3723000);
}

#[test]
fn defaults_to_five_minutes_without_two_colons() {
    assert_eq!(parse_duration_to_ms(""), 300000);
    assert_eq!(parse_duration_to_ms("oops"), 300000);
    assert_eq!(parse_duration_to_ms("01:02"), 300000);
    assert_eq!(parse_duration_to_ms("01:02:03:04"), 300000);
}

#[test]
fn unreadable_component_counts_as_zero() {
    assert_eq!(parse_duration_to_ms("aa:01:02"), 62000);
    assert_eq!(parse_duration_to_ms("01:xx:02"), 3602000);
    assert_eq!(parse_duration_to_ms("::"), 0);
}

#[test]
fn component_with_plus_sign_still_parses() {
    assert_eq!(parse_duration_to_ms("+01:02:03"), 3723000);
}

#[test]
fn overflowing_component_counts_as_zero() {
    assert_eq!(parse_duration_to_ms("99999999999999999999:00:01"), 1000);
}

#[test]
fn formats_hours_beyond_two_digits() {
    assert_eq!(format_ms_to_duration(100 * 3600 * 1000), "100:00:00");
}

#[test]
fn formats_truncating_partial_seconds() {
    assert_eq!(format_ms_to_duration(1999), "00:00:01");
}

#[test]
fn validates_well_formed_timing_text_only() {
    assert!(validate_hms("00:00:00"));
    assert!(validate_hms("23:59:59"));
    assert!(validate_hms("07:30:15"));
    assert!(!validate_hms("24:00:00"));
    assert!(!validate_hms("00:60:00"));
    assert!(!validate_hms("00:00:60"));
    assert!(!validate_hms("0:00:00"));
    assert!(!validate_hms("00-00-00"));
    assert!(!validate_hms("00:00:001"));
    assert!(!validate_hms(""));
}
