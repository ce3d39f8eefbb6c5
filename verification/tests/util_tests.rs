use dnsmasq_cli_rs::util::{
    duration_would_panic, fmt_date, fmt_datetime, fmt_time, parse_duration_ms, parse_tz_offset,
    tz_offset_would_overflow,
};

#[test]
fn epoch_formats() {
    assert_eq!(fmt_datetime(0, 0), "1970-01-01 00:00:00");
    assert_eq!(fmt_date(0, 0), "1970-01-01");
    assert_eq!(fmt_time(0, 0), "00:00:00");
}

#[test]
fn known_dates() {
    // 2024-02-29 12:34:56 UTC
    assert_eq!(fmt_datetime(1_709_210_096_000, 0), "2024-02-29 12:34:56");
    // 2000-03-01 00:00:00 UTC
    assert_eq!(fmt_date(951_868_800_000, 0), "2000-03-01");
    // just before the epoch
    assert_eq!(fmt_datetime(-1, 0), "1969-12-31 23:59:59");
}

#[test]
fn offset_shifts_the_display() {
    assert_eq!(fmt_datetime(0, 9 * 3_600_000), "1970-01-01 09:00:00");
    assert_eq!(fmt_datetime(0, -5 * 3_600_000), "1969-12-31 19:00:00");
    assert_eq!(fmt_time(0, 5 * 3_600_000 + 30 * 60_000), "05:30:00");
}

#[test]
fn tz_offsets() {
    assert_eq!(parse_tz_offset("utc"), Some(0));
    assert_eq!(parse_tz_offset(" Z "), Some(0));
    assert_eq!(parse_tz_offset("UTC"), Some(0));
    assert_eq!(parse_tz_offset("+9"), Some(32_400_000));
    assert_eq!(parse_tz_offset("9"), Some(32_400_000));
    assert_eq!(parse_tz_offset("-5"), Some(-18_000_000));
    assert_eq!(parse_tz_offset("+05:30"), Some(19_800_000));
    assert_eq!(parse_tz_offset("-03:30"), Some(-12_600_000));
    assert_eq!(parse_tz_offset("+14"), Some(50_400_000));
}

#[test]
fn tz_offsets_refused() {
    assert_eq!(parse_tz_offset("+15"), None);
    assert_eq!(parse_tz_offset("+05:60"), None);
    assert_eq!(parse_tz_offset("abc"), None);
    assert_eq!(parse_tz_offset(""), None);
}

#[test]
fn tz_offset_overflow_is_detected() {
    assert!(tz_offset_would_overflow("+9999999999999"));
    assert!(!tz_offset_would_overflow("+9"));
    assert!(!tz_offset_would_overflow("utc"));
    assert!(!tz_offset_would_overflow("nonsense"));
}

#[test]
fn durations() {
    assert_eq!(parse_duration_ms("30d"), Some(2_592_000_000));
    assert_eq!(parse_duration_ms("12h"), Some(43_200_000));
    assert_eq!(parse_duration_ms("90m"), Some(5_400_000));
    assert_eq!(parse_duration_ms("45s"), Some(45_000));
    assert_eq!(parse_duration_ms("2w"), Some(1_209_600_000));
    assert_eq!(parse_duration_ms("2W"), Some(1_209_600_000));
    assert_eq!(parse_duration_ms("60"), Some(60_000));
    assert_eq!(parse_duration_ms(" 1d "), Some(86_400_000));
}

#[test]
fn durations_refused() {
    assert_eq!(parse_duration_ms(""), None);
    assert_eq!(parse_duration_ms("d"), None);
    assert_eq!(parse_duration_ms("1x"), None);
    assert_eq!(parse_duration_ms("1.5h"), None);
}

#[test]
fn duration_panics_are_detected() {
    assert!(duration_would_panic("5é"));
    assert!(duration_would_panic("9223372036854775807d"));
    assert!(!duration_would_panic("30d"));
    assert!(!duration_would_panic(""));
}

#[test]
fn offset_sign_law() {
    for s in ["9", "05:30", "14", "3:15 ", "15", "1x"] {
        let plus = parse_tz_offset(&format!("+{s}"));
        let minus = parse_tz_offset(&format!("-{s}"));
        assert_eq!(plus, parse_tz_offset(s));
        assert_eq!(minus, plus.map(|v| -v));
    }
}

#[test]
fn duration_units_scale_one_number() {
    for n in ["0", "1", "7", "30", "365"] {
        let d = parse_duration_ms(&format!("{n}d")).unwrap();
        let h = parse_duration_ms(&format!("{n}h")).unwrap();
        let w = parse_duration_ms(&format!("{n}w")).unwrap();
        assert_eq!(d, h * 24);
        assert_eq!(w, d * 7);
        assert_eq!(parse_duration_ms(&format!("{n}D")), Some(d));
        assert_eq!(parse_duration_ms(n), parse_duration_ms(&format!("{n}s")));
    }
    assert_eq!(parse_duration_ms("2w"), Some(1_209_600_000));
}
