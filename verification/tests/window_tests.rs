use hub_diff::time_window::{resolve_window, TimeArgs, TimeSpecError};

fn args(
    from_day: Option<&str>,
    to_day: Option<&str>,
    from_hour: Option<&str>,
    to_hour: Option<&str>,
) -> TimeArgs {
    TimeArgs {
        from_day: from_day.map(|s| s.to_string()),
        to_day: to_day.map(|s| s.to_string()),
        from_hour: from_hour.map(|s| s.to_string()),
        to_hour: to_hour.map(|s| s.to_string()),
    }
}

const NOW: i64 = 1700000000;

#[test]
fn day_style_both_given() {
    let w = resolve_window(&args(Some("2024-01-01"), Some("2024-01-03"), None, None), NOW)
        .unwrap();
    assert_eq!(w.start, 1704067200);
    assert_eq!(w.end, 1704240000);
}

#[test]
fn day_style_none_given_defaults_to_last_day() {
    let w = resolve_window(&args(None, None, None, None), NOW).unwrap();
    assert_eq!(w.start, NOW - 86400);
    assert_eq!(w.end, NOW);
}

#[test]
fn day_style_only_start_given_ends_now() {
    let w = resolve_window(&args(Some("2023-11-01"), None, None, None), NOW).unwrap();
    // 2023-11-01T00:00:00Z
    assert_eq!(w.start, 1698796800);
    assert_eq!(w.end, NOW);
}

#[test]
fn hour_style_start_only_spans_one_hour() {
    // NOW falls on the UTC day starting at 1699920000.
    let w = resolve_window(&args(None, None, Some("10:00:00"), None), NOW).unwrap();
    assert_eq!(w.start, 1699920000 + 10 * 3600);
    assert_eq!(w.end, 1699920000 + 11 * 3600);
}

#[test]
fn hour_style_both_given() {
    let w =
        resolve_window(&args(None, None, Some("10:00:00"), Some("13:30:00")), NOW).unwrap();
    assert_eq!(w.start, 1699920000 + 10 * 3600);
    assert_eq!(w.end, 1699920000 + 13 * 3600 + 30 * 60);
}

#[test]
fn both_styles_at_once_conflict() {
    let r = resolve_window(&args(Some("2024-01-01"), None, Some("10:00:00"), None), NOW);
    assert_eq!(r.err(), Some(TimeSpecError::ConflictingTimeSpec));
    let r = resolve_window(
        &args(Some("2024-01-01"), Some("2024-01-02"), Some("10:00:00"), Some("11:00:00")),
        NOW,
    );
    assert_eq!(r.err(), Some(TimeSpecError::ConflictingTimeSpec));
    let r = resolve_window(&args(None, Some("2024-01-02"), None, Some("11:00:00")), NOW);
    assert_eq!(r.err(), Some(TimeSpecError::ConflictingTimeSpec));
}

#[test]
fn malformed_strings_are_format_errors() {
    for bad in ["2024-13-01", "yesterday", "2024-02-30", ""] {
        let r = resolve_window(&args(Some(bad), None, None, None), NOW);
        assert_eq!(r.err(), Some(TimeSpecError::InvalidTimeFormat), "{bad}");
    }
    for bad in ["25:00:00", "10:61:00", "10:00", "noon"] {
        let r = resolve_window(&args(None, None, Some(bad), None), NOW);
        assert_eq!(r.err(), Some(TimeSpecError::InvalidTimeFormat), "{bad}");
    }
}

#[test]
fn inverted_explicit_bounds_are_range_errors() {
    let r = resolve_window(&args(Some("2024-01-03"), Some("2024-01-01"), None, None), NOW);
    assert_eq!(r.err(), Some(TimeSpecError::InvalidRange));
    let r = resolve_window(&args(None, None, Some("12:00:00"), Some("09:00:00")), NOW);
    assert_eq!(r.err(), Some(TimeSpecError::InvalidRange));
}

#[test]
fn start_day_after_now_is_a_range_error() {
    // End defaults to "now"; an explicit start after it inverts the window.
    let r = resolve_window(&args(Some("2024-01-01"), None, None, None), 1600000000);
    assert_eq!(r.err(), Some(TimeSpecError::InvalidRange));
}

#[test]
fn resolved_windows_are_well_formed() {
    let cases = vec![
        args(None, None, None, None),
        args(Some("2020-06-01"), Some("2020-06-02"), None, None),
        args(None, None, Some("00:00:00"), Some("23:59:59")),
        args(None, Some("1999-12-31"), None, None),
    ];
    for a in cases {
        if let Ok(w) = resolve_window(&a, NOW) {
            assert!(w.start <= w.end);
        }
    }
}
