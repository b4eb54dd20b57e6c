use azdo::daily::{
    civil_from_days, daily_page_path, days_from_civil, days_in_month, fmt_date, is_leap, leaf,
    parse_date, pick_latest, quarter, today_utc, utc_date_of, Ymd,
};

#[test]
fn quarter_boundaries_are_exact() {
    let expected = [
        (1, 1),
        (2, 1),
        (3, 1),
        (4, 2),
        (5, 2),
        (6, 2),
        (7, 3),
        (8, 3),
        (9, 3),
        (10, 4),
        (11, 4),
        (12, 4),
    ];
    for (m, q) in expected {
        assert_eq!(quarter(m), q, "month {m} must be in Q{q}");
    }
}

#[test]
fn pick_latest_orders_by_date_not_string() {
    let paths = vec![
        "Daily/2025/Q4/31.12.2025".to_owned(),
        "Daily/2026/Q1/01.01.2026".to_owned(),
    ];
    assert_eq!(
        pick_latest(&paths).as_deref(),
        Some("Daily/2026/Q1/01.01.2026"),
        "the later calendar date wins even though its path sorts first",
    );
}

#[test]
fn pick_latest_crosses_quarter_rollover() {
    let paths = vec![
        "D/2026/Q1/05.02.2026".to_owned(),
        "D/2026/Q3/30.09.2026".to_owned(),
        "D/2026/Q2/14.05.2026".to_owned(),
    ];
    assert_eq!(pick_latest(&paths).as_deref(), Some("D/2026/Q3/30.09.2026"),);
}

#[test]
fn pick_latest_ignores_non_date_leaves_and_empty() {
    assert_eq!(pick_latest(&[]), None, "no paths -> no latest");
    let junk = vec![
        "D/2026/Q1".to_owned(),
        "D/readme".to_owned(),
        "D/2026/Q1/notadate".to_owned(),
    ];
    assert_eq!(
        pick_latest(&junk),
        None,
        "leaves that are not dd.MM.yyyy are not candidates",
    );
}

#[test]
fn pick_latest_keeps_the_last_of_equal_dates() {
    let paths = vec![
        "A/01.01.2026".to_owned(),
        "B/01.01.2026".to_owned(),
        "C/31.12.2025".to_owned(),
    ];
    assert_eq!(pick_latest(&paths).as_deref(), Some("B/01.01.2026"));
}

#[test]
fn parse_date_rejects_impossible_dates() {
    assert_eq!(parse_date("29.02.2025"), None, "2025 is not a leap year");
    assert_eq!(
        parse_date("29.02.2024"),
        Some(Ymd { y: 2024, m: 2, d: 29 }),
        "2024 is a leap year",
    );
    assert_eq!(parse_date("31.04.2026"), None, "April has 30 days");
    assert_eq!(parse_date("00.01.2026"), None, "day 0 is invalid");
    assert_eq!(parse_date("01.13.2026"), None, "month 13 is invalid");
    assert_eq!(parse_date("1.1.2026.5"), None, "too many fields");
    assert_eq!(parse_date("01.01.0000"), None, "year 0 is out of range");
}

#[test]
fn parse_date_is_strict() {
    assert_eq!(parse_date("01.02.2026"), Some(Ymd { y: 2026, m: 2, d: 1 }));
    assert_eq!(parse_date("01.01.0001"), Some(Ymd { y: 1, m: 1, d: 1 }));
    assert_eq!(parse_date("31.12.9999"), Some(Ymd { y: 9999, m: 12, d: 31 }));
    assert_eq!(parse_date("1.1.2026"), None, "day and month need two digits");
    assert_eq!(parse_date("1.2.2026"), None);
    assert_eq!(parse_date("01.2.2026"), None);
    assert_eq!(parse_date("+1.02.2026"), None, "no sign");
    assert_eq!(parse_date("01.02.+2026"), None);
    assert_eq!(parse_date("01.02.-2026"), None);
    assert_eq!(parse_date("01.02.026"), None, "the year takes four digits");
    assert_eq!(parse_date("01.02.02026"), None);
    assert_eq!(parse_date("01.02.10000"), None);
    assert_eq!(parse_date("01.02"), None);
    assert_eq!(parse_date("a.02.2026"), None);
    assert_eq!(parse_date("0a.02.2026"), None);
    assert_eq!(parse_date(" 1.02.2026"), None);
    assert_eq!(parse_date("01-02-2026"), None);
    assert_eq!(parse_date(""), None);
}

#[test]
fn leaf_is_the_last_segment() {
    assert_eq!(leaf("a/b/c"), "c");
    assert_eq!(leaf("solo"), "solo", "a path with no slash is its own leaf");
    assert_eq!(leaf("a/b/"), "");
}

#[test]
fn today_utc_is_a_real_date() {
    let t = today_utc();
    assert!(
        (1970..=9999).contains(&t.y) && (1..=12).contains(&t.m),
        "today must be a sane calendar date, got {t:?}",
    );
    assert!(
        (1..=days_in_month(t.y, t.m)).contains(&t.d),
        "today's day must be valid for its month, got {t:?}",
    );
}

#[test]
fn leap_years_follow_the_gregorian_rule() {
    assert!(is_leap(2024));
    assert!(!is_leap(2025));
    assert!(!is_leap(1900));
    assert!(is_leap(2000));
    assert_eq!(days_in_month(2024, 2), 29);
    assert_eq!(days_in_month(2023, 2), 28);
    assert_eq!(days_in_month(2023, 4), 30);
    assert_eq!(days_in_month(2023, 12), 31);
    assert_eq!(days_in_month(2023, 13), 0);
    assert_eq!(days_in_month(2023, 0), 0);
}

#[test]
fn serial_days_are_anchored_at_the_epoch() {
    assert_eq!(days_from_civil(Ymd { y: 1970, m: 1, d: 1 }), 0);
    assert_eq!(days_from_civil(Ymd { y: 2000, m: 3, d: 1 }), 11017);
    assert_eq!(days_from_civil(Ymd { y: 1969, m: 12, d: 31 }), -1);
    assert_eq!(civil_from_days(0), Ymd { y: 1970, m: 1, d: 1 });
    assert_eq!(civil_from_days(11017), Ymd { y: 2000, m: 3, d: 1 });
    assert_eq!(civil_from_days(-719162), Ymd { y: 1, m: 1, d: 1 });
}

#[test]
fn civil_serial_roundtrips_on_samples() {
    for date in [
        Ymd { y: 1, m: 1, d: 1 },
        Ymd { y: 1600, m: 2, d: 29 },
        Ymd { y: 2024, m: 2, d: 29 },
        Ymd { y: 2025, m: 12, d: 31 },
        Ymd { y: 9999, m: 12, d: 31 },
    ] {
        assert_eq!(civil_from_days(days_from_civil(date)), date);
        assert_eq!(parse_date(&fmt_date(date)), Some(date));
    }
}

#[test]
fn serial_order_matches_date_order() {
    let a = Ymd { y: 2025, m: 12, d: 31 };
    let b = Ymd { y: 2026, m: 1, d: 1 };
    assert!(a < b);
    assert!(days_from_civil(a) < days_from_civil(b));
    assert_eq!(days_from_civil(b) - days_from_civil(a), 1);
}

#[test]
fn dates_are_zero_padded() {
    assert_eq!(fmt_date(Ymd { y: 2026, m: 2, d: 5 }), "05.02.2026");
    assert_eq!(fmt_date(Ymd { y: 7, m: 11, d: 30 }), "30.11.0007");
}

#[test]
fn daily_path_shape_and_roundtrip() {
    let date = Ymd { y: 2026, m: 5, d: 14 };
    let path = daily_page_path("Daily/Standup", date);
    assert_eq!(path, "Daily/Standup/2026/Q2/14.05.2026");
    assert_eq!(daily_page_path("Daily/Standup/", date), path);
    assert_eq!(daily_page_path("R//", date), "R//2026/Q2/14.05.2026");
    assert_eq!(parse_date(&leaf(&path)), Some(date));
}

#[test]
fn clock_seconds_map_to_utc_dates() {
    assert_eq!(utc_date_of(0), Ymd { y: 1970, m: 1, d: 1 });
    assert_eq!(utc_date_of(86_399), Ymd { y: 1970, m: 1, d: 1 });
    assert_eq!(utc_date_of(86_400), Ymd { y: 1970, m: 1, d: 2 });
    assert_eq!(utc_date_of(951_868_800), Ymd { y: 2000, m: 3, d: 1 });
    assert_eq!(utc_date_of(951_868_799), Ymd { y: 2000, m: 2, d: 29 });
}

#[test]
fn serial_days_cover_every_year() {
    assert_eq!(days_from_civil(Ymd { y: 0, m: 3, d: 1 }), -719_468);
    assert_eq!(days_from_civil(Ymd { y: 0, m: 1, d: 1 }), -719_528);
    assert_eq!(days_from_civil(Ymd { y: -1, m: 12, d: 31 }), -719_529);
    assert_eq!(civil_from_days(-719_529), Ymd { y: -1, m: 12, d: 31 });
    assert_eq!(civil_from_days(-719_468), Ymd { y: 0, m: 3, d: 1 });
    for date in [
        Ymd { y: i32::MIN, m: 1, d: 1 },
        Ymd { y: -400, m: 2, d: 29 },
        Ymd { y: i32::MAX, m: 12, d: 31 },
    ] {
        assert_eq!(civil_from_days(days_from_civil(date)), date);
    }
    assert_eq!(
        days_from_civil(Ymd { y: 2026, m: 1, d: 32 }),
        days_from_civil(Ymd { y: 2026, m: 2, d: 1 }),
    );
    assert_eq!(civil_from_days(i64::MIN).y, 0);
    assert_eq!(civil_from_days(i64::MAX - 719_468).y, 0);
}

#[test]
fn pick_latest_skips_leaves_without_padding() {
    let paths = vec![
        "D/2026/Q2/5.5.2026".to_owned(),
        "D/2026/Q1/01.01.2026".to_owned(),
    ];
    assert_eq!(pick_latest(&paths).as_deref(), Some("D/2026/Q1/01.01.2026"));
}
