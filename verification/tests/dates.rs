use smf_status::datetime::DateTime;
use smf_status::smf::{parse_smf_date, DateErrorKind};

fn dt(year: i32, month: u32, day: u32, hour: u32, minute: u32, second: u32) -> DateTime {
    DateTime::new(year, month, day, hour, minute, second).unwrap()
}

#[test]
fn test_under_a_day() {
    let now = dt(2023, 10, 9, 12, 30, 0);

    let dates = [
        // same day
        ("07:11:22", 1696835482),
        ("12:29:00", 1696854540),
        // day before
        ("12:31:00", 1696768260),
        ("22:00:05", 1696802405),
    ];

    for (smf_date, want_timestamp) in dates {
        let date = parse_smf_date(&now, smf_date).unwrap();
        assert_eq!(date.timestamp(), want_timestamp);
    }
}

#[test]
fn test_over_a_day() {
    let now = dt(2023, 10, 9, 0, 0, 0);

    let dates = [
        // same year
        ("Jan_1", 1672531200),
        ("Feb_27", 1677456000),
        ("Mar_4", 1677888000),
        ("Aug_9", 1691539200),
        ("Oct_8", 1696723200),
        // year before
        ("Oct_10", 1665360000),
        ("Oct_28", 1666915200),
        ("Dec_25", 1671926400),
    ];

    for (smf_date, want_timestamp) in dates {
        let date = parse_smf_date(&now, smf_date).unwrap();
        assert_eq!(date.timestamp(), want_timestamp);
    }
}

#[test]
fn test_over_a_year() {
    let now = dt(2023, 10, 9, 0, 0, 0);

    let dates = [("2021", 1609459200), ("2022", 1640995200)];

    for (smf_date, want_timestamp) in dates {
        let date = parse_smf_date(&now, smf_date).unwrap();
        assert_eq!(date.timestamp(), want_timestamp);
    }
}

#[test]
fn test_invalid() {
    let now = dt(2023, 10, 9, 0, 0, 0);

    let invalid = ["-", "", " ", "foo", "00:11:97", "Aug_58"];

    for s in invalid {
        let err = parse_smf_date(&now, s).unwrap_err();
        println!("{} = {:#?}", s, err);
    }
}

#[test]
fn error_kinds_name_the_failure() {
    let now = dt(2023, 10, 9, 0, 0, 0);

    let cases = [
        ("foo", DateErrorKind::MalformedInput),
        ("1:2", DateErrorKind::MalformedInput),
        ("a:b:c", DateErrorKind::MalformedInput),
        ("00:11:97", DateErrorKind::InvalidTime),
        ("24:00:00", DateErrorKind::InvalidTime),
        ("Xyz_5", DateErrorKind::MalformedInput),
        ("Aug_", DateErrorKind::MalformedInput),
        ("Aug_58", DateErrorKind::InvalidMonthDay),
        ("Feb_29", DateErrorKind::InvalidMonthDay),
        ("Apr_31", DateErrorKind::InvalidMonthDay),
        ("99999", DateErrorKind::InvalidYear),
    ];

    for (token, kind) in cases {
        let err = parse_smf_date(&now, token).unwrap_err();
        assert_eq!(err.kind, kind, "token {}", token);
        assert_eq!(err.token, token);
    }
}

#[test]
fn epoch_conversion_matches_known_instants() {
    assert_eq!(dt(1970, 1, 1, 0, 0, 0).timestamp(), 0);
    assert_eq!(dt(1969, 12, 31, 23, 59, 59).timestamp(), -1);
    assert_eq!(dt(2023, 10, 9, 12, 30, 0).timestamp(), 1696854600);
    assert_eq!(dt(2000, 2, 29, 0, 0, 0).timestamp(), 951782400);
}

#[test]
fn datetime_new_checks_the_calendar() {
    assert!(DateTime::new(2023, 2, 29, 0, 0, 0).is_none());
    assert!(DateTime::new(2024, 2, 29, 0, 0, 0).is_some());
    assert!(DateTime::new(2023, 4, 31, 0, 0, 0).is_none());
    assert!(DateTime::new(2023, 1, 1, 24, 0, 0).is_none());
    assert!(DateTime::new(2023, 13, 1, 0, 0, 0).is_none());
    assert!(DateTime::new(10000, 1, 1, 0, 0, 0).is_none());
}

#[test]
fn prev_day_crosses_month_and_year_bounds() {
    let d = dt(2024, 3, 1, 7, 0, 0).prev_day().unwrap();
    assert_eq!(d.timestamp(), dt(2024, 2, 29, 7, 0, 0).timestamp());

    let d = dt(2023, 1, 1, 0, 0, 0).prev_day().unwrap();
    assert_eq!(d.timestamp(), dt(2022, 12, 31, 0, 0, 0).timestamp());
}

#[test]
fn midnight_rollover_goes_to_yesterday() {
    // Just past New Year's midnight, a later clock time means yesterday.
    let now = dt(2023, 1, 1, 0, 0, 0);
    let date = parse_smf_date(&now, "01:00:00").unwrap();
    assert_eq!(date.timestamp(), 1672531200 - 86400 + 3600);
}

#[test]
fn leap_day_clamps_when_stepping_back_a_year() {
    // Feb 29 exists in 2024; resolved against an earlier "now" of that
    // year it belongs to 2023, where the day clamps to Feb 28.
    let now = dt(2024, 1, 15, 0, 0, 0);
    let date = parse_smf_date(&now, "Feb_29").unwrap();
    assert_eq!(date.timestamp(), 1677456000 + 86400);
}

#[test]
fn year_token_is_january_first_midnight() {
    let now = dt(2023, 10, 9, 12, 30, 0);
    let date = parse_smf_date(&now, "0970").unwrap();
    assert_eq!(date, dt(970, 1, 1, 0, 0, 0));
}

#[test]
fn clock_time_equal_to_now_is_today() {
    let now = dt(2023, 10, 9, 12, 30, 0);
    let date = parse_smf_date(&now, "12:30:00").unwrap();
    assert_eq!(date.timestamp(), 1696854600);
    assert_eq!(date, now);
}

#[test]
fn zero_padded_fields_parse() {
    let now = dt(2023, 10, 9, 0, 0, 0);
    assert_eq!(
        parse_smf_date(&now, "May_05").unwrap(),
        parse_smf_date(&now, "May_5").unwrap()
    );
    assert_eq!(parse_smf_date(&now, "07:08:09").unwrap(), dt(2023, 10, 8, 7, 8, 9));
}

#[test]
fn supported_year_range_edges() {
    let now = dt(2023, 10, 9, 0, 0, 0);
    assert_eq!(parse_smf_date(&now, "0000").unwrap().timestamp(), -62167219200);
    assert_eq!(parse_smf_date(&now, "9999").unwrap().timestamp(), 253370764800);
}
