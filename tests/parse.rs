use time_parse::{matches_scalar, parse_time, Time, TimeError, Unit};

#[test]
fn parses_clock_text() {
    let t = parse_time("1:30:30").unwrap();
    assert_eq!(t, Time { hour: 1, minutes: 30, seconds: 30 });
    assert_eq!(t.total_seconds(), 5430);
}

#[test]
fn parses_widest_fields() {
    assert_eq!(
        parse_time("65535:09:08"),
        Ok(Time { hour: 65535, minutes: 9, seconds: 8 })
    );
    assert_eq!(parse_time("0:0:0"), Ok(Time::new()));
}

#[test]
fn keeps_out_of_range_minutes() {
    let t = parse_time("1:75:99").unwrap();
    assert_eq!(t, Time { hour: 1, minutes: 75, seconds: 99 });
    assert_eq!(t.total_seconds(), 3600 + 75 * 60 + 99);
    assert_eq!(parse_time("0:60:00"), Ok(Time { hour: 0, minutes: 60, seconds: 0 }));
}

#[test]
fn hour_over_width_overflows() {
    assert_eq!(parse_time("65536:00:00"), Err(TimeError::FieldOverflow));
    assert_eq!(parse_time("99999:59:59"), Err(TimeError::FieldOverflow));
}

#[test]
fn rejects_wrong_shapes() {
    for s in [
        "1-30-30", "abc", "", "1:30", "1:30:30:30", "123456:00:00", "1:300:00", "1:00:000",
        ":30:30", "1::30", "1:30:", " 1:30:30", "1:30:30 ", "1:3a:30", "\u{661}:30:30",
    ] {
        assert_eq!(parse_time(s), Err(TimeError::PatternMismatch), "{:?}", s);
    }
}

#[test]
fn scalar_text_accepted() {
    for s in ["12.508333", "61.50", "3662.0", "3662", "0"] {
        assert!(matches_scalar(s), "{:?}", s);
    }
}

#[test]
fn scalar_text_rejected() {
    for s in ["1-30-30", "abc", "", ".5", "5.", "1.2.3", "12abc", "1x5", "-1", " 1", "1:30:30"] {
        assert!(!matches_scalar(s), "{:?}", s);
    }
}

#[test]
fn unit_codes() {
    assert_eq!(Unit::from_code('h'), Unit::Hours);
    assert_eq!(Unit::from_code('m'), Unit::Minutes);
    assert_eq!(Unit::from_code('s'), Unit::Seconds);
    assert_eq!(Unit::from_code('x'), Unit::Hours);
    assert_eq!(Unit::default(), Unit::Hours);
}
