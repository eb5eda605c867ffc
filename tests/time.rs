use time_parse::Time;

#[test]
fn test_set_hour() {
    let mut time = Time::new();
    time.set_hour(1);

    assert_eq!(time.hour, 1);
}

#[test]
fn test_set_minutes() {
    let mut time = Time::new();
    time.set_minutes(1);

    assert_eq!(time.minutes, 1);
}

#[test]
fn test_set_seconds() {
    let mut time = Time::new();
    time.set_seconds(1);

    assert_eq!(time.seconds, 1);
}

#[test]
fn setters_leave_other_fields() {
    let mut time = Time::new();
    time.set_hour(7);
    time.set_minutes(8);
    time.set_seconds(9);
    assert_eq!(time, Time { hour: 7, minutes: 8, seconds: 9 });
}

#[test]
fn total_seconds_of_hour_only() {
    let mut time = Time::new();
    time.set_hour(1);
    assert_eq!(time.total_seconds(), 3600);
}

#[test]
fn total_seconds_of_minutes_only() {
    let mut time = Time::new();
    time.set_minutes(1);
    assert_eq!(time.total_seconds(), 60);
}

#[test]
fn total_seconds_of_seconds_only() {
    let mut time = Time::new();
    time.set_seconds(1);
    assert_eq!(time.total_seconds(), 1);
}

#[test]
fn total_seconds_is_exact() {
    let t = Time { hour: 12, minutes: 34, seconds: 56 };
    assert_eq!(t.total_seconds(), 12 * 3600 + 34 * 60 + 56);
}

#[test]
fn total_seconds_of_largest_time() {
    let t = Time { hour: 65535, minutes: 255, seconds: 255 };
    assert_eq!(t.total_seconds(), 65535 * 3600 + 255 * 60 + 255);
}

#[test]
fn from_total_seconds_splits_fields() {
    assert_eq!(Time::from_total_seconds(3662), Time { hour: 1, minutes: 1, seconds: 2 });
}

#[test]
fn from_total_seconds_of_zero() {
    assert_eq!(Time::from_total_seconds(0), Time::new());
}

#[test]
fn from_total_seconds_caps_hour() {
    let t = Time::from_total_seconds(u32::MAX);
    assert_eq!(t.hour, 65535);
    assert_eq!(t.minutes, ((u32::MAX / 60) % 60) as u8);
    assert_eq!(t.seconds, (u32::MAX % 60) as u8);
}

#[test]
fn seconds_round_trip() {
    for &(h, m, s) in &[(0u16, 0u8, 0u8), (1, 30, 30), (12, 59, 59), (65535, 59, 59)] {
        let t = Time { hour: h, minutes: m, seconds: s };
        assert_eq!(Time::from_total_seconds(t.total_seconds()), t);
    }
}

#[test]
fn to_text_joins_fields() {
    let t = Time { hour: 1, minutes: 1, seconds: 30 };
    assert_eq!(t.to_text(), "1:1:30");
}

#[test]
fn to_text_of_zero_and_large() {
    assert_eq!(Time::new().to_text(), "0:0:0");
    let t = Time { hour: 65535, minutes: 255, seconds: 7 };
    assert_eq!(t.to_text(), "65535:255:7");
}
