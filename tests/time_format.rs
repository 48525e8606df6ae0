use mersenne::time::format_time;

#[test]
fn test_secs() {
    assert_eq!(format_time(1000), "0d 00:00:01.000");
}

#[test]
fn test_secs2() {
    assert_eq!(format_time(25500), "0d 00:00:25.500");
}

#[test]
fn test_mins() {
    assert_eq!(format_time(60 * 1000), "0d 00:01:00.000");
}

#[test]
fn test_mins2() {
    assert_eq!(format_time(25 * 6000), "0d 00:02:30.000");
}

#[test]
fn test_days2() {
    assert_eq!(format_time(36 * 3600 * 1000), "1d 12:00:00.000");
}

#[test]
fn zero_duration() {
    assert_eq!(format_time(0), "0d 00:00:00.000");
}

#[test]
fn many_days_and_every_field() {
    // 123 days, 4 h, 5 min, 6 s, 7 ms
    let ms: u128 = (((123 * 24 + 4) * 60 + 5) * 60 + 6) * 1000 + 7;
    assert_eq!(format_time(ms), "123d 04:05:06.007");
}
