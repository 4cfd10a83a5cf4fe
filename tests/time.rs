use xapo2ks::time::parse_date_time;

#[test]
fn timestamp_parses_and_prints() {
    let t = parse_date_time("2024-01-12 10:11:12").unwrap();
    assert_eq!((t.year, t.month, t.day, t.hour, t.minute, t.second), (2024, 1, 12, 10, 11, 12));
    assert_eq!(t.to_text(), "2024-01-12 10:11:12");
}

#[test]
fn leap_days() {
    assert!(parse_date_time("2024-02-29 00:00:00").is_ok());
    assert!(parse_date_time("2023-02-29 00:00:00").is_err());
    assert!(parse_date_time("2000-02-29 00:00:00").is_ok());
    assert!(parse_date_time("1900-02-29 00:00:00").is_err());
}

#[test]
fn malformed_timestamps_fail() {
    for bad in [
        "2024-01-12T10:11:12",
        "2024-01-12 10:11",
        "2024-1-12 10:11:12",
        "2024-13-01 00:00:00",
        "2024-04-31 00:00:00",
        "2024-01-12 24:00:00",
        "2024-01-12 23:60:00",
        "2024-01-12 23:59:60",
        "2024-01-00 00:00:00",
        "",
    ] {
        let e = parse_date_time(bad).unwrap_err();
        assert_eq!(e.input, bad);
    }
}
