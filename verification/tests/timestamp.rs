use permhash::timestamp::{
    has_timestamp_shape, parse_timestamp, parse_window, window_between, TimeWindow, WindowError,
    TIMESTAMP_FORMAT,
};

#[test]
fn form_of_a_timestamp() {
    assert_eq!(TIMESTAMP_FORMAT, "%Y-%m-%d %H:%M:%S");
    assert!(has_timestamp_shape(b"2017-06-01 12:30:45"));
    assert!(has_timestamp_shape(b"0000-00-00 00:00:00"));
    assert!(has_timestamp_shape(b"9999-99-99 99:99:99"));
    assert!(!has_timestamp_shape(b""));
    assert!(!has_timestamp_shape(b"2017-06-01 12:30:4"));
    assert!(!has_timestamp_shape(b"2017-06-01 12:30:455"));
    assert!(!has_timestamp_shape(b"2017-06-01T12:30:45"));
    assert!(!has_timestamp_shape(b"2017/06/01 12:30:45"));
    assert!(!has_timestamp_shape(b"2017-06-01 12.30.45"));
    assert!(!has_timestamp_shape(b"2017-6-01  12:30:45"));
    assert!(!has_timestamp_shape(b"201a-06-01 12:30:45"));
}

#[test]
fn timestamps_count_seconds_from_the_epoch() {
    assert_eq!(parse_timestamp("1970-01-01 00:00:00"), Some(0));
    assert_eq!(parse_timestamp("1970-01-01 00:00:01"), Some(1));
    assert_eq!(parse_timestamp("1970-01-02 00:00:00"), Some(86400));
    assert_eq!(parse_timestamp("2001-09-09 01:46:40"), Some(1000000000));
    assert_eq!(parse_timestamp("2017-06-01 12:30:45"), Some(1496320245));
    assert_eq!(parse_timestamp("1969-12-31 23:59:59"), Some(-1));
}

#[test]
fn fields_are_taken_up_to_the_end_of_their_range() {
    assert_eq!(parse_timestamp("2016-12-31 23:59:60"), Some(1483228800));
    assert_eq!(parse_timestamp("2017-02-31 00:00:00"), Some(1488499200));
    assert_eq!(parse_timestamp("9999-12-31 23:59:59"), Some(253402300799));
    assert!(parse_timestamp("0000-01-01 00:00:00").is_some());
}

#[test]
fn malformed_timestamps_are_turned_down() {
    assert_eq!(parse_timestamp(""), None);
    assert_eq!(parse_timestamp("yesterday"), None);
    assert_eq!(parse_timestamp("2017-06-01"), None);
    assert_eq!(parse_timestamp("2017-06-01 12:30:45 "), None);
    assert_eq!(parse_timestamp("2017-06-01 12:30:45Z"), None);
    assert_eq!(parse_timestamp(" 2017-06-01 12:30:45"), None);
    assert_eq!(parse_timestamp("2017-6-1 2:3:4"), None);
    assert_eq!(parse_timestamp("2017-13-01 12:30:45"), None);
    assert_eq!(parse_timestamp("2017-00-01 12:30:45"), None);
    assert_eq!(parse_timestamp("2017-06-32 12:30:45"), None);
    assert_eq!(parse_timestamp("2017-06-01 24:30:45"), None);
    assert_eq!(parse_timestamp("2017-06-01 12:60:45"), None);
    assert_eq!(parse_timestamp("2017-06-01 12:30:61"), None);
}

#[test]
fn window_takes_both_ends() {
    assert_eq!(
        window_between(Some(5), Some(9)),
        Ok(TimeWindow { start: 5, end: 9 })
    );
    assert_eq!(
        window_between(Some(9), Some(5)),
        Ok(TimeWindow { start: 9, end: 5 })
    );
    assert_eq!(window_between(None, Some(9)), Err(WindowError::Start));
    assert_eq!(window_between(Some(5), None), Err(WindowError::End));
    assert_eq!(window_between(None, None), Err(WindowError::Start));
}

#[test]
fn window_is_read_from_two_timestamps() {
    assert_eq!(
        parse_window("1970-01-01 00:00:10", "1970-01-01 00:01:00"),
        Ok(TimeWindow { start: 10, end: 60 })
    );
    assert_eq!(
        parse_window("1970-01-01 00:00:1", "1970-01-01 00:01:00"),
        Err(WindowError::Start)
    );
    assert_eq!(
        parse_window("1970-01-01 00:00:10", "soon"),
        Err(WindowError::End)
    );
    assert_eq!(parse_window("never", "soon"), Err(WindowError::Start));
}
