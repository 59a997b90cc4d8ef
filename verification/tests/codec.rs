use memo_store::timestamp::{decode_timestamp, encode_timestamp, now_local, timestamp_from_parts};
use memo_store::{MemoError, Timestamp};

fn ts(
    year: u32,
    month: u32,
    day: u32,
    hour: u32,
    minute: u32,
    second: u32,
    offset_minutes: i32,
) -> Timestamp {
    Timestamp { year, month, day, hour, minute, second, offset_minutes }
}

fn encode_str(t: &Timestamp) -> String {
    encode_timestamp(t).iter().collect()
}

fn decode_str(s: &str) -> Result<Timestamp, MemoError> {
    decode_timestamp(&s.chars().collect())
}

#[test]
fn encode_positive_offset() {
    let t = ts(2024, 1, 15, 12, 34, 56, 9 * 60);
    assert_eq!(encode_str(&t), "2024-01-15T12:34:56+09:00");
}

#[test]
fn encode_negative_offset() {
    let t = ts(1999, 12, 31, 23, 59, 59, -(5 * 60 + 30));
    assert_eq!(encode_str(&t), "1999-12-31T23:59:59-05:30");
}

#[test]
fn encode_zero_offset_is_plus() {
    let t = ts(2000, 6, 1, 0, 0, 0, 0);
    assert_eq!(encode_str(&t), "2000-06-01T00:00:00+00:00");
}

#[test]
fn decode_concrete() {
    let t = decode_str("2024-01-15T12:34:56+09:00").unwrap();
    assert_eq!(t, ts(2024, 1, 15, 12, 34, 56, 540));
}

#[test]
fn round_trip_samples() {
    let samples = [
        ts(2024, 1, 15, 12, 34, 56, 540),
        ts(1999, 12, 31, 23, 59, 59, -330),
        ts(2000, 6, 1, 0, 0, 0, 0),
        ts(2024, 2, 29, 6, 7, 8, 60),
        ts(0, 1, 1, 0, 0, 0, -1439),
        ts(9999, 12, 31, 23, 59, 59, 1439),
    ];
    for t in samples {
        let back = decode_timestamp(&encode_timestamp(&t)).unwrap();
        assert_eq!(back, t);
    }
}

#[test]
fn decode_rejects_wrong_length() {
    assert_eq!(decode_str(""), Err(MemoError::TimestampDecodeError));
    assert_eq!(decode_str("2024-01-15T12:34:56"), Err(MemoError::TimestampDecodeError));
    assert_eq!(
        decode_str("2024-01-15T12:34:56.123+09:00"),
        Err(MemoError::TimestampDecodeError)
    );
}

#[test]
fn decode_rejects_bad_separators() {
    assert_eq!(decode_str("2024-01-15t12:34:56+09:00"), Err(MemoError::TimestampDecodeError));
    assert_eq!(decode_str("2024/01/15T12:34:56+09:00"), Err(MemoError::TimestampDecodeError));
    assert_eq!(decode_str("2024-01-15T12:34:56 09:00"), Err(MemoError::TimestampDecodeError));
}

#[test]
fn decode_rejects_non_digits() {
    assert_eq!(decode_str("2O24-01-15T12:34:56+09:00"), Err(MemoError::TimestampDecodeError));
    assert_eq!(decode_str("2024-01-15T12:34:5x+09:00"), Err(MemoError::TimestampDecodeError));
}

#[test]
fn decode_rejects_out_of_range_fields() {
    assert_eq!(decode_str("2024-13-15T12:34:56+09:00"), Err(MemoError::TimestampDecodeError));
    assert_eq!(decode_str("2024-00-15T12:34:56+09:00"), Err(MemoError::TimestampDecodeError));
    assert_eq!(decode_str("2024-01-32T12:34:56+09:00"), Err(MemoError::TimestampDecodeError));
    assert_eq!(decode_str("2024-01-00T12:34:56+09:00"), Err(MemoError::TimestampDecodeError));
    assert_eq!(decode_str("2024-01-15T24:34:56+09:00"), Err(MemoError::TimestampDecodeError));
    assert_eq!(decode_str("2024-01-15T12:60:56+09:00"), Err(MemoError::TimestampDecodeError));
    assert_eq!(decode_str("2024-01-15T12:34:60+09:00"), Err(MemoError::TimestampDecodeError));
    assert_eq!(decode_str("2024-01-15T12:34:56+24:00"), Err(MemoError::TimestampDecodeError));
    assert_eq!(decode_str("2024-01-15T12:34:56+09:60"), Err(MemoError::TimestampDecodeError));
}

#[test]
fn decode_rejects_invalid_calendar_days() {
    assert_eq!(decode_str("2023-02-29T00:00:00+00:00"), Err(MemoError::TimestampDecodeError));
    assert_eq!(decode_str("2100-02-29T00:00:00+00:00"), Err(MemoError::TimestampDecodeError));
    assert!(decode_str("2000-02-29T00:00:00+00:00").is_ok());
    assert_eq!(decode_str("2024-04-31T00:00:00+00:00"), Err(MemoError::TimestampDecodeError));
}

#[test]
fn decode_rejects_negative_zero_offset() {
    assert_eq!(decode_str("2024-01-15T12:34:56-00:00"), Err(MemoError::TimestampDecodeError));
    assert!(decode_str("2024-01-15T12:34:56-00:01").is_ok());
}

#[test]
fn timestamp_from_parts_takes_the_parts_as_given() {
    let t = timestamp_from_parts(2024, 1, 15, 12, 34, 56, 3600).unwrap();
    assert_eq!(t, ts(2024, 1, 15, 12, 34, 56, 60));
    assert_eq!(timestamp_from_parts(0, 1, 1, 0, 0, 0, 0).unwrap(), ts(0, 1, 1, 0, 0, 0, 0));
    assert_eq!(
        timestamp_from_parts(9999, 12, 31, 23, 59, 59, 86399).unwrap(),
        ts(9999, 12, 31, 23, 59, 59, 1439)
    );
}

#[test]
fn timestamp_from_parts_truncates_the_offset_toward_zero() {
    assert_eq!(timestamp_from_parts(2024, 1, 1, 0, 0, 0, 5430).unwrap().offset_minutes, 90);
    assert_eq!(timestamp_from_parts(2024, 1, 1, 0, 0, 0, -5430).unwrap().offset_minutes, -90);
    assert_eq!(timestamp_from_parts(2024, 1, 1, 0, 0, 0, -59).unwrap().offset_minutes, 0);
}

#[test]
fn timestamp_from_parts_rejects_years_beyond_four_digits() {
    assert_eq!(timestamp_from_parts(-1, 1, 1, 0, 0, 0, 0), None);
    assert_eq!(timestamp_from_parts(10000, 1, 1, 0, 0, 0, 0), None);
}

#[test]
fn now_local_is_a_valid_instant() {
    let t = now_local().expect("the present year fits four digits");
    assert!((1..=12).contains(&t.month));
    assert!((1..=31).contains(&t.day));
    assert!(t.hour <= 23 && t.minute <= 59 && t.second <= 59);
    assert!((2020..=9999).contains(&t.year));
    assert!((-1439..=1439).contains(&t.offset_minutes));
    let back = decode_timestamp(&encode_timestamp(&t)).unwrap();
    assert_eq!(back, t);
}
