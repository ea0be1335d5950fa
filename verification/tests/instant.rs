use pinki::instant::{parse_instant, Instant};
use pinki::verbs::parse_until;

#[test]
fn an_instant_is_read_and_printed_as_jiff_does() {
    let i = Instant::parse("2026-09-01T10:00:00-07:00").unwrap();
    assert_eq!(i.to_text(), "2026-09-01T17:00:00Z");
    assert_eq!(i.nanos(), 1_788_282_000_000_000_000);
}

#[test]
fn a_naive_datetime_is_refused_with_jiffs_account() {
    assert!(Instant::parse("2026-09-01T17:00:00").is_none());
    assert!(parse_instant("sometime next week").is_none());
    // jiff's own account of the refusal is carried into the message.
    let why = parse_until("2026-09-01T17:00:00").unwrap_err();
    assert!(why
        .message()
        .starts_with("--until `2026-09-01T17:00:00` is not an ISO-8601 instant: "));
    assert!(why.message().len() > 200);
}

#[test]
fn fractions_of_a_second_are_dropped_toward_the_epoch() {
    let i = Instant::from_nanosecond(1_500_000_000).unwrap();
    assert_eq!(i.to_the_second().nanos(), 1_000_000_000);
    let before = Instant::from_nanosecond(-1_500_000_000).unwrap();
    assert_eq!(before.to_the_second().nanos(), -1_000_000_000);
    let whole = Instant::parse("2026-08-28T20:14:03.123456789Z").unwrap();
    assert_eq!(whole.to_the_second().to_text(), "2026-08-28T20:14:03Z");
}

#[test]
fn instants_out_of_range_are_refused() {
    assert!(Instant::from_nanosecond(i128::MAX).is_none());
    assert!(Instant::from_nanosecond(0).is_some());
    assert_eq!(Instant::from_nanosecond(0).unwrap().to_text(), "1970-01-01T00:00:00Z");
}

#[test]
fn the_representable_range_is_jiffs() {
    let min = jiff::Timestamp::MIN.as_nanosecond();
    let max = jiff::Timestamp::MAX.as_nanosecond();
    assert_eq!(pinki::instant::MIN_NANOS, min);
    assert_eq!(pinki::instant::MAX_NANOS, max);
    assert!(Instant::from_nanosecond(min).is_some());
    assert!(Instant::from_nanosecond(min - 1).is_none());
    assert!(Instant::from_nanosecond(max).is_some());
    assert!(Instant::from_nanosecond(max + 1).is_none());
    assert_eq!(
        Instant::from_nanosecond(max).unwrap().to_the_second().nanos(),
        max - 999_999_999
    );
}
