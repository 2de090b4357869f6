use std::time::{Duration, SystemTime, UNIX_EPOCH};

use tokad::clock::{Timestamp, EXPIRE, JIFFY, REFRESH, REPLICATE, REPUBLISH, SECOND};

fn at(nanos: i128) -> Timestamp {
    Timestamp { nanos }
}

#[test]
fn the_clock_stands_between_two_readings() {
    let before = SystemTime::now().duration_since(UNIX_EPOCH).unwrap().as_nanos() as i128;
    let now = Timestamp::now();
    let after = SystemTime::now().duration_since(UNIX_EPOCH).unwrap().as_nanos() as i128;
    assert!(before <= now.nanos && now.nanos <= after);
}

#[test]
fn readings_before_the_epoch_are_negative() {
    assert_eq!(Timestamp::from_reading(Ok((2, 5))), at(2_000_000_005));
    assert_eq!(Timestamp::from_reading(Err((2, 5))), at(-2_000_000_005));
}

#[test]
fn an_instant_comes_back_cut_to_the_millisecond() {
    let t = at(1_700_000_000_123_456_789);
    assert_eq!(t.millis(), 1_700_000_000_123);
    assert_eq!(Timestamp::from_millis(t.millis()), at(1_700_000_000_123_000_000));
    assert_eq!(at(-1).millis(), 0);
    assert_eq!(at((1i128 << 64) * 1_000_000 + 3_000_000).millis(), 3);
}

#[test]
fn age_is_counted_exactly() {
    assert!(!at(0).older_than(10, at(10)));
    assert!(at(0).older_than(10, at(11)));
    assert!(at(0).as_old_as(10, at(10)));
    assert!(!at(1).as_old_as(10, at(10)));
    assert!(!at(i128::MAX).older_than(10, at(i128::MIN)));
}

#[test]
fn the_later_instant_counts() {
    assert_eq!(at(3).later(at(5)), at(5));
    assert_eq!(at(5).later(at(3)), at(5));
}

#[test]
fn instants_are_shown_in_seconds_and_nanoseconds() {
    let t = UNIX_EPOCH + Duration::new(12, 34);
    assert_eq!(at(12_000_000_034).to_string(), format!("{:?}", t));
    let t = UNIX_EPOCH - Duration::new(1, 1);
    assert_eq!(at(-1_000_000_001).to_string(), format!("{:?}", t));
}

#[test]
fn intervals_are_as_documented() {
    assert_eq!(JIFFY, SECOND);
    assert_eq!(EXPIRE, 240 * SECOND);
    assert_eq!(REFRESH, 40 * SECOND);
    assert_eq!(REPLICATE, 20 * SECOND);
    assert_eq!(REPUBLISH, 110 * SECOND);
}
