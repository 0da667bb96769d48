use kiri::{Key, KeyInput, KeyInputKind, Timestamp};

#[test]
fn key_keeps_its_code() {
    assert_eq!(Key::new(30).code(), 30);
    assert_eq!(Key::new(0xffff), Key(0xffff));
}

#[test]
fn press_and_release_name_the_kind() {
    assert_eq!(KeyInput::press(Key(30)), KeyInput(Key(30), KeyInputKind::Press));
    assert_eq!(KeyInput::release(Key(30)), KeyInput(Key(30), KeyInputKind::Release));
    assert_ne!(KeyInput::press(Key(30)), KeyInput::release(Key(30)));
}

#[test]
fn kind_to_event_value() {
    assert_eq!(i32::from(KeyInputKind::Press), 1);
    assert_eq!(i32::from(KeyInputKind::Release), 0);
}

#[test]
fn event_value_to_kind() {
    assert_eq!(KeyInputKind::from(0), KeyInputKind::Release);
    assert_eq!(KeyInputKind::from(1), KeyInputKind::Press);
    assert_eq!(KeyInputKind::from(2), KeyInputKind::Press);
}

#[test]
fn unusual_event_values_are_releases() {
    assert_eq!(KeyInputKind::from(3), KeyInputKind::Release);
    assert_eq!(KeyInputKind::from(-1), KeyInputKind::Release);
    assert_eq!(KeyInputKind::from(i32::MAX), KeyInputKind::Release);
}

#[test]
fn timestamp_from_millis_counts_microseconds() {
    assert_eq!(Timestamp::from_millis(0).micros, 0);
    assert_eq!(Timestamp::from_millis(20).micros, 20_000);
    assert_eq!(Timestamp::from_micros(20_000), Timestamp::from_millis(20));
}

#[test]
fn timestamp_from_millis_stops_at_the_latest_time() {
    assert_eq!(Timestamp::from_millis(u64::MAX / 1000).micros, (u64::MAX / 1000) * 1000);
    assert_eq!(Timestamp::from_millis(u64::MAX / 1000 + 1).micros, u64::MAX);
    assert_eq!(Timestamp::from_millis(u64::MAX).micros, u64::MAX);
}

#[test]
fn within_counts_whole_milliseconds() {
    let start = Timestamp::from_micros(1_000_000);
    assert!(start.within(Timestamp::from_micros(1_000_000), 0));
    assert!(start.within(Timestamp::from_micros(1_000_999), 0));
    assert!(!start.within(Timestamp::from_micros(1_001_000), 0));
    assert!(start.within(Timestamp::from_micros(1_050_000), 50));
    assert!(start.within(Timestamp::from_micros(1_050_999), 50));
    assert!(!start.within(Timestamp::from_micros(1_051_000), 50));
}

#[test]
fn within_holds_for_an_earlier_time() {
    let start = Timestamp::from_micros(1_000_000);
    assert!(start.within(Timestamp::from_micros(999_999), 0));
    assert!(start.within(Timestamp::from_micros(0), 0));
}

#[test]
fn within_with_the_largest_threshold() {
    let start = Timestamp::from_micros(0);
    assert!(start.within(Timestamp::from_micros(4_294_967_295_999), u32::MAX));
    assert!(!start.within(Timestamp::from_micros(4_294_967_296_000), u32::MAX));
    assert!(!start.within(Timestamp::from_micros(u64::MAX), u32::MAX));
}
