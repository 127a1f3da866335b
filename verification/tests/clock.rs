use btdt::util::clock::{Clock, SystemClock, TimeDelta, Timestamp};

#[test]
fn timestamp_is_made_of_seconds_and_nanoseconds() {
    let t = Timestamp::new(12, 34).unwrap();
    assert_eq!(t.timestamp(), 12);
    assert_eq!(t.timestamp_subsec_nanos(), 34);
    assert_eq!(t.checked(), t);
}

#[test]
fn timestamp_out_of_range_does_not_exist() {
    assert!(Timestamp::new(0, 0).is_some());
    assert!(Timestamp::new(-1, 999_999_999).is_some());
    assert!(Timestamp::new(0, 2_000_000_000).is_none());
    assert!(Timestamp::new(0, 1_000_000_000).is_none());
    assert!(Timestamp::new(59, 1_000_000_000).is_some());
    assert!(Timestamp::new(i64::MAX, 0).is_none());
    assert!(Timestamp::new(i64::MIN, 0).is_none());
}

#[test]
fn timestamps_are_ordered_by_time() {
    let early = Timestamp::new(10, 999_999_999).unwrap();
    let late = Timestamp::new(11, 0).unwrap();
    assert!(late.is_at_or_after(&early));
    assert!(!early.is_at_or_after(&late));
    assert!(early.is_at_or_after(&early));
    assert_eq!(early.latest(late), late);
    assert_eq!(late.latest(early), late);
    let before_epoch = Timestamp::new(-5, 1).unwrap();
    assert!(early.is_at_or_after(&before_epoch));
    assert_eq!(before_epoch.latest(early), early);
}

#[test]
fn timestamp_is_within_an_age_of_now() {
    let now = Timestamp::new(1_000, 500).unwrap();
    let age = TimeDelta::seconds(100);
    assert!(Timestamp::new(900, 500).unwrap().is_within(&age, &now));
    assert!(!Timestamp::new(900, 499).unwrap().is_within(&age, &now));
    assert!(Timestamp::new(2_000, 0).unwrap().is_within(&age, &now));
    assert!(!now.is_within(&TimeDelta::seconds(-1), &now));
    assert!(now.is_within(&TimeDelta::new(0, 0), &now));
}

#[test]
fn time_delta_counts_days_in_seconds() {
    assert_eq!(TimeDelta::days(2), TimeDelta::seconds(172_800));
    assert_eq!(TimeDelta::days(-1), TimeDelta::new(-86_400, 0));
    assert_eq!(TimeDelta::new(3, 7).whole_seconds(), 3);
    assert_eq!(TimeDelta::new(3, 7).subsec_nanos(), 7);
}

#[test]
fn system_clock_does_not_go_back_before_2020() {
    let now = SystemClock.now();
    assert!(now.timestamp() > 1_577_836_800);
    assert!(now.timestamp_subsec_nanos() < 2_000_000_000);
    assert!(SystemClock::default().now().is_at_or_after(&now));
}

#[test]
fn points_in_time_exist_within_the_range_of_dates() {
    assert!(Timestamp::new(-8_334_601_228_800, 0).is_some());
    assert!(Timestamp::new(-8_334_601_228_801, 0).is_none());
    assert!(Timestamp::new(-8_334_601_228_801, 999_999_999).is_none());
    assert!(Timestamp::new(8_210_266_876_799, 999_999_999).is_some());
    assert!(Timestamp::new(8_210_266_876_799, 1_999_999_999).is_some());
    assert!(Timestamp::new(8_210_266_876_800, 0).is_none());
    assert!(Timestamp::new(i64::MIN, 0).is_none());
    assert!(Timestamp::new(i64::MAX, 0).is_none());
    assert!(Timestamp::new(0, 999_999_999).is_some());
    assert!(Timestamp::new(0, 1_000_000_000).is_none());
    assert!(Timestamp::new(58, 1_000_000_000).is_none());
    assert!(Timestamp::new(59, 1_000_000_000).is_some());
    assert!(Timestamp::new(59, 1_999_999_999).is_some());
    assert!(Timestamp::new(59, 2_000_000_000).is_none());
    assert!(Timestamp::new(59, u32::MAX).is_none());
    assert!(Timestamp::new(-1, 1_500_000_000).is_some());
    assert!(Timestamp::new(-2, 1_500_000_000).is_none());
    assert!(Timestamp::new(-61, 1_000_000_000).is_some());
    assert!(Timestamp::new(86_399, 1_000_000_000).is_some());
    assert!(Timestamp::new(86_400, 1_000_000_000).is_none());
    assert!(Timestamp::new(1_700_000_038, 1_000_000_000).is_none());
    assert!(Timestamp::new(1_700_000_039, 1_000_000_000).is_some());
}
