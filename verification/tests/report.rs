use keyboard::keycode::{KEY_A, KEY_B, KEY_C, NO_EVENT};
use keyboard::{encode, Indicator, BOOT_REPORT_CAPACITY};

#[test]
fn single_key_goes_to_the_first_slot() {
    let report = encode(&[KEY_B], BOOT_REPORT_CAPACITY);
    assert_eq!(report.slots(), &[KEY_B, 0, 0, 0, 0, 0]);
    assert!(!report.overflowed());
    assert!(!report.is_empty());
    assert_eq!(report.capacity(), 6);
}

#[test]
fn no_keys_give_the_empty_report() {
    let report = encode(&[], BOOT_REPORT_CAPACITY);
    assert_eq!(report.slots(), &[NO_EVENT; 6]);
    assert!(report.is_empty());
    assert!(!report.overflowed());
}

#[test]
fn boot_report_has_six_slots() {
    assert_eq!(BOOT_REPORT_CAPACITY, 6);
    assert_eq!(encode(&[KEY_A], BOOT_REPORT_CAPACITY).slots().len(), 6);
}

#[test]
fn three_keys_in_two_slots_keep_the_first_two() {
    let report = encode(&[KEY_A, KEY_B, KEY_C], 2);
    assert_eq!(report.slots(), &[KEY_A, KEY_B]);
    assert!(report.overflowed());
}

#[test]
fn overflow_keeps_the_keys_that_come_first_not_the_smallest() {
    let report = encode(&[0x20, 0x10, 0x08, 0x04], 2);
    assert_eq!(report.slots(), &[0x10, 0x20]);
    assert!(report.overflowed());
}

#[test]
fn seven_keys_overflow_a_boot_report() {
    let report = encode(&[10, 11, 12, 13, 14, 15, 16], BOOT_REPORT_CAPACITY);
    assert_eq!(report.slots(), &[10, 11, 12, 13, 14, 15]);
    assert!(report.overflowed());
}

#[test]
fn six_keys_fill_a_boot_report_without_overflow() {
    let report = encode(&[15, 14, 13, 12, 11, 10], BOOT_REPORT_CAPACITY);
    assert_eq!(report.slots(), &[10, 11, 12, 13, 14, 15]);
    assert!(!report.overflowed());
}

#[test]
fn order_of_the_keys_does_not_change_the_report() {
    let orders: [[u8; 3]; 6] = [
        [KEY_A, KEY_B, KEY_C],
        [KEY_A, KEY_C, KEY_B],
        [KEY_B, KEY_A, KEY_C],
        [KEY_B, KEY_C, KEY_A],
        [KEY_C, KEY_A, KEY_B],
        [KEY_C, KEY_B, KEY_A],
    ];
    let expected = encode(&orders[0], BOOT_REPORT_CAPACITY);
    assert_eq!(expected.slots(), &[KEY_A, KEY_B, KEY_C, 0, 0, 0]);
    for order in orders.iter() {
        assert_eq!(encode(order, BOOT_REPORT_CAPACITY), expected);
    }
}

#[test]
fn repeated_keys_take_one_slot() {
    let report = encode(&[KEY_A, KEY_A, KEY_B, KEY_A], BOOT_REPORT_CAPACITY);
    assert_eq!(report.slots(), &[KEY_A, KEY_B, 0, 0, 0, 0]);
    assert!(!report.overflowed());
}

#[test]
fn repeated_keys_do_not_cause_overflow() {
    let report = encode(&[KEY_A, KEY_A, KEY_A, KEY_B], 2);
    assert_eq!(report.slots(), &[KEY_A, KEY_B]);
    assert!(!report.overflowed());
}

#[test]
fn a_repeat_of_a_dropped_key_does_not_displace_a_kept_one() {
    let report = encode(&[KEY_C, KEY_B, KEY_A, KEY_A, KEY_C], 2);
    assert_eq!(report.slots(), &[KEY_B, KEY_C]);
    assert!(report.overflowed());
}

#[test]
fn no_event_takes_no_slot() {
    let report = encode(&[NO_EVENT, KEY_C, NO_EVENT], BOOT_REPORT_CAPACITY);
    assert_eq!(report.slots(), &[KEY_C, 0, 0, 0, 0, 0]);
    let report = encode(&[NO_EVENT, NO_EVENT, NO_EVENT], 2);
    assert!(report.is_empty());
    assert!(!report.overflowed());
}

#[test]
fn report_without_slots_drops_every_key() {
    let report = encode(&[KEY_A], 0);
    assert_eq!(report.slots(), &[] as &[u8]);
    assert_eq!(report.capacity(), 0);
    assert!(report.overflowed());
    assert!(report.is_empty());
    let report = encode(&[], 0);
    assert!(!report.overflowed());
}

#[test]
fn highest_usage_id_is_encoded() {
    let report = encode(&[0xFF, 0x01], 3);
    assert_eq!(report.slots(), &[0x01, 0xFF, 0x00]);
}

#[test]
fn indicator_is_on_exactly_if_a_key_is_held() {
    assert_eq!(Indicator::for_keys(&[]), Indicator::Off);
    assert_eq!(Indicator::for_keys(&[NO_EVENT, NO_EVENT]), Indicator::Off);
    assert_eq!(Indicator::for_keys(&[KEY_B]), Indicator::On);
    assert_eq!(Indicator::for_keys(&[NO_EVENT, KEY_A]), Indicator::On);
}

#[test]
fn indicator_follows_the_active_signal() {
    assert_eq!(Indicator::from_active(true), Indicator::On);
    assert_eq!(Indicator::from_active(false), Indicator::Off);
    assert!(Indicator::On.is_on());
    assert!(!Indicator::Off.is_on());
}
