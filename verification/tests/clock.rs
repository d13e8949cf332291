use audiolink::clock::{now_millis, now_us, reading_millis, reading_us};

#[test]
fn readings_become_numbers() {
    assert_eq!(reading_us(None), 0);
    assert_eq!(reading_millis(None), 0);
    assert_eq!(reading_us(Some((2, 345_678_999))), 2_345_678);
    assert_eq!(reading_millis(Some((2, 345_678_999))), 2_345);
    assert_eq!(
        reading_us(Some((u64::MAX, 0))),
        (u64::MAX as u128 * 1_000_000) as u64
    );
}

#[test]
fn clock_runs_and_agrees_with_itself() {
    let ms = now_millis();
    let us = now_us();
    let later = now_millis();
    assert!(ms > 1_600_000_000_000);
    assert!(us / 1_000 >= ms);
    assert!(us / 1_000 <= later);
}
