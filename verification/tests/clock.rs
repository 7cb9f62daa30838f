use backrun::clock::{now_unix, seconds_or_zero};

#[test]
fn clock_stands_after_2020() {
    assert!(now_unix() > 1_577_836_800);
}

#[test]
fn clock_before_the_epoch_counts_as_zero() {
    assert_eq!(seconds_or_zero(None), 0);
    assert_eq!(seconds_or_zero(Some(17)), 17);
}
