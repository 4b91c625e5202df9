use interpreter::Freq;
use interpreter::Timer;

const PERIOD: u64 = 1_000_000_000 / 60;

#[test]
fn timer_new_holds_its_value() {
    let t = Timer::new(9);
    assert_eq!(t.val(), 9);
    let z = Timer::zero();
    assert_eq!(z.val(), 0);
}

#[test]
fn timer_with_default_freq_matches_new() {
    let t = Timer::with_freq(5, Freq::default());
    assert_eq!(t.val(), 5);
}

#[test]
fn timer_three_periods_exhaust_a_value_of_three() {
    let mut t = Timer::new(3);
    t.advance(3 * PERIOD);
    assert_eq!(t.val(), 0);
    t.advance(10 * PERIOD);
    assert_eq!(t.val(), 0);
}

#[test]
fn timer_does_not_tick_before_a_full_period() {
    let mut t = Timer::new(3);
    t.advance(PERIOD - 1);
    assert_eq!(t.val(), 3);
    t.advance(1);
    assert_eq!(t.val(), 2);
}

#[test]
fn timer_catches_up_over_a_long_gap() {
    let mut t = Timer::new(200);
    t.advance(45 * PERIOD);
    assert_eq!(t.val(), 155);
}

#[test]
fn timer_saturates_at_zero() {
    let mut t = Timer::new(2);
    t.advance(100 * PERIOD);
    assert_eq!(t.val(), 0);
}

#[test]
fn timer_update_never_raises_the_value() {
    let mut t = Timer::new(7);
    t.update();
    assert!(t.val() <= 7);
}
