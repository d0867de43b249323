use keyboard::PeriodicTimer;

#[test]
fn timer_first_fires_one_period_after_its_start() {
    let mut timer = PeriodicTimer::start(5_000, 1_000);
    assert_eq!(timer.period(), 1_000);
    assert_eq!(timer.deadline(), 6_000);
    assert!(!timer.poll(5_000));
    assert!(!timer.poll(5_999));
    assert!(timer.poll(6_000));
}

#[test]
fn timer_rearms_at_once_for_the_same_period() {
    let mut timer = PeriodicTimer::start(0, 1_000);
    assert!(timer.poll(1_000));
    assert_eq!(timer.deadline(), 2_000);
    assert!(!timer.poll(1_000));
    assert!(!timer.poll(1_999));
    assert!(timer.poll(2_000));
    assert_eq!(timer.deadline(), 3_000);
}

#[test]
fn a_late_poll_does_not_shift_the_next_deadline() {
    let mut timer = PeriodicTimer::start(0, 1_000);
    assert!(timer.poll(1_700));
    assert_eq!(timer.deadline(), 2_000);
    assert!(timer.poll(2_000));
}

#[test]
fn a_timer_that_fell_behind_fires_on_every_poll_until_it_caught_up() {
    let mut timer = PeriodicTimer::start(0, 1_000);
    assert!(timer.poll(3_500));
    assert!(timer.poll(3_500));
    assert!(timer.poll(3_500));
    assert!(!timer.poll(3_500));
    assert_eq!(timer.deadline(), 4_000);
}

#[test]
fn an_unfired_poll_leaves_the_timer_unchanged() {
    let mut timer = PeriodicTimer::start(100, 50);
    let before = timer;
    assert!(!timer.poll(120));
    assert_eq!(timer, before);
}

#[test]
fn periods_in_milliseconds_count_a_thousand_microseconds_each() {
    let timer = PeriodicTimer::start_millis(0, 10);
    assert_eq!(timer.period(), 10_000);
    assert_eq!(timer.deadline(), 10_000);
    let timer = PeriodicTimer::start_millis(250, 1);
    assert_eq!(timer.period(), 1_000);
    assert_eq!(timer.deadline(), 1_250);
    let timer = PeriodicTimer::start_millis(0, u32::MAX);
    assert_eq!(timer.period(), 4_294_967_295_000);
}

#[test]
fn deadline_is_held_at_the_end_of_the_clock() {
    let mut timer = PeriodicTimer::start(u64::MAX - 10, 100);
    assert_eq!(timer.deadline(), u64::MAX);
    assert!(!timer.poll(u64::MAX - 1));
    assert!(timer.poll(u64::MAX));
    assert_eq!(timer.deadline(), u64::MAX);
}

#[test]
fn zero_period_fires_on_every_poll() {
    let mut timer = PeriodicTimer::start(7, 0);
    assert!(timer.poll(7));
    assert!(timer.poll(7));
    assert_eq!(timer.deadline(), 7);
}

#[test]
fn a_timer_polled_within_each_period_fires_once_per_period() {
    let period = 1_000u64;
    let mut timer = PeriodicTimer::start(0, period);
    let mut fired = 0u64;
    let mut now = 0u64;
    let first = now;
    // polls 700 microseconds apart, with a burst of scan work every tenth
    for pass in 0..1_000u64 {
        if timer.poll(now) {
            fired += 1;
        }
        now += if pass % 10 == 0 { 1_000 } else { 700 };
    }
    let last = now - 700;
    assert_eq!(last - first, 729_300);
    assert!(fired >= (last - first) / period);
    assert_eq!(fired, 729);
}
