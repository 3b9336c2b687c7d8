use anti_tower::timer::{Timer, TimerMode};

const SECOND: u64 = 1_000_000_000;

#[test]
fn new_timer_has_not_run() {
    let timer = Timer::new(2 * SECOND, TimerMode::Repeating);
    assert_eq!(timer.duration(), 2 * SECOND);
    assert_eq!(timer.elapsed(), 0);
    assert_eq!(timer.mode(), TimerMode::Repeating);
    assert!(!timer.finished());
    assert!(!timer.just_finished());
    assert_eq!(timer.times_finished_this_tick(), 0);
}

#[test]
fn spawner_timer_fires_on_the_fourth_tick() {
    let mut timer = Timer::new(2 * SECOND, TimerMode::Repeating);
    let mut fired = Vec::new();
    for delta in [500_000_000u64, 500_000_000, 500_000_000, 600_000_000] {
        timer.tick(delta);
        fired.push(timer.just_finished());
    }
    assert_eq!(fired, vec![false, false, false, true]);
    assert_eq!(timer.elapsed(), 100_000_000);
    assert!(timer.finished());
}

#[test]
fn repeating_timer_fires_once_per_period() {
    let mut timer = Timer::new(2 * SECOND, TimerMode::Repeating);
    let mut fired = 0;
    for _ in 0..12 {
        timer.tick(1_500_000_000);
        if timer.just_finished() {
            fired += 1;
        }
    }
    // 12 ticks of 1.5 s are 18 s: nine periods of 2 s.
    assert_eq!(fired, 9);
    assert_eq!(timer.elapsed(), 0);
}

#[test]
fn repeating_timer_is_finished_only_after_a_completing_tick() {
    let mut timer = Timer::new(SECOND, TimerMode::Repeating);
    timer.tick(SECOND);
    assert!(timer.finished());
    assert!(timer.just_finished());
    assert_eq!(timer.elapsed(), 0);
    timer.tick(SECOND / 2);
    assert!(!timer.finished());
    assert!(!timer.just_finished());
    assert_eq!(timer.elapsed(), SECOND / 2);
}

#[test]
fn one_large_tick_fires_once() {
    let mut timer = Timer::new(2 * SECOND, TimerMode::Repeating);
    timer.tick(5 * SECOND);
    assert!(timer.just_finished());
    assert_eq!(timer.times_finished_this_tick(), 2);
    assert_eq!(timer.elapsed(), SECOND);
    timer.tick(SECOND / 2);
    assert!(!timer.just_finished());
    assert_eq!(timer.times_finished_this_tick(), 0);
}

#[test]
fn once_timer_fires_once_and_stays_finished() {
    let mut timer = Timer::new(6 * SECOND, TimerMode::Once);
    timer.tick(4 * SECOND);
    assert!(!timer.finished());
    assert!(!timer.just_finished());
    assert_eq!(timer.elapsed(), 4 * SECOND);
    timer.tick(4 * SECOND);
    assert!(timer.finished());
    assert!(timer.just_finished());
    assert_eq!(timer.times_finished_this_tick(), 1);
    assert_eq!(timer.elapsed(), 6 * SECOND);
    timer.tick(4 * SECOND);
    assert!(timer.finished());
    assert!(!timer.just_finished());
    assert_eq!(timer.elapsed(), 6 * SECOND);
}

#[test]
fn repeating_timer_of_no_duration_always_fires() {
    let mut timer = Timer::new(0, TimerMode::Repeating);
    timer.tick(SECOND);
    assert!(timer.finished());
    assert!(timer.just_finished());
    assert_eq!(timer.times_finished_this_tick(), u32::MAX);
    assert_eq!(timer.elapsed(), 0);
}

#[test]
fn once_timer_of_no_duration_fires_on_its_first_tick() {
    let mut timer = Timer::new(0, TimerMode::Once);
    assert!(!timer.finished());
    timer.tick(0);
    assert!(timer.finished());
    assert!(timer.just_finished());
    timer.tick(0);
    assert!(!timer.just_finished());
}

#[test]
fn completion_count_is_kept_in_32_bits() {
    // 2^32 periods of one nanosecond in one tick: the count wraps to zero.
    let mut timer = Timer::new(1, TimerMode::Repeating);
    timer.tick(1u64 << 32);
    assert!(timer.finished());
    assert_eq!(timer.times_finished_this_tick(), 0);
    assert!(!timer.just_finished());
}

#[test]
fn longest_times_do_not_overflow() {
    let mut timer = Timer::new(u64::MAX, TimerMode::Repeating);
    timer.tick(u64::MAX - 1);
    assert!(!timer.just_finished());
    assert_eq!(timer.elapsed(), u64::MAX - 1);
    timer.tick(u64::MAX);
    assert!(timer.just_finished());
    assert_eq!(timer.times_finished_this_tick(), 1);
    assert_eq!(timer.elapsed(), u64::MAX - 1);
}

#[test]
fn reset_puts_a_timer_back() {
    let mut timer = Timer::new(SECOND, TimerMode::Once);
    timer.tick(2 * SECOND);
    assert!(timer.finished());
    timer.reset();
    assert_eq!(timer, Timer::new(SECOND, TimerMode::Once));
}
