use splitter::clock::{Clock, NANOS_PER_FRAME};

#[test]
fn tick_length_is_a_sixtieth_of_a_second() {
    assert_eq!(NANOS_PER_FRAME, 16_666_666);
    let c = Clock::new();
    assert_eq!(c.nanos_per_frame, 16_666_666);
    assert_eq!(c.nanos_cumul, 0);
    assert_eq!(c.frame_delta, 0);
    assert_eq!(c.last_update_nanos, 0);
}

#[test]
fn first_frame_never_ticks() {
    let mut c = Clock::new();
    assert!(!c.frame(5_000_000_000));
    assert_eq!(c.nanos_cumul, 0);
    assert_eq!(c.last_update_nanos, 5_000_000_000);
}

#[test]
fn two_frames_within_one_tick_length_do_not_tick() {
    let mut c = Clock::new();
    assert!(!c.frame(1_000));
    assert!(!c.frame(1_000 + 16_666_665));
    assert_eq!(c.nanos_cumul, 16_666_665);
    assert_eq!(c.frame_delta, 16_666_665);
}

#[test]
fn one_tick_goes_when_one_tick_length_has_passed() {
    let mut c = Clock::new();
    assert!(!c.frame(1_000));
    assert!(c.frame(1_000 + 16_666_666));
    assert_eq!(c.nanos_cumul, 0);
    assert!(!c.frame(1_000 + 16_666_666 + 10));
    assert_eq!(c.nanos_cumul, 10);
}

#[test]
fn a_long_frame_gives_one_tick_and_keeps_the_rest() {
    let mut c = Clock::new();
    assert!(!c.frame(1));
    // three and a half tick lengths at once
    assert!(c.frame(1 + 58_333_331));
    assert_eq!(c.nanos_cumul, 58_333_331 - 16_666_666);
    // the rest is used up by later frames, one tick each
    assert!(c.frame(1 + 58_333_331));
    assert!(c.frame(1 + 58_333_331));
    assert!(!c.frame(1 + 58_333_331));
    assert_eq!(c.nanos_cumul, 58_333_331 - 3 * 16_666_666);
}

#[test]
fn ticks_never_outrun_the_time_elapsed() {
    let mut c = Clock::new();
    let start = 10u64;
    assert!(!c.frame(start));
    let mut now = start;
    let mut ticks = 0u64;
    for k in 0..1000u64 {
        now += (k * 7_919) % 40_000_000;
        if c.frame(now) {
            ticks += 1;
        }
        assert_eq!(ticks * 16_666_666 + c.nanos_cumul, now - start);
    }
    assert!(ticks <= (now - start) / 16_666_666);
}

#[test]
fn a_reading_that_runs_backwards_is_not_taken() {
    let mut c = Clock::new();
    c.frame(1_000);
    c.frame(2_000);
    assert!(!c.can_take(1_999));
    assert!(!c.frame(1_999));
    assert_eq!(c.last_update_nanos, 2_000);
    assert_eq!(c.nanos_cumul, 1_000);
    assert!(c.can_take(2_000));
}

#[test]
fn a_reading_that_would_overflow_is_not_taken() {
    let mut c = Clock { last_update_nanos: 1, frame_delta: 0, nanos_cumul: u64::MAX - 5, nanos_per_frame: u64::MAX };
    assert!(!c.can_take(10));
    assert!(!c.frame(10));
    assert_eq!(c.last_update_nanos, 1);
    assert!(c.can_take(6));
    assert!(c.frame(6));
    assert_eq!(c.nanos_cumul, 0);
}

#[test]
fn advance_and_drain_are_the_two_halves_of_a_frame() {
    let mut c = Clock::new();
    c.advance(100);
    assert!(!c.drain());
    c.advance(100 + 20_000_000);
    assert_eq!(c.nanos_cumul, 20_000_000);
    assert!(c.drain());
    assert_eq!(c.nanos_cumul, 20_000_000 - 16_666_666);
    assert!(!c.drain());
}

#[test]
fn update_delta_takes_the_reading_of_the_counter() {
    let mut c = Clock::new();
    let (first, taken) = c.update_delta();
    assert!(taken);
    assert_eq!(c.last_update_nanos, first);
    assert_eq!(c.nanos_cumul, 0);
    let (second, taken) = c.update_delta();
    assert!(taken);
    assert!(second >= first);
    assert_eq!(c.last_update_nanos, second);
    if first != 0 {
        assert_eq!(c.frame_delta, second - first);
        assert_eq!(c.nanos_cumul, second - first);
    }
}
