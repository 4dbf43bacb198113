use cobalt_two::time::millis;
use cobalt_two::{precise_time_ms, InternalMessage, Timer};

const MS: u64 = 1_000_000;

#[test]
fn pacing_waits_out_the_rest_of_the_tick() {
    let mut t = Timer::new(10);
    assert_eq!(t.pace(40 * MS), 60 * MS);
}

#[test]
fn pacing_carries_an_overrun_into_the_next_tick() {
    let mut t = Timer::new(10);
    assert_eq!(t.pace(40 * MS), 60 * MS);
    // The wait ended at 100ms; this tick worked 140ms.
    assert_eq!(t.pace(240 * MS), 0);
    // The next tick works 40ms; 40ms of the overrun is still owed.
    assert_eq!(t.pace(280 * MS), 20 * MS);
}

#[test]
fn pacing_runs_back_to_back_until_the_backlog_clears() {
    let mut t = Timer::new(10);
    assert_eq!(t.pace(350 * MS), 0);
    assert_eq!(t.pace(350 * MS), 0);
    assert_eq!(t.pace(350 * MS), 0);
    assert_eq!(t.pace(350 * MS), 50 * MS);
}

#[test]
fn sleep_never_asks_for_more_than_a_tick() {
    let mut t = Timer::new(20);
    assert!(t.sleep() <= 50 * MS);
}

#[test]
fn millis_of_seconds_and_nanoseconds() {
    assert_eq!(millis(2, 345_678_901), 2345);
    assert_eq!(millis(u64::MAX, 0), u64::MAX);
}

#[test]
fn wall_clock_is_after_2017() {
    assert!(precise_time_ms() > 1_483_228_800_000);
}

#[test]
fn first_tick_pings_once_due_and_advances() {
    let mut t = Timer::new(10);
    // Eight ticks of 100ms have not passed yet.
    let out = t.receive_at(Vec::new(), 5000, 800 * MS);
    assert!(out.is_empty());
    let out = t.receive_at(Vec::new(), 5001, 800 * MS + 1);
    assert_eq!(out, vec![InternalMessage::Ping(1, 5001)]);
    let out = t.receive_at(Vec::new(), 5002, 900 * MS);
    assert!(out.is_empty());
}

#[test]
fn pings_are_answered_with_pongs() {
    let mut t = Timer::new(10);
    let out = t.receive_at(
        vec![InternalMessage::Ping(4, 100), InternalMessage::Ping(5, 200)],
        777,
        0,
    );
    assert_eq!(out, vec![InternalMessage::Pong(4, 100, 777), InternalMessage::Pong(5, 200, 777)]);
}

#[test]
fn pong_feeds_round_trip_and_clock_estimates() {
    let mut t = Timer::new(10);
    for _ in 0..3 {
        t.receive_at(Vec::new(), 0, 0);
    }
    // At tick 3, a pong for tick 0 sent at 1000ms, answered at 1300ms, received at 1500ms.
    t.receive_at(vec![InternalMessage::Pong(0, 1000, 1300)], 1500, 0);
    // expected = (3 - 1) * 100 = 200ms, actual = 500 - 100 = 400ms, mean 300ms.
    assert_eq!(t.rtt(), 300_000);
    // ((1300 - 1000) + (1300 - 1500)) / 2 = 50ms, blended half with 0.
    assert_eq!(t.clock(), 25_000);
}

#[test]
fn outlier_round_trip_does_not_move_the_clock() {
    let mut t = Timer::new(10);
    t.receive_at(vec![InternalMessage::Pong(0, 1000, 1100)], 1100, 0);
    assert_eq!(t.rtt(), 0);
    assert_eq!(t.clock(), 25_000);
    for _ in 0..15 {
        t.receive_at(vec![InternalMessage::Pong(0, 1000, 1100)], 1100, 0);
    }
    let clock_before = t.clock();
    // A far slower round trip than the running mean.
    t.receive_at(vec![InternalMessage::Pong(0, 0, 100_000)], 200_000, 0);
    assert!(t.rtt() > 0);
    assert_eq!(t.clock(), clock_before);
}

#[test]
fn tick_wraps_after_256() {
    let mut t = Timer::new(10);
    for _ in 0..256 {
        t.receive_at(Vec::new(), 0, 0);
    }
    let out = t.receive_at(Vec::new(), 9, 801 * MS);
    assert_eq!(out, vec![InternalMessage::Ping(0, 9)]);
}

#[test]
fn clone_keeps_tick_and_starts_estimates_fresh() {
    let mut t = Timer::new(10);
    t.receive_at(vec![InternalMessage::Pong(0, 0, 100)], 400, 0);
    t.receive_at(Vec::new(), 0, 0);
    let mut c = t.clone();
    assert_eq!(c.rtt(), 0);
    let out = c.receive_at(Vec::new(), 3, 801 * MS);
    assert_eq!(out, vec![InternalMessage::Ping(2, 3)]);
}

#[test]
fn outlier_bound_is_exactly_one_and_a_half_times_the_mean() {
    let mut t = Timer::new(10);
    // Round-trip samples 0us, 500us, 500us; the last equals 1.5 times the
    // mean 1000/3 us of the window it enters, so its clock sample counts.
    t.receive_at(vec![InternalMessage::Pong(0, 1000, 1000)], 1000, 0);
    t.receive_at(vec![InternalMessage::Pong(1, 1000, 2000)], 1101, 0);
    assert_eq!(t.clock(), 0);
    t.receive_at(vec![InternalMessage::Pong(2, 1000, 3000)], 1101, 0);
    assert_eq!(t.rtt(), 333);
    assert_eq!(t.clock(), 487_375);
}
