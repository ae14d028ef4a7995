use fritz_homeautomation::config::{interval_starts, Interval, State};
use fritz_homeautomation::time::{now, LocalDateTime, TimeDelta};
use fritz_homeautomation::timer::{
    after_tick, TimerConfig, TimerState, TimerStep, WaitOutcome, WaitResult,
};

fn plus(t: LocalDateTime, ms: i64) -> LocalDateTime {
    LocalDateTime { ms: t.ms + ms }
}

#[test]
fn test_update_times() {
    let mut timer = TimerState::default();
    let now = now();
    let times = [plus(now, -3000), plus(now, 10_000), plus(now, 3000)];

    timer.times.push(times[0]);
    timer.times.push(times[1]);
    timer.times.push(times[2]);
    timer.update_times(now);

    assert_eq!(timer.times.len(), 2);
    assert_eq!(timer.times[0], times[2]);
    assert_eq!(timer.times[1], times[1]);
}

/// Wake times at +100 ms and +200 ms with a 300 ms regular update: ticks at
/// each wake time, then one a regular update later.
#[test]
fn timer_ticks_at_wake_times_then_regularly() {
    let start = LocalDateTime { ms: 1_000_000 };
    let mut timer = TimerState::new(TimeDelta { ms: 300 });
    let step = timer.on_wait_outcome(WaitOutcome::Config(TimerConfig::Replace(vec![
        plus(start, 100),
        plus(start, 200),
    ])));
    assert_eq!(step, TimerStep::Continue);

    let mut clock = start;
    let mut ticks = Vec::new();
    for _ in 0..3 {
        let wait = timer.prepare_wait(clock);
        clock = plus(clock, wait.ms);
        assert_eq!(timer.on_wait_outcome(WaitOutcome::Timeout), TimerStep::SendTick);
        assert_eq!(after_tick(true), WaitResult::Continue);
        ticks.push(clock.ms - start.ms);
    }
    assert_eq!(ticks, vec![100, 200, 500]);
}

#[test]
fn replaced_past_times_never_fire() {
    let now = LocalDateTime { ms: 5_000 };
    let mut timer = TimerState::new(TimeDelta { ms: 1000 });
    timer.on_wait_outcome(WaitOutcome::Config(TimerConfig::Replace(vec![
        plus(now, -10),
        plus(now, 400),
    ])));
    let wait = timer.prepare_wait(now);
    assert_eq!(wait.ms, 400);
    assert_eq!(timer.times, vec![plus(now, 400)]);
}

#[test]
fn added_time_is_kept() {
    let now = LocalDateTime { ms: 0 };
    let mut timer = TimerState::new(TimeDelta { ms: 1000 });
    timer.on_wait_outcome(WaitOutcome::Config(TimerConfig::Add(plus(now, 700))));
    timer.on_wait_outcome(WaitOutcome::Config(TimerConfig::Add(plus(now, 200))));
    assert_eq!(timer.prepare_wait(now).ms, 200);
    assert_eq!(timer.times, vec![plus(now, 200), plus(now, 700)]);
}

#[test]
fn no_wake_times_waits_the_regular_update() {
    let mut timer = TimerState::new(TimeDelta { ms: 1234 });
    assert_eq!(timer.prepare_wait(LocalDateTime { ms: 0 }).ms, 1234);
}

#[test]
fn closed_channels_end_the_timer() {
    let mut timer = TimerState::default();
    assert_eq!(timer.on_wait_outcome(WaitOutcome::Disconnected), TimerStep::Exit);
    assert_eq!(after_tick(false), WaitResult::Exit);
}

#[test]
fn wake_times_are_interval_starts() {
    let a = LocalDateTime { ms: 0 };
    let b = LocalDateTime { ms: 10 };
    let c = LocalDateTime { ms: 20 };
    let ivs = vec![
        Interval { start: a, end: b, state: State::Off },
        Interval { start: b, end: c, state: State::On },
    ];
    assert_eq!(interval_starts(&ivs), vec![a, b]);
}
