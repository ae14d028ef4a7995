use chrono::{DateTime, NaiveDate, NaiveDateTime};
use fritz_homeautomation::config::{
    current_interval, derive_intervals, Config, Entry, Interval, State, StateChange, When,
};
use fritz_homeautomation::time::{Date, LocalDateTime, LocalTime, TimeDelta};

fn epoch() -> NaiveDate {
    NaiveDate::from_ymd_opt(1970, 1, 1).unwrap()
}

fn date(y: i32, m: u32, d: u32) -> Date {
    let day = NaiveDate::from_ymd_opt(y, m, d).unwrap().signed_duration_since(epoch()).num_days();
    Date { day }
}

fn time(h: u32, m: u32, s: u32) -> LocalTime {
    LocalTime::from_hms(h, m, s).unwrap()
}

fn at(y: i32, mo: u32, d: u32, h: u32, mi: u32, s: u32) -> LocalDateTime {
    LocalDateTime::at(date(y, mo, d), time(h, mi, s))
}

fn wall_clock(naive: NaiveDateTime) -> LocalDateTime {
    LocalDateTime { ms: naive.and_utc().timestamp_millis() }
}

fn config(entries: Vec<Entry>, start: LocalDateTime, end: LocalDateTime) -> Config {
    Config {
        device: "...".to_string(),
        start,
        end,
        check_state: TimeDelta { ms: 600_000 },
        entries,
    }
}

/// Reads a line `start-end=state` of the expected output; the instants are
/// the local wall-clock times written there.
fn expected_interval(line: &str) -> Interval {
    let (span, state) = line.rsplit_once('=').unwrap();
    let start = DateTime::parse_from_str(&span[..26], "%Y-%m-%d %H:%M:%S %:z").unwrap();
    let end = DateTime::parse_from_str(&span[27..], "%Y-%m-%d %H:%M:%S %:z").unwrap();
    Interval {
        start: wall_clock(start.naive_local()),
        end: wall_clock(end.naive_local()),
        state: if state == "on" { State::On } else { State::Off },
    }
}

fn fixture_entries() -> Vec<Entry> {
    vec![
        Entry { when: When::Date(date(2022, 11, 30)), time: time(16, 0, 0), state: State::On },
        Entry { when: When::Date(date(2022, 12, 1)), time: time(14, 0, 0), state: State::On },
        Entry { when: When::Daily, time: time(13, 0, 0), state: State::On },
        Entry { when: When::Daily, time: time(14, 0, 0), state: State::Off },
        Entry { when: When::Daily, time: time(18, 0, 0), state: State::On },
        Entry { when: When::Daily, time: time(22, 0, 0), state: State::Off },
    ]
}

#[test]
fn create_intervals() {
    let config = config(fixture_entries(), at(2022, 11, 28, 0, 0, 0), at(2022, 12, 1, 23, 59, 59));
    let result = config.intervals();
    let expected = "2022-11-28 00:00:00 +01:00-2022-11-28 13:00:00 +01:00=off
2022-11-28 13:00:00 +01:00-2022-11-28 14:00:00 +01:00=on
2022-11-28 14:00:00 +01:00-2022-11-28 18:00:00 +01:00=off
2022-11-28 18:00:00 +01:00-2022-11-28 22:00:00 +01:00=on
2022-11-28 22:00:00 +01:00-2022-11-29 13:00:00 +01:00=off
2022-11-29 13:00:00 +01:00-2022-11-29 14:00:00 +01:00=on
2022-11-29 14:00:00 +01:00-2022-11-29 18:00:00 +01:00=off
2022-11-29 18:00:00 +01:00-2022-11-29 22:00:00 +01:00=on
2022-11-29 22:00:00 +01:00-2022-11-30 13:00:00 +01:00=off
2022-11-30 13:00:00 +01:00-2022-11-30 14:00:00 +01:00=on
2022-11-30 14:00:00 +01:00-2022-11-30 16:00:00 +01:00=off
2022-11-30 16:00:00 +01:00-2022-11-30 22:00:00 +01:00=on";
    let expected: Vec<Interval> = expected.lines().map(expected_interval).collect();
    assert_eq!(expected, result);
}

#[test]
fn worked_example_neighbours_differ_and_touch() {
    let ivs = derive_intervals(&fixture_entries(), at(2022, 11, 28, 0, 0, 0), at(2022, 12, 1, 23, 59, 59));
    assert_eq!(ivs.len(), 12);
    for pair in ivs.windows(2) {
        assert_eq!(pair[0].end, pair[1].start);
        assert_ne!(pair[0].state, pair[1].state);
    }
    for iv in &ivs {
        assert!(iv.start.ms < iv.end.ms);
    }
    assert_eq!(ivs[0].start, at(2022, 11, 28, 0, 0, 0));
    assert_eq!(ivs[11].end, at(2022, 11, 30, 22, 0, 0));
}

#[test]
fn no_entries_give_one_off_interval() {
    let begin = at(2022, 11, 28, 0, 0, 0);
    let end = at(2022, 12, 2, 0, 0, 0);
    let ivs = derive_intervals(&[], begin, end);
    assert_eq!(ivs, vec![Interval { start: begin, end, state: State::Off }]);
}

#[test]
fn entries_outside_the_window_give_one_off_interval() {
    let begin = at(2022, 11, 28, 0, 0, 0);
    let end = at(2022, 11, 29, 0, 0, 0);
    let entries = vec![Entry { when: When::Date(date(2023, 1, 1)), time: time(8, 0, 0), state: State::On }];
    let ivs = derive_intervals(&entries, begin, end);
    assert_eq!(ivs, vec![Interval { start: begin, end, state: State::Off }]);
}

#[test]
fn empty_window_gives_no_interval() {
    let begin = at(2022, 11, 28, 0, 0, 0);
    assert!(derive_intervals(&[], begin, begin).is_empty());
}

#[test]
fn first_listed_entry_wins_a_tie() {
    let entries = vec![
        Entry { when: When::Daily, time: time(12, 42, 0), state: State::On },
        Entry { when: When::Date(date(2022, 11, 28)), time: time(12, 42, 0), state: State::Off },
    ];
    let begin = at(2022, 11, 28, 0, 0, 0);
    let end = at(2022, 11, 29, 0, 0, 0);
    let ivs = derive_intervals(&entries, begin, end);
    let current = current_interval(&ivs, at(2022, 11, 28, 12, 42, 0)).unwrap();
    assert_eq!(current.state, State::On);
    assert_eq!(current.start, at(2022, 11, 28, 12, 42, 0));
}

#[test]
fn window_end_day_is_not_scanned() {
    let entries = vec![
        Entry { when: When::Daily, time: time(10, 0, 0), state: State::On },
        Entry { when: When::Daily, time: time(20, 0, 0), state: State::Off },
    ];
    let begin = at(2022, 11, 28, 0, 0, 0);
    let end = at(2022, 11, 29, 23, 0, 0);
    let changes = StateChange::from_entries_between(&entries, begin, end);
    assert_eq!(
        changes,
        vec![
            StateChange { when: begin, state: State::Off },
            StateChange { when: at(2022, 11, 28, 10, 0, 0), state: State::On },
            StateChange { when: at(2022, 11, 28, 20, 0, 0), state: State::Off },
        ]
    );
}

#[test]
fn closing_change_is_kept_after_on() {
    let entries = vec![Entry { when: When::Daily, time: time(10, 0, 0), state: State::On }];
    let begin = at(2022, 11, 28, 0, 0, 0);
    let end = at(2022, 11, 29, 0, 0, 0);
    let ivs = derive_intervals(&entries, begin, end);
    assert_eq!(
        ivs,
        vec![
            Interval { start: begin, end: at(2022, 11, 28, 10, 0, 0), state: State::Off },
            Interval { start: at(2022, 11, 28, 10, 0, 0), end, state: State::On },
        ]
    );
}

#[test]
fn interval_contains_its_start_not_its_end() {
    let iv = Interval { start: at(2022, 1, 1, 0, 0, 0), end: at(2022, 1, 2, 0, 0, 0), state: State::On };
    assert!(iv.contains_time(at(2022, 1, 1, 0, 0, 0)));
    assert!(iv.contains_time(at(2022, 1, 1, 23, 59, 59)));
    assert!(!iv.contains_time(at(2022, 1, 2, 0, 0, 0)));
}

#[test]
fn interval_around_now_is_current() {
    let now = fritz_homeautomation::time::now();
    let iv = Interval {
        start: LocalDateTime { ms: now.ms - 60_000 },
        end: LocalDateTime { ms: now.ms + 3_600_000 },
        state: State::On,
    };
    assert!(iv.is_current());
    let past = Interval {
        start: LocalDateTime { ms: now.ms - 7_200_000 },
        end: LocalDateTime { ms: now.ms - 3_600_000 },
        state: State::On,
    };
    assert!(!past.is_current());
}

#[test]
fn no_current_interval_outside_the_window() {
    let ivs = derive_intervals(&fixture_entries(), at(2022, 11, 28, 0, 0, 0), at(2022, 12, 1, 23, 59, 59));
    assert!(current_interval(&ivs, at(2023, 1, 1, 0, 0, 0)).is_none());
    assert_eq!(current_interval(&ivs, at(2022, 11, 29, 19, 0, 0)).unwrap().state, State::On);
}

#[test]
fn date_of_an_instant_before_1970() {
    let t = at(1969, 12, 31, 23, 0, 0);
    assert_eq!(t.date(), date(1969, 12, 31));
    assert_eq!(at(1970, 1, 1, 0, 0, 0).date(), date(1970, 1, 1));
}

#[test]
fn state_names() {
    assert_eq!(State::On.as_str(), "on");
    assert_eq!(State::Off.as_str(), "off");
    assert_eq!(State::default(), State::Off);
}

#[test]
fn time_of_day_out_of_range() {
    assert!(LocalTime::from_hms(24, 0, 0).is_none());
    assert_eq!(LocalTime::from_hms(13, 0, 1).unwrap().ms, 46_801_000);
}

#[test]
fn dates_from_year_month_day() {
    assert_eq!(Date::from_ymd(1970, 1, 2), Some(Date { day: 1 }));
    assert_eq!(Date::from_ymd(2022, 11, 28), Some(date(2022, 11, 28)));
    assert_eq!(Date::from_ymd(1969, 12, 31), Some(Date { day: -1 }));
    assert_eq!(Date::from_ymd(2021, 2, 29), None);
    assert_eq!(Date::from_ymd(2020, 2, 29), Some(date(2020, 2, 29)));
}
