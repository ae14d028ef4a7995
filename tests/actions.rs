use fritz_homeautomation::schedule::{Action, Schedule};
use fritz_homeautomation::switch::SwitchAction;
use fritz_homeautomation::time::{Date, LocalDateTime, LocalTime};

fn at(y: i32, mo: u32, d: u32, h: u32, mi: u32, s: u32) -> LocalDateTime {
    LocalDateTime::at(Date::from_ymd(y, mo, d).unwrap(), LocalTime::from_hms(h, mi, s).unwrap())
}

#[test]
fn parse_actions() {
    let time = at(2021, 1, 31, 1, 2, 3);
    assert_eq!("hello".parse::<Action>().ok(), None);
    assert_eq!(
        "2021-01-31 01:02:03 aaabbb on".parse::<Action>().unwrap(),
        Action::TurnOn {
            time,
            id: "aaabbb".to_string()
        }
    );
    assert_eq!(
        "2021-01-31 01:02:03 \"123 456\" on"
            .parse::<Action>()
            .unwrap(),
        Action::TurnOn {
            time,
            id: "123 456".to_string()
        }
    );
    assert_eq!(
        "2021-01-31 01:02:03 123 456 off".parse::<Action>().unwrap(),
        Action::TurnOff {
            time,
            id: "123 456".to_string()
        }
    );
}

#[test]
fn action_words_in_any_case_and_the_last_one_counts() {
    let time = at(2021, 1, 31, 1, 2, 3);
    assert_eq!(
        Action::parse("x 2021-01-31 01:02:03 lamp on the wall OFF"),
        Some(Action::TurnOff { time, id: "lamp on the wall".to_string() })
    );
    assert_eq!(Action::parse("2021-02-30 01:02:03 lamp on"), None);
    assert_eq!(Action::parse("2021-01-31 24:02:03 lamp on"), None);
    assert_eq!(Action::parse("2021-01-31 01:02:03  on"), None);
    assert_eq!(Action::parse("2021-01-31 01:02:03   on"), Some(Action::TurnOn { time, id: " ".to_string() }));
    assert_eq!(Action::parse("2021-01-31 01:02:03 on"), None);
}

#[test]
fn actions_switch() {
    let a = Action::TurnOn { time: at(2021, 1, 1, 0, 0, 0), id: "d".to_string() };
    assert_eq!(a.device_id(), "d");
    assert_eq!(SwitchAction::from(a), SwitchAction::On);
}

#[test]
fn schedule_is_sorted_and_queried() {
    let text = "2021-02-01 07:17:57 11630 0123723 off\r\nnot an action\n2021-02-01 06:00:00 11630 0123723 on\n2021-02-01 17:20:41 11630 0123723 on\n2021-02-01 06:00:00 other on\n";
    let schedule = Schedule::from_string(text);
    let times: Vec<LocalDateTime> = schedule.actions.iter().map(|a| a.time()).collect();
    assert_eq!(
        times,
        vec![
            at(2021, 2, 1, 6, 0, 0),
            at(2021, 2, 1, 6, 0, 0),
            at(2021, 2, 1, 7, 17, 57),
            at(2021, 2, 1, 17, 20, 41),
        ]
    );
    assert_eq!(schedule.actions[0].device_id(), "11630 0123723");
    assert_eq!(schedule.actions[1].device_id(), "other");
    assert_eq!(schedule.actions[2].device_id(), "11630 0123723");
    let next = schedule.next_action(at(2021, 2, 1, 7, 0, 0)).unwrap();
    assert_eq!(next.time(), at(2021, 2, 1, 7, 17, 57));
    let last = schedule.last_action(at(2021, 2, 1, 7, 0, 0)).unwrap();
    assert_eq!(last.device_id(), "other");
    assert!(schedule.next_action(at(2021, 2, 2, 0, 0, 0)).is_none());
    assert!(schedule.last_action(at(2021, 1, 1, 0, 0, 0)).is_none());
}
