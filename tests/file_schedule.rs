use fritz_homeautomation::file_schedule::{parse_line, Action, Schedule};
use fritz_homeautomation::time::{Date, LocalDateTime, LocalTime};

fn at(y: i32, mo: u32, d: u32, h: u32, mi: u32, s: u32) -> LocalDateTime {
    LocalDateTime::at(Date::from_ymd(y, mo, d).unwrap(), LocalTime::from_hms(h, mi, s).unwrap())
}

#[test]
fn words_name_actions() {
    assert_eq!(Action::from("on"), Action::TurnOn);
    assert_eq!(Action::from("off"), Action::TurnOff);
    assert_eq!(Action::from(":on"), Action::Unknown);
    assert_eq!(Action::from("ON"), Action::Unknown);
}

#[test]
fn schedule_file_lines() {
    assert_eq!(parse_line("2021-01-20 05:45:00 on"), Some((at(2021, 1, 20, 5, 45, 0), Action::TurnOn)));
    assert_eq!(parse_line("2021-01-20 07:41:12 off"), Some((at(2021, 1, 20, 7, 41, 12), Action::TurnOff)));
    assert_eq!(parse_line("2021-01-20 07:41:12 :on"), Some((at(2021, 1, 20, 7, 41, 12), Action::Unknown)));
    assert_eq!(parse_line("2021-01-20 07:41:12 on trailing"), Some((at(2021, 1, 20, 7, 41, 12), Action::TurnOn)));
    assert_eq!(parse_line("2021-01-20 07:41:12 lamp on"), None);
    assert_eq!(parse_line("2021-02-30 07:41:12 on"), None);
    assert_eq!(parse_line(""), None);
}

#[test]
fn schedule_file_is_sorted() {
    let text = "2021-01-20 23:05:00 off\n\ngarbage\n2021-01-20 05:45:00 on\n2021-01-20 17:10:00 on";
    let schedule = Schedule::from_text(text, "schedule.txt");
    assert_eq!(schedule.schedule_file, "schedule.txt");
    assert_eq!(
        schedule.actions,
        vec![
            (at(2021, 1, 20, 5, 45, 0), Action::TurnOn),
            (at(2021, 1, 20, 17, 10, 0), Action::TurnOn),
            (at(2021, 1, 20, 23, 5, 0), Action::TurnOff),
        ]
    );
    assert_eq!(schedule.next_action(at(2021, 1, 20, 6, 0, 0)), Some((at(2021, 1, 20, 17, 10, 0), Action::TurnOn)));
    assert_eq!(schedule.last_action(at(2021, 1, 20, 6, 0, 0)), Some(&(at(2021, 1, 20, 5, 45, 0), Action::TurnOn)));
    assert_eq!(schedule.next_action(at(2021, 1, 21, 0, 0, 0)), None);
}
