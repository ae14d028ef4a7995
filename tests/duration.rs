use fritz_homeautomation::duration::{duration_parse, duration_pretty};
use fritz_homeautomation::error::Error;
use fritz_homeautomation::time::TimeDelta;

#[test]
fn pretty_durations() {
    assert_eq!(duration_pretty(TimeDelta { ms: 600_000 }), "10mins 0secs");
    assert_eq!(duration_pretty(TimeDelta { ms: 61_500 }), "1mins 1secs");
    assert_eq!(duration_pretty(TimeDelta { ms: 59_999 }), "0mins 59secs");
    assert_eq!(duration_pretty(TimeDelta { ms: -90_000 }), "-1mins -90secs");
}

#[test]
fn parse_durations() {
    assert_eq!(duration_parse("10mins 0secs"), Ok(TimeDelta { ms: 600_000 }));
    assert_eq!(duration_parse("  1mins 30secs \n"), Ok(TimeDelta { ms: 90_000 }));
    assert_eq!(duration_parse("-2mins +5secs"), Ok(TimeDelta { ms: -115_000 }));
}

#[test]
fn malformed_durations_are_errors() {
    assert_eq!(
        duration_parse("10mins"),
        Err(Error::DurationParseError("unable to parse duration from 10mins".to_string()))
    );
    assert_eq!(
        duration_parse("tenmins 0secs"),
        Err(Error::DurationParseError("Unable to parse minutes".to_string()))
    );
    assert_eq!(
        duration_parse("10mins x"),
        Err(Error::DurationParseError("Unable to parse seconds".to_string()))
    );
    assert_eq!(
        duration_parse("10mins  0secs"),
        Err(Error::DurationParseError("Unable to parse seconds".to_string()))
    );
    assert_eq!(
        duration_parse("999999999999999999mins 0secs"),
        Err(Error::DurationParseError("Duration out of range".to_string()))
    );
}

#[test]
fn pretty_text_parses_back() {
    for ms in [0i64, 1000, 600_000, 3_599_000] {
        let d = TimeDelta { ms };
        assert_eq!(duration_parse(&duration_pretty(d)), Ok(d));
    }
}
