//! The duration text format `"<minutes>mins <seconds>secs"`.
use crate::error::Error;
use crate::text::{
    chars_of, decimal, i64_of, parse_i64, push_decimal, push_str, remove_all, split_first,
    split_once, string_of, trim, trimmed, without,
};
use crate::time::TimeDelta;
use vstd::prelude::*;

verus! {

/// The most whole seconds a duration can hold either way.
pub const MAX_SECONDS: i64 = 9_223_372_036_854_775;

/// `a / b` rounded toward zero.
pub open spec fn trunc_div(a: int, b: int) -> int {
    if a >= 0 {
        a / b
    } else {
        -((-a) / b)
    }
}

/// The text of a duration of `ms` milliseconds: whole minutes, then the
/// seconds left over (all the seconds, where the minutes are not positive).
pub open spec fn pretty_text(ms: int) -> Seq<char> {
    let secs = trunc_div(ms, 1000);
    let mins = trunc_div(secs, 60);
    let rest = if mins > 0 {
        secs - mins * 60
    } else {
        secs
    };
    decimal(mins) + seq!['m', 'i', 'n', 's', ' '] + decimal(rest) + seq!['s', 'e', 'c', 's']
}

pub open spec fn no_space_message(s: Seq<char>) -> Seq<char> {
    seq!['u', 'n', 'a', 'b', 'l', 'e', ' ', 't', 'o', ' ', 'p', 'a', 'r', 's', 'e', ' ', 'd', 'u', 'r', 'a', 't', 'i', 'o', 'n', ' ', 'f', 'r', 'o', 'm', ' '] + s
}

pub open spec fn minutes_message() -> Seq<char> {
    seq!['U', 'n', 'a', 'b', 'l', 'e', ' ', 't', 'o', ' ', 'p', 'a', 'r', 's', 'e', ' ', 'm', 'i', 'n', 'u', 't', 'e', 's']
}

pub open spec fn seconds_message() -> Seq<char> {
    seq!['U', 'n', 'a', 'b', 'l', 'e', ' ', 't', 'o', ' ', 'p', 'a', 'r', 's', 'e', ' ', 's', 'e', 'c', 'o', 'n', 'd', 's']
}

pub open spec fn range_message() -> Seq<char> {
    seq!['D', 'u', 'r', 'a', 't', 'i', 'o', 'n', ' ', 'o', 'u', 't', ' ', 'o', 'f', ' ', 'r', 'a', 'n', 'g', 'e']
}

/// Whether `m` minutes and `s` seconds make a duration that can be held.
pub open spec fn holds_duration(m: int, s: int) -> bool {
    &&& -MAX_SECONDS <= m * 60 <= MAX_SECONDS
    &&& -MAX_SECONDS <= s <= MAX_SECONDS
    &&& -i64::MAX <= m * 60000 + s * 1000 <= i64::MAX
}

/// The duration, in milliseconds, that the text `s` gives, or the message
/// of what is wrong with it. The text, trimmed, is split at its first space;
/// the first part without `mins` is the minutes, the second without `secs`
/// the seconds, each a whole number.
pub open spec fn duration_from_text(s: Seq<char>) -> Result<int, Seq<char>> {
    match split_first(trim(s), ' ') {
        None => Err(no_space_message(s)),
        Some(p) => match i64_of(remove_all(p.0, seq!['m', 'i', 'n', 's'])) {
            None => Err(minutes_message()),
            Some(m) => match i64_of(remove_all(p.1, seq!['s', 'e', 'c', 's'])) {
                None => Err(seconds_message()),
                Some(sec) => if holds_duration(m, sec) {
                    Ok(m * 60000 + sec * 1000)
                } else {
                    Err(range_message())
                },
            },
        },
    }
}

/// The duration as text, such as `10mins 0secs`.
pub fn duration_pretty(d: TimeDelta) -> (r: String)
    ensures
        r@ == pretty_text(d.ms as int),
{
    let ms = d.ms as i128;
    let secs: i128 = if ms >= 0 {
        ms / 1000
    } else {
        -((-ms) / 1000)
    };
    let mins: i128 = if secs >= 0 {
        secs / 60
    } else {
        -((-secs) / 60)
    };
    let rest: i128 = if mins > 0 {
        secs - mins * 60
    } else {
        secs
    };
    let mut s = String::new();
    push_decimal(&mut s, mins);
    push_str(&mut s, "mins ");
    push_decimal(&mut s, rest);
    push_str(&mut s, "secs");
    proof {
        reveal_strlit("mins ");
        reveal_strlit("secs");
        assert(s@ =~= pretty_text(d.ms as int));
    }
    s
}

fn error_with(text: &str) -> (r: Error)
    ensures
        r matches Error::DurationParseError(m) && m@ == text@,
{
    let cs = chars_of(text);
    Error::DurationParseError(string_of(&cs))
}

/// Reads a duration from text such as `10mins 0secs`. Malformed text is an
/// error, never a zero duration.
pub fn duration_parse(s: &str) -> (r: Result<TimeDelta, Error>)
    ensures
        match duration_from_text(s@) {
            Ok(ms) => r == Ok::<TimeDelta, Error>(TimeDelta { ms: ms as i64 }),
            Err(msg) => r matches Err(Error::DurationParseError(m)) && m@ == msg,
        },
{
    let cs = chars_of(s);
    let t = trimmed(&cs);
    let (a, b) = match split_once(&t, ' ') {
        Some(p) => p,
        None => {
            let mut msg = String::new();
            push_str(&mut msg, "unable to parse duration from ");
            push_str(&mut msg, s);
            proof {
                reveal_strlit("unable to parse duration from ");
                assert(msg@ =~= no_space_message(s@));
            }
            return Err(Error::DurationParseError(msg));
        },
    };
    let mins_tag = chars_of("mins");
    let secs_tag = chars_of("secs");
    proof {
        reveal_strlit("mins");
        reveal_strlit("secs");
        assert(mins_tag@ =~= seq!['m', 'i', 'n', 's']);
        assert(secs_tag@ =~= seq!['s', 'e', 'c', 's']);
    }
    let m = match parse_i64(&without(&a, &mins_tag)) {
        Some(m) => m,
        None => {
            let e = error_with("Unable to parse minutes");
            proof {
                reveal_strlit("Unable to parse minutes");
                assert("Unable to parse minutes"@ =~= minutes_message());
            }
            return Err(e);
        },
    };
    let sec = match parse_i64(&without(&b, &secs_tag)) {
        Some(sec) => sec,
        None => {
            let e = error_with("Unable to parse seconds");
            proof {
                reveal_strlit("Unable to parse seconds");
                assert("Unable to parse seconds"@ =~= seconds_message());
            }
            return Err(e);
        },
    };
    let m60 = m as i128 * 60;
    let total = m as i128 * 60000 + sec as i128 * 1000;
    if -(MAX_SECONDS as i128) <= m60 && m60 <= MAX_SECONDS as i128 && -(MAX_SECONDS as i128) <= sec as i128
        && sec as i128 <= MAX_SECONDS as i128 && -(i64::MAX as i128) <= total && total <= i64::MAX as i128 {
        Ok(TimeDelta { ms: total as i64 })
    } else {
        let e = error_with("Duration out of range");
        proof {
            reveal_strlit("Duration out of range");
            assert("Duration out of range"@ =~= range_message());
        }
        Err(e)
    }
}

} // verus!
