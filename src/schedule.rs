//! Switching schedules written as text, one action per line:
//! `YYYY-MM-DD HH:MM:SS <device id> on|off`.
use crate::switch::SwitchAction;
use crate::text::{chars_of, digits_value, is_digit, split_all, string_of};
use crate::time::{days_from_ce_of, Date, LocalDateTime, LocalTime, UNIX_EPOCH_DAY_CE, DAY_MILLIS};
use vstd::prelude::*;

verus! {

/// Switch device `id` on or off at `time`.
#[derive(Debug, Clone, PartialEq, Eq)]
pub enum Action {
    TurnOn { time: LocalDateTime, id: String },
    TurnOff { time: LocalDateTime, id: String },
}

impl Action {
    pub open spec fn spec_time(&self) -> LocalDateTime {
        match self {
            Action::TurnOn { time, .. } => *time,
            Action::TurnOff { time, .. } => *time,
        }
    }

    pub fn time(&self) -> (r: LocalDateTime)
        ensures
            r == self.spec_time(),
    {
        match self {
            Action::TurnOn { time, .. } => *time,
            Action::TurnOff { time, .. } => *time,
        }
    }

    pub fn device_id(&self) -> (r: &str)
        ensures
            r@ == match self {
                Action::TurnOn { id, .. } => id@,
                Action::TurnOff { id, .. } => id@,
            },
    {
        match self {
            Action::TurnOn { id, .. } => id.as_str(),
            Action::TurnOff { id, .. } => id.as_str(),
        }
    }

    /// A copy of the action.
    pub fn clone_action(&self) -> (r: Action)
        ensures
            r == *self,
    {
        match self {
            Action::TurnOn { time, id } => Action::TurnOn { time: *time, id: id.clone() },
            Action::TurnOff { time, id } => Action::TurnOff { time: *time, id: id.clone() },
        }
    }
}

impl From<Action> for SwitchAction {
    fn from(action: Action) -> (r: SwitchAction) {
        match action {
            Action::TurnOn { .. } => SwitchAction::On,
            Action::TurnOff { .. } => SwitchAction::Off,
        }
    }
}

impl vstd::std_specs::convert::FromSpecImpl<Action> for SwitchAction {
    open spec fn obeys_from_spec() -> bool {
        true
    }

    open spec fn from_spec(action: Action) -> SwitchAction {
        match action {
            Action::TurnOn { .. } => SwitchAction::On,
            Action::TurnOff { .. } => SwitchAction::Off,
        }
    }
}

// ---------------------------------------------------------------------------
// The line grammar.

/// `s` holds a time stamp `YYYY-MM-DD HH:MM:SS` at `i`.
pub open spec fn stamp_at(s: Seq<char>, i: int) -> bool {
    &&& 0 <= i
    &&& i + 19 <= s.len()
    &&& forall|k: int|
        0 <= k < 19 && k != 4 && k != 7 && k != 10 && k != 13 && k != 16 ==> is_digit(
            #[trigger] s[i + k],
        )
    &&& s[i + 4] == '-'
    &&& s[i + 7] == '-'
    &&& s[i + 10] == ' '
    &&& s[i + 13] == ':'
    &&& s[i + 16] == ':'
}

pub open spec fn is_letter(c: char, lower: char) -> bool {
    c == lower || c as u32 == lower as u32 - 32
}

/// At `p`, `s` holds a space and `on` (`Some(true)`) or `off`
/// (`Some(false)`), in any case.
pub open spec fn switch_word_at(s: Seq<char>, p: int) -> Option<bool> {
    if 0 <= p && p + 3 <= s.len() && s[p] == ' ' && is_letter(s[p + 1], 'o') && is_letter(
        s[p + 2],
        'n',
    ) {
        Some(true)
    } else if 0 <= p && p + 4 <= s.len() && s[p] == ' ' && is_letter(s[p + 1], 'o') && is_letter(
        s[p + 2],
        'f',
    ) && is_letter(s[p + 3], 'f') {
        Some(false)
    } else {
        None
    }
}

pub open spec fn no_newline(s: Seq<char>, a: int, b: int) -> bool {
    forall|k: int| a <= k < b ==> s[k] != '\n'
}

/// The device id of a match starting at `i` may end at `p`.
pub open spec fn id_end_ok(s: Seq<char>, i: int, p: int) -> bool {
    switch_word_at(s, p) is Some && no_newline(s, i + 20, p)
}

/// The last place below `hi`, at least `i + 21`, where the device id of a
/// match starting at `i` may end.
pub open spec fn last_id_end(s: Seq<char>, i: int, hi: int) -> Option<int>
    decreases hi - (i + 21),
{
    if hi <= i + 21 {
        None
    } else if id_end_ok(s, i, hi - 1) {
        Some(hi - 1)
    } else {
        last_id_end(s, i, hi - 1)
    }
}

/// Where the device id ends in a match starting at `i`: a time stamp, a
/// space, the longest id of one or more characters other than a line break,
/// then ` on` or ` off`.
pub open spec fn match_at(s: Seq<char>, i: int) -> Option<int> {
    if stamp_at(s, i) && i + 19 < s.len() && s[i + 19] == ' ' {
        last_id_end(s, i, s.len() as int)
    } else {
        None
    }
}

/// The leftmost match at or after `i`: its start and the end of its id.
pub open spec fn first_match(s: Seq<char>, i: int) -> Option<(int, int)>
    decreases s.len() - i,
{
    if i < 0 || i >= s.len() {
        None
    } else {
        match match_at(s, i) {
            Some(p) => Some((i, p)),
            None => first_match(s, i + 1),
        }
    }
}

pub open spec fn trim_quotes_start(s: Seq<char>) -> Seq<char>
    decreases s.len(),
{
    if s.len() > 0 && s[0] == '"' {
        trim_quotes_start(s.drop_first())
    } else {
        s
    }
}

pub open spec fn trim_quotes_end(s: Seq<char>) -> Seq<char>
    decreases s.len(),
{
    if s.len() > 0 && s.last() == '"' {
        trim_quotes_end(s.drop_last())
    } else {
        s
    }
}

/// `s` without `"` at either end.
pub open spec fn trim_quotes(s: Seq<char>) -> Seq<char> {
    trim_quotes_end(trim_quotes_start(s))
}

/// The value of the digits of `s` from `a` up to `b`.
pub open spec fn field(s: Seq<char>, a: int, b: int) -> int {
    digits_value(s.subrange(a, b))
}

/// The instant the time stamp at `i` names, if the date exists and the time
/// of day is in range.
pub open spec fn stamp_time(s: Seq<char>, i: int) -> Option<int> {
    let h = field(s, i + 11, i + 13);
    let mi = field(s, i + 14, i + 16);
    let sec = field(s, i + 17, i + 19);
    match days_from_ce_of(field(s, i, i + 4), field(s, i + 5, i + 7), field(s, i + 8, i + 10)) {
        Some(n) => if h < 24 && mi < 60 && sec < 60 {
            Some((n - UNIX_EPOCH_DAY_CE) * DAY_MILLIS + ((h * 60 + mi) * 60 + sec) * 1000)
        } else {
            None
        },
        None => None,
    }
}

/// What a line says: the action time (in milliseconds), the device id, and
/// whether the device goes on.
pub open spec fn line_action(s: Seq<char>) -> Option<(int, Seq<char>, bool)> {
    match first_match(s, 0) {
        Some(m) => match stamp_time(s, m.0) {
            Some(t) => Some((t, trim_quotes(s.subrange(m.0 + 20, m.1)), switch_word_at(s, m.1)->0)),
            None => None,
        },
        None => None,
    }
}

pub open spec fn action_view(a: Action) -> (int, Seq<char>, bool) {
    match a {
        Action::TurnOn { time, id } => (time.ms as int, id@, true),
        Action::TurnOff { time, id } => (time.ms as int, id@, false),
    }
}

proof fn lemma_last_id_end(s: Seq<char>, i: int, hi: int)
    ensures
        last_id_end(s, i, hi) matches Some(p) ==> i + 21 <= p < hi && id_end_ok(s, i, p),
    decreases hi - (i + 21),
{
    if hi > i + 21 && !id_end_ok(s, i, hi - 1) {
        lemma_last_id_end(s, i, hi - 1);
    }
}

proof fn lemma_first_match(s: Seq<char>, i: int)
    ensures
        first_match(s, i) matches Some(m) ==> i <= m.0 < s.len() && match_at(s, m.0) == Some(m.1),
    decreases s.len() - i,
{
    if 0 <= i < s.len() && match_at(s, i) is None {
        lemma_first_match(s, i + 1);
    }
}

fn is_ascii_digit(c: char) -> (r: bool)
    ensures
        r == is_digit(c),
{
    let u = c as u32;
    48 <= u && u <= 57
}

fn letter(c: char, lower: char) -> (r: bool)
    requires
        97 <= lower as u32 <= 122,
    ensures
        r == is_letter(c, lower),
{
    c == lower || c as u32 == lower as u32 - 32
}

fn stamp_here(v: &Vec<char>, i: usize) -> (r: bool)
    ensures
        r == stamp_at(v@, i as int),
{
    if i > v.len() || v.len() - i < 19 {
        return false;
    }
    let mut k: usize = 0;
    while k < 19
        invariant
            k <= 19,
            i + 19 <= v.len(),
            forall|m: int|
                0 <= m < k && m != 4 && m != 7 && m != 10 && m != 13 && m != 16 ==> is_digit(
                    #[trigger] v@[i + m],
                ),
        decreases 19 - k,
    {
        if k != 4 && k != 7 && k != 10 && k != 13 && k != 16 && !is_ascii_digit(v[i + k]) {
            proof {
                assert(!is_digit(v@[i + k]));
            }
            return false;
        }
        k += 1;
    }
    v[i + 4] == '-' && v[i + 7] == '-' && v[i + 10] == ' ' && v[i + 13] == ':' && v[i + 16] == ':'
}

fn switch_word_here(v: &Vec<char>, p: usize) -> (r: Option<bool>)
    ensures
        r == switch_word_at(v@, p as int),
{
    if p < v.len() && v.len() - p >= 3 && v[p] == ' ' && letter(v[p + 1], 'o') && letter(v[p + 2], 'n') {
        Some(true)
    } else if p < v.len() && v.len() - p >= 4 && v[p] == ' ' && letter(v[p + 1], 'o') && letter(
        v[p + 2],
        'f',
    ) && letter(v[p + 3], 'f') {
        Some(false)
    } else {
        None
    }
}

fn no_newline_between(v: &Vec<char>, a: usize, b: usize) -> (r: bool)
    requires
        b <= v.len(),
    ensures
        r == no_newline(v@, a as int, b as int),
{
    let mut k = a;
    while k < b
        invariant
            a <= k || b <= a,
            k >= a,
            b <= v.len(),
            forall|m: int| a <= m < k && m < b ==> v@[m] != '\n',
        decreases b - k,
    {
        if v[k] == '\n' {
            return false;
        }
        k += 1;
    }
    true
}

fn id_end(v: &Vec<char>, i: usize) -> (r: Option<usize>)
    requires
        i + 21 <= v.len(),
    ensures
        match last_id_end(v@, i as int, v.len() as int) {
            Some(p) => r == Some(p as usize),
            None => r is None,
        },
{
    let mut hi = v.len();
    while hi > i + 21
        invariant
            i + 21 <= hi <= v.len(),
            last_id_end(v@, i as int, v.len() as int) == last_id_end(v@, i as int, hi as int),
        decreases hi,
    {
        let p = hi - 1;
        if switch_word_here(v, p).is_some() && no_newline_between(v, i + 20, p) {
            return Some(p);
        }
        hi = p;
    }
    None
}

fn match_here(v: &Vec<char>, i: usize) -> (r: Option<usize>)
    ensures
        match match_at(v@, i as int) {
            Some(p) => r == Some(p as usize),
            None => r is None,
        },
{
    if !stamp_here(v, i) {
        return None;
    }
    if v.len() - i > 19 && v[i + 19] == ' ' {
        if v.len() - i >= 21 {
            id_end(v, i)
        } else {
            None
        }
    } else {
        None
    }
}

fn find_match(v: &Vec<char>) -> (r: Option<(usize, usize)>)
    ensures
        match first_match(v@, 0) {
            Some(m) => r == Some((m.0 as usize, m.1 as usize)),
            None => r is None,
        },
{
    let mut i: usize = 0;
    while i < v.len()
        invariant
            i <= v.len(),
            first_match(v@, 0) == first_match(v@, i as int),
        decreases v.len() - i,
    {
        match match_here(v, i) {
            Some(p) => {
                return Some((i, p));
            },
            None => {},
        }
        i += 1;
    }
    None
}

/// The value of the digits of `v` from `a` up to `b`.
fn digits(v: &Vec<char>, a: usize, b: usize) -> (r: u32)
    requires
        a <= b <= v.len(),
        b - a <= 4,
        forall|k: int| a <= k < b ==> is_digit(#[trigger] v@[k]),
    ensures
        r == field(v@, a as int, b as int),
        r < 10000,
{
    let mut r: u32 = 0;
    let mut k = a;
    proof {
        assert(v@.subrange(a as int, a as int) =~= Seq::<char>::empty());
    }
    while k < b
        invariant
            a <= k <= b <= v.len(),
            b - a <= 4,
            forall|m: int| a <= m < b ==> is_digit(#[trigger] v@[m]),
            r == field(v@, a as int, k as int),
            r < pow10((k - a) as nat),
        decreases b - k,
    {
        proof {
            assert(v@.subrange(a as int, k + 1).drop_last() =~= v@.subrange(a as int, k as int));
            assert(is_digit(v@[k as int]));
            assert(pow10((k + 1 - a) as nat) == pow10((k - a) as nat) * 10);
            assert(pow10((k - a) as nat) <= 1000) by {
                assert(pow10(0) == 1);
                assert(pow10(1) == 10);
                assert(pow10(2) == 100);
                assert(pow10(3) == 1000);
            }
        }
        r = r * 10 + (v[k] as u32 - 48);
        k += 1;
    }
    proof {
        assert(pow10(0) == 1);
        assert(pow10(1) == 10);
        assert(pow10(2) == 100);
        assert(pow10(3) == 1000);
        assert(pow10(4) == 10000);
    }
    r
}

pub open spec fn pow10(n: nat) -> int
    decreases n,
{
    if n == 0 {
        1
    } else {
        10 * pow10((n - 1) as nat)
    }
}

/// The characters of `v` from `a` up to `b` without `"` at either end.
fn quotes_trimmed(v: &Vec<char>, a: usize, b: usize) -> (r: Vec<char>)
    requires
        a <= b <= v.len(),
    ensures
        r@ == trim_quotes(v@.subrange(a as int, b as int)),
{
    let mut lo = a;
    proof {
        assert(v@.subrange(a as int, b as int) =~= v@.subrange(lo as int, b as int));
    }
    while lo < b && v[lo] == '"'
        invariant
            a <= lo <= b <= v.len(),
            trim_quotes_start(v@.subrange(a as int, b as int)) == trim_quotes_start(
                v@.subrange(lo as int, b as int),
            ),
        decreases b - lo,
    {
        proof {
            assert(v@.subrange(lo as int, b as int).drop_first() =~= v@.subrange(lo + 1, b as int));
        }
        lo += 1;
    }
    let mut hi = b;
    proof {
        assert(trim_quotes_start(v@.subrange(lo as int, b as int)) == v@.subrange(lo as int, b as int));
    }
    while hi > lo && v[hi - 1] == '"'
        invariant
            lo <= hi <= b <= v.len(),
            trim_quotes(v@.subrange(a as int, b as int)) == trim_quotes_end(
                v@.subrange(lo as int, hi as int),
            ),
        decreases hi,
    {
        proof {
            assert(v@.subrange(lo as int, hi as int).drop_last() =~= v@.subrange(lo as int, hi - 1));
        }
        hi -= 1;
    }
    crate::text::slice(v, lo, hi)
}

impl Action {
    /// The action a schedule line writes, if it writes one: the leftmost
    /// `YYYY-MM-DD HH:MM:SS <id> on|off` in it, `on` and `off` in any case,
    /// the id running to the last such word and stripped of `"` at its ends.
    pub fn parse(line: &str) -> (r: Option<Action>)
        ensures
            match line_action(line@) {
                Some(a) => r matches Some(x) && action_view(x) == a,
                None => r is None,
            },
    {
        let v = chars_of(line);
        let (i, p) = match find_match(&v) {
            Some(m) => m,
            None => {
                return None;
            },
        };
        proof {
            lemma_first_match(v@, 0);
            let m = first_match(v@, 0)->0;
            lemma_last_id_end(v@, m.0, v@.len() as int);
            assert(stamp_at(v@, i as int));
            assert forall|k: int| i <= k < i + 4 implies is_digit(#[trigger] v@[k]) by {
                assert(is_digit(v@[i + (k - i)]));
            }
            assert forall|k: int| i + 5 <= k < i + 7 implies is_digit(#[trigger] v@[k]) by {
                assert(is_digit(v@[i + (k - i)]));
            }
            assert forall|k: int| i + 8 <= k < i + 10 implies is_digit(#[trigger] v@[k]) by {
                assert(is_digit(v@[i + (k - i)]));
            }
            assert forall|k: int| i + 11 <= k < i + 13 implies is_digit(#[trigger] v@[k]) by {
                assert(is_digit(v@[i + (k - i)]));
            }
            assert forall|k: int| i + 14 <= k < i + 16 implies is_digit(#[trigger] v@[k]) by {
                assert(is_digit(v@[i + (k - i)]));
            }
            assert forall|k: int| i + 17 <= k < i + 19 implies is_digit(#[trigger] v@[k]) by {
                assert(is_digit(v@[i + (k - i)]));
            }
        }
        let year = digits(&v, i, i + 4);
        let month = digits(&v, i + 5, i + 7);
        let day = digits(&v, i + 8, i + 10);
        let h = digits(&v, i + 11, i + 13);
        let mi = digits(&v, i + 14, i + 16);
        let sec = digits(&v, i + 17, i + 19);
        let date = match Date::from_ymd(year as i32, month, day) {
            Some(d) => d,
            None => {
                return None;
            },
        };
        let tod = match LocalTime::from_hms(h, mi, sec) {
            Some(t) => t,
            None => {
                return None;
            },
        };
        proof {
            assert(-2147483648 - UNIX_EPOCH_DAY_CE <= date.day <= 2147483647 - UNIX_EPOCH_DAY_CE);
            assert(-crate::time::MAX_DAY_SPAN <= date.day * DAY_MILLIS <= crate::time::MAX_DAY_SPAN)
                by (nonlinear_arith)
                requires
                    -2147483648 - UNIX_EPOCH_DAY_CE <= date.day <= 2147483647 - UNIX_EPOCH_DAY_CE,
            ;
        }
        let time = LocalDateTime::at(date, tod);
        let id = string_of(&quotes_trimmed(&v, i + 20, p));
        proof {
            let m = first_match(v@, 0)->0;
            assert(m.0 == i && m.1 == p);
            assert(field(v@, i as int, i + 4) == year);
            assert(stamp_time(v@, i as int) == Some(time.ms as int));
            assert(line_action(v@) == Some((time.ms as int, id@, switch_word_at(v@, p as int)->0)));
        }
        match switch_word_here(&v, p) {
            Some(true) => Some(Action::TurnOn { time, id }),
            Some(false) => Some(Action::TurnOff { time, id }),
            None => None,
        }
    }
}

} // verus!

verus! {

/// A line without the carriage return before its line break.
pub open spec fn strip_cr(s: Seq<char>) -> Seq<char> {
    if s.len() > 0 && s.last() == '\r' {
        s.drop_last()
    } else {
        s
    }
}

/// The lines of a text, as `str::lines` gives them: split at `\n`, a `\r`
/// before the `\n` dropped, no line after a final `\n`.
pub open spec fn lines_of(s: Seq<char>) -> Seq<Seq<char>> {
    let parts = split_all(s, '\n');
    let body = Seq::new((parts.len() - 1) as nat, |k: int| strip_cr(parts[k]));
    if parts.last().len() == 0 {
        body
    } else {
        body.push(parts.last())
    }
}

/// The actions the lines write, in their order; other lines are skipped.
pub open spec fn parsed_actions(lines: Seq<Seq<char>>) -> Seq<(int, Seq<char>, bool)>
    decreases lines.len(),
{
    if lines.len() == 0 {
        Seq::empty()
    } else {
        let r = parsed_actions(lines.drop_last());
        match line_action(lines.last()) {
            Some(a) => r.push(a),
            None => r,
        }
    }
}

/// How many actions lead `s` up to the first one after `t`.
pub open spec fn until_after(s: Seq<(int, Seq<char>, bool)>, t: int) -> int
    decreases s.len(),
{
    if s.len() == 0 || s[0].0 > t {
        0
    } else {
        1 + until_after(s.drop_first(), t)
    }
}

/// `s` sorted by time, actions of one time in their order.
pub open spec fn by_time(s: Seq<(int, Seq<char>, bool)>) -> Seq<(int, Seq<char>, bool)>
    decreases s.len(),
{
    if s.len() == 0 {
        s
    } else {
        let r = by_time(s.drop_last());
        r.insert(until_after(r, s.last().0), s.last())
    }
}

pub open spec fn actions_view(s: Seq<Action>) -> Seq<(int, Seq<char>, bool)> {
    s.map_values(|a: Action| action_view(a))
}

proof fn lemma_until_after(s: Seq<(int, Seq<char>, bool)>, t: int, p: int)
    requires
        0 <= p <= s.len(),
        forall|k: int| 0 <= k < p ==> s[k].0 <= t,
        p < s.len() ==> s[p].0 > t,
    ensures
        until_after(s, t) == p,
    decreases p,
{
    if p > 0 {
        let q = s.drop_first();
        assert forall|k: int| 0 <= k < p - 1 implies q[k].0 <= t by {
            assert(q[k] == s[k + 1]);
        }
        if p < s.len() {
            assert(q[p - 1] == s[p]);
        }
        lemma_until_after(q, t, p - 1);
    }
}

impl std::str::FromStr for Action {
    type Err = String;

    fn from_str(line: &str) -> Result<Action, String> {
        match Action::parse(line) {
            Some(a) => Ok(a),
            None => Err("does not match schedule action format".to_owned()),
        }
    }
}

/// A schedule: actions ordered by time.
#[derive(Debug, Clone)]
pub struct Schedule {
    pub actions: Vec<Action>,
}

/// The parts of `v` between the occurrences of `c`.
pub(crate) fn split_parts(v: &Vec<char>, c: char) -> (r: Vec<Vec<char>>)
    ensures
        r@.map_values(|p: Vec<char>| p@) == split_all(v@, c),
{
    let mut rest = crate::text::slice(v, 0, v.len());
    let mut parts: Vec<Vec<char>> = Vec::new();
    let ghost all = split_all(v@, c);
    let mut done = false;
    proof {
        assert(v@.subrange(0, v.len() as int) =~= v@);
        assert(all.skip(0) =~= all);
    }
    while !done
        invariant
            all == split_all(v@, c),
            parts.len() <= all.len(),
            !done ==> split_all(rest@, c) == all.skip(parts.len() as int),
            done ==> parts.len() == all.len(),
            parts@.map_values(|p: Vec<char>| p@) == all.take(parts.len() as int),
        decreases all.len() - parts.len() + if done {
            0int
        } else {
            1int
        },
    {
        let split = crate::text::split_once(&rest, c);
        proof {
            crate::text::lemma_split_first_len(rest@, c);
        }
        let ghost n = parts.len() as int;
        let (part, next, last) = match split {
            Some((a, b)) => (a, b, false),
            None => (rest, Vec::new(), true),
        };
        proof {
            assert(all.skip(n).len() > 0);
            assert(all.skip(n)[0] == part@);
            assert(all[n] == part@);
            assert(all.skip(n).drop_first() =~= all.skip(n + 1));
            if !last {
                assert(split_all(next@, c) == all.skip(n + 1));
            } else {
                assert(all.skip(n + 1).len() == 0);
            }
        }
        parts.push(part);
        proof {
            assert(parts@.map_values(|p: Vec<char>| p@) =~= all.take(n + 1));
        }
        rest = next;
        done = last;
    }
    proof {
        assert(all.take(all.len() as int) =~= all);
    }
    parts
}

impl Schedule {
    /// The schedule that a text writes, one action per line, ordered by time;
    /// lines that write no action are skipped.
    pub fn from_string(text: &str) -> (r: Schedule)
        ensures
            actions_view(r.actions@) == by_time(parsed_actions(lines_of(text@))),
    {
        let v = chars_of(text);
        let parts = split_parts(&v, '\n');
        let ghost pv = parts@.map_values(|p: Vec<char>| p@);
        let ghost lines = lines_of(text@);
        let n = parts.len();
        proof {
            assert(pv.len() > 0) by {
                assert(split_all(v@, '\n').len() > 0);
            }
        }
        let mut actions: Vec<Action> = Vec::new();
        let mut k: usize = 0;
        proof {
            assert(lines.take(0) =~= Seq::<Seq<char>>::empty());
            assert(actions_view(actions@) =~= by_time(parsed_actions(lines.take(0))));
        }
        let count: usize = if parts[n - 1].len() == 0 {
            n - 1
        } else {
            n
        };
        proof {
            assert(count == lines.len());
        }
        while k < count
            invariant
                n == parts.len(),
                n > 0,
                pv == parts@.map_values(|p: Vec<char>| p@),
                lines == lines_of(text@),
                pv == split_all(text@, '\n'),
                count == lines.len(),
                k <= count,
                actions_view(actions@) == by_time(parsed_actions(lines.take(k as int))),
            decreases count - k,
        {
            let line: Vec<char> = if k < n - 1 {
                let part = &parts[k];
                if part.len() > 0 && part[part.len() - 1] == '\r' {
                    crate::text::slice(part, 0, part.len() - 1)
                } else {
                    crate::text::slice(part, 0, part.len())
                }
            } else {
                crate::text::slice(&parts[k], 0, parts[k].len())
            };
            proof {
                assert(pv[k as int] == parts@[k as int]@);
                if k < n - 1 {
                    assert(line@ =~= strip_cr(pv[k as int]));
                } else {
                    assert(line@ =~= pv[k as int]);
                }
                assert(line@ == lines[k as int]);
                assert(lines.take(k + 1).drop_last() =~= lines.take(k as int));
            }
            let text_line = string_of(&line);
            let ghost prev = parsed_actions(lines.take(k as int));
            let ghost taken = lines.take(k + 1);
            proof {
                assert(taken.last() == lines[k as int]);
            }
            match Action::parse(text_line.as_str()) {
                Some(a) => {
                    proof {
                        let x = action_view(a);
                        assert(line_action(lines[k as int]) == Some(x));
                        assert(parsed_actions(taken) == prev.push(x));
                        assert(prev.push(x).drop_last() =~= prev);
                        assert(by_time(prev.push(x)) == by_time(prev).insert(
                            until_after(by_time(prev), x.0),
                            x,
                        ));
                    }
                    let t = a.time().ms;
                    let ghost before = actions_view(actions@);
                    let mut p: usize = 0;
                    while p < actions.len() && actions[p].time().ms <= t
                        invariant
                            p <= actions.len(),
                            before == actions_view(actions@),
                            forall|m: int| 0 <= m < p ==> before[m].0 <= t,
                        decreases actions.len() - p,
                    {
                        proof {
                            assert(before[p as int] == action_view(actions@[p as int]));
                        }
                        p += 1;
                    }
                    proof {
                        if p < actions.len() {
                            assert(before[p as int] == action_view(actions@[p as int]));
                        }
                        lemma_until_after(before, t as int, p as int);
                    }
                    actions.insert(p, a);
                    proof {
                        assert(actions_view(actions@) =~= before.insert(p as int, action_view(a)));
                    }
                },
                None => {
                    proof {
                        assert(parsed_actions(taken) == prev);
                    }
                },
            }
            k += 1;
        }
        proof {
            assert(lines.take(count as int) =~= lines);
        }
        Schedule { actions }
    }

    /// The first action after `at`.
    pub fn next_action(&self, at: LocalDateTime) -> (r: Option<Action>)
        ensures
            r is None <==> forall|k: int| 0 <= k < self.actions.len() ==> (#[trigger] self.actions@[k]).spec_time().ms <= at.ms,
            r matches Some(a) ==> exists|i: int|
                0 <= i < self.actions.len() && self.actions@[i] == a && a.spec_time().ms > at.ms
                    && forall|k: int| 0 <= k < i ==> (#[trigger] self.actions@[k]).spec_time().ms <= at.ms,
    {
        let mut i: usize = 0;
        while i < self.actions.len()
            invariant
                i <= self.actions.len(),
                forall|k: int| 0 <= k < i ==> (#[trigger] self.actions@[k]).spec_time().ms <= at.ms,
            decreases self.actions.len() - i,
        {
            if self.actions[i].time().ms > at.ms {
                return Some(self.actions[i].clone_action());
            }
            i += 1;
        }
        None
    }

    /// The last action of the run of actions at or before `at` that opens
    /// the schedule.
    pub fn last_action(&self, at: LocalDateTime) -> (r: Option<&Action>)
        ensures
            r is None <==> (self.actions.len() == 0 || self.actions@[0].spec_time().ms > at.ms),
            r matches Some(a) ==> exists|i: int|
                0 <= i < self.actions.len() && #[trigger] self.actions@[i] == *a
                    && (forall|k: int| 0 <= k <= i ==> (#[trigger] self.actions@[k]).spec_time().ms <= at.ms)
                    && (i + 1 == self.actions.len() || self.actions@[i + 1].spec_time().ms > at.ms),
    {
        let mut i: usize = 0;
        while i < self.actions.len() && self.actions[i].time().ms <= at.ms
            invariant
                i <= self.actions.len(),
                forall|k: int| 0 <= k < i ==> (#[trigger] self.actions@[k]).spec_time().ms <= at.ms,
            decreases self.actions.len() - i,
        {
            i += 1;
        }
        if i == 0 {
            None
        } else {
            Some(&self.actions[i - 1])
        }
    }
}

} // verus!
