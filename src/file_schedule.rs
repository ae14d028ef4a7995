//! The schedule file of the device controller: lines of a time stamp
//! `YYYY-MM-DD HH:MM:SS` and a switching word, followed on change.
use crate::text::{chars_of, split_all, string_of};
use crate::time::{
    datetime_fields, datetime_fields_of, days_from_ce_of, Date, LocalDateTime, LocalTime,
    DAY_MILLIS, UNIX_EPOCH_DAY_CE,
};
use vstd::prelude::*;

verus! {

#[derive(Debug, Clone, Copy, PartialEq, Eq, Structural)]
pub enum Action {
    TurnOn,
    TurnOff,
    Unknown,
}

/// The action a switching word names.
pub open spec fn word_action(w: Seq<char>) -> Action {
    if w == "on"@ {
        Action::TurnOn
    } else if w == "off"@ {
        Action::TurnOff
    } else {
        Action::Unknown
    }
}

impl Action {
    pub fn from_word(w: &str) -> (r: Action)
        ensures
            r == word_action(w@),
    {
        if crate::text::same_text(w, "on") {
            Action::TurnOn
        } else if crate::text::same_text(w, "off") {
            Action::TurnOff
        } else {
            Action::Unknown
        }
    }
}

impl<'a> From<&'a str> for Action {
    fn from(w: &'a str) -> (r: Action) {
        Action::from_word(w)
    }
}

impl<'a> vstd::std_specs::convert::FromSpecImpl<&'a str> for Action {
    open spec fn obeys_from_spec() -> bool {
        true
    }

    open spec fn from_spec(w: &'a str) -> Action {
        word_action(w@)
    }
}

/// The switching word at `q`: `:on`, `on` or `off`.
pub open spec fn word_at(s: Seq<char>, q: int) -> Option<Seq<char>> {
    if 0 <= q && q + 3 <= s.len() && s.subrange(q, q + 3) == ":on"@ {
        Some(":on"@)
    } else if 0 <= q && q + 2 <= s.len() && s.subrange(q, q + 2) == "on"@ {
        Some("on"@)
    } else if 0 <= q && q + 3 <= s.len() && s.subrange(q, q + 3) == "off"@ {
        Some("off"@)
    } else {
        None
    }
}

/// The last space below `hi` that a switching word follows.
pub open spec fn last_word_space(s: Seq<char>, hi: int) -> Option<int>
    decreases hi,
{
    if hi <= 0 {
        None
    } else if s[hi - 1] == ' ' && word_at(s, hi) is Some {
        Some(hi - 1)
    } else {
        last_word_space(s, hi - 1)
    }
}

/// The format of the time stamps.
pub open spec fn stamp_format() -> Seq<char> {
    "%Y-%m-%d %H:%M:%S"@
}

/// The instant a time stamp text names, as chrono reads it.
pub open spec fn stamp_millis(text: Seq<char>) -> Option<int> {
    match datetime_fields_of(text, stamp_format()) {
        Some(f) => match days_from_ce_of(f.0, f.1, f.2) {
            Some(n) => if f.3 < 24 && f.4 < 60 && f.5 < 60 {
                Some((n - UNIX_EPOCH_DAY_CE) * DAY_MILLIS + ((f.3 * 60 + f.4) * 60 + f.5) * 1000)
            } else {
                None
            },
            None => None,
        },
        None => None,
    }
}

/// What a line of a schedule file says: the text before the last space that
/// a switching word follows is the time stamp.
pub open spec fn line_entry(s: Seq<char>) -> Option<(int, Action)> {
    match last_word_space(s, s.len() as int) {
        Some(p) => match stamp_millis(s.take(p)) {
            Some(t) => Some((t, word_action(word_at(s, p + 1)->0))),
            None => None,
        },
        None => None,
    }
}

/// The entries the lines write, in their order.
pub open spec fn line_entries(lines: Seq<Seq<char>>) -> Seq<(int, Action)>
    decreases lines.len(),
{
    if lines.len() == 0 {
        Seq::empty()
    } else {
        let r = line_entries(lines.drop_last());
        match line_entry(lines.last()) {
            Some(e) => r.push(e),
            None => r,
        }
    }
}

pub open spec fn until_after(s: Seq<(int, Action)>, t: int) -> int
    decreases s.len(),
{
    if s.len() == 0 || s[0].0 > t {
        0
    } else {
        1 + until_after(s.drop_first(), t)
    }
}

/// `s` sorted by time, entries of one time in their order.
pub open spec fn by_time(s: Seq<(int, Action)>) -> Seq<(int, Action)>
    decreases s.len(),
{
    if s.len() == 0 {
        s
    } else {
        let r = by_time(s.drop_last());
        r.insert(until_after(r, s.last().0), s.last())
    }
}

pub open spec fn entries_view(s: Seq<(LocalDateTime, Action)>) -> Seq<(int, Action)> {
    s.map_values(|e: (LocalDateTime, Action)| (e.0.ms as int, e.1))
}

proof fn lemma_until_after(s: Seq<(int, Action)>, t: int, p: int)
    requires
        0 <= p <= s.len(),
        forall|k: int| 0 <= k < p ==> s[k].0 <= t,
        p < s.len() ==> s[p].0 > t,
    ensures
        until_after(s, t) == p,
    decreases p,
{
    if p > 0 {
        let q = s.drop_first();
        assert forall|k: int| 0 <= k < p - 1 implies q[k].0 <= t by {
            assert(q[k] == s[k + 1]);
        }
        if p < s.len() {
            assert(q[p - 1] == s[p]);
        }
        lemma_until_after(q, t, p - 1);
    }
}

fn word_here(v: &Vec<char>, q: usize) -> (r: Option<&'static str>)
    ensures
        match word_at(v@, q as int) {
            Some(w) => r matches Some(x) && x@ == w,
            None => r is None,
        },
{
    proof {
        reveal_strlit(":on");
        reveal_strlit("on");
        reveal_strlit("off");
    }
    let n = v.len();
    if q <= n && n - q >= 3 && v[q] == ':' && v[q + 1] == 'o' && v[q + 2] == 'n' {
        proof {
            assert(v@.subrange(q as int, q + 3) =~= ":on"@);
        }
        return Some(":on");
    }
    proof {
        if q + 3 <= n {
            assert(v@.subrange(q as int, q + 3)[0] == v@[q as int]);
            assert(v@.subrange(q as int, q + 3)[1] == v@[q + 1]);
            assert(v@.subrange(q as int, q + 3)[2] == v@[q + 2]);
        }
        if q + 2 <= n {
            assert(v@.subrange(q as int, q + 2)[0] == v@[q as int]);
            assert(v@.subrange(q as int, q + 2)[1] == v@[q + 1]);
        }
    }
    if q <= n && n - q >= 2 && v[q] == 'o' && v[q + 1] == 'n' {
        proof {
            assert(v@.subrange(q as int, q + 2) =~= "on"@);
        }
        return Some("on");
    }
    if q <= n && n - q >= 3 && v[q] == 'o' && v[q + 1] == 'f' && v[q + 2] == 'f' {
        proof {
            assert(v@.subrange(q as int, q + 3) =~= "off"@);
        }
        return Some("off");
    }
    None
}

/// The entry a line of a schedule file writes, if it writes one.
pub fn parse_line(line: &str) -> (r: Option<(LocalDateTime, Action)>)
    ensures
        match line_entry(line@) {
            Some(e) => r matches Some(x) && x.0.ms == e.0 && x.1 == e.1,
            None => r is None,
        },
{
    let v = chars_of(line);
    let mut hi = v.len();
    let mut found: Option<(usize, &'static str)> = None;
    while hi > 0
        invariant_except_break
            last_word_space(v@, v.len() as int) == last_word_space(v@, hi as int),
            found is None,
        invariant
            hi <= v.len(),
            v@ == line@,
        ensures
            found matches Some(f) ==> last_word_space(v@, v.len() as int) == Some(f.0 as int) && (word_at(
                v@,
                f.0 + 1,
            ) matches Some(w) && f.1@ == w),
            found is None ==> last_word_space(v@, v.len() as int) is None,
        decreases hi,
    {
        if v[hi - 1] == ' ' {
            match word_here(&v, hi) {
                Some(w) => {
                    found = Some((hi - 1, w));
                    break;
                },
                None => {},
            }
        }
        hi -= 1;
    }
    let (p, w) = match found {
        Some(f) => f,
        None => {
            return None;
        },
    };
    let stamp = string_of(&crate::text::slice(&v, 0, p));
    proof {
        assert(v@.subrange(0, p as int) =~= v@.take(p as int));
        reveal_strlit("%Y-%m-%d %H:%M:%S");
    }
    let fields = match datetime_fields(stamp.as_str(), "%Y-%m-%d %H:%M:%S") {
        Some(f) => f,
        None => {
            return None;
        },
    };
    let (year, month, day, h, mi, sec) = fields;
    let date = match Date::from_ymd(year, month, day) {
        Some(d) => d,
        None => {
            return None;
        },
    };
    let tod = match LocalTime::from_hms(h, mi, sec) {
        Some(t) => t,
        None => {
            return None;
        },
    };
    assert(-crate::time::MAX_DAY_SPAN <= date.day * DAY_MILLIS <= crate::time::MAX_DAY_SPAN)
        by (nonlinear_arith)
        requires
            -2147483648 - UNIX_EPOCH_DAY_CE <= date.day <= 2147483647 - UNIX_EPOCH_DAY_CE,
    ;
    let time = LocalDateTime::at(date, tod);
    Some((time, Action::from_word(w)))
}

/// A schedule file's entries, ordered by time, and the file.
#[derive(Debug, Clone)]
pub struct Schedule {
    pub actions: Vec<(LocalDateTime, Action)>,
    pub schedule_file: String,
}

impl Schedule {
    /// The schedule that the text of `schedule_file` writes: each line with
    /// an entry, ordered by time; other lines are skipped.
    pub fn from_text(text: &str, schedule_file: &str) -> (r: Schedule)
        ensures
            entries_view(r.actions@) == by_time(line_entries(split_all(text@, '\n'))),
            r.schedule_file@ == schedule_file@,
    {
        let v = chars_of(text);
        let parts = crate::schedule::split_parts(&v, '\n');
        let ghost lines = split_all(text@, '\n');
        let mut actions: Vec<(LocalDateTime, Action)> = Vec::new();
        let mut k: usize = 0;
        proof {
            assert(lines.take(0) =~= Seq::<Seq<char>>::empty());
            assert(entries_view(actions@) =~= by_time(line_entries(lines.take(0))));
        }
        while k < parts.len()
            invariant
                parts@.map_values(|p: Vec<char>| p@) == lines,
                lines == split_all(text@, '\n'),
                k <= parts.len(),
                entries_view(actions@) == by_time(line_entries(lines.take(k as int))),
            decreases parts.len() - k,
        {
            let line = string_of(&parts[k]);
            let ghost prev = line_entries(lines.take(k as int));
            let ghost taken = lines.take(k + 1);
            proof {
                assert(lines[k as int] == parts@[k as int]@);
                assert(taken.last() == lines[k as int]);
                assert(taken.drop_last() =~= lines.take(k as int));
            }
            match parse_line(line.as_str()) {
                Some(e) => {
                    let t = e.0.ms;
                    let ghost x = (t as int, e.1);
                    let ghost before = entries_view(actions@);
                    proof {
                        assert(line_entries(taken) == prev.push(x));
                        assert(prev.push(x).drop_last() =~= prev);
                    }
                    let mut p: usize = 0;
                    while p < actions.len() && actions[p].0.ms <= t
                        invariant
                            p <= actions.len(),
                            before == entries_view(actions@),
                            forall|m: int| 0 <= m < p ==> before[m].0 <= t,
                        decreases actions.len() - p,
                    {
                        p += 1;
                    }
                    proof {
                        lemma_until_after(before, t as int, p as int);
                    }
                    actions.insert(p, e);
                    proof {
                        assert(entries_view(actions@) =~= before.insert(p as int, x));
                    }
                },
                None => {
                    proof {
                        assert(line_entries(taken) == prev);
                    }
                },
            }
            k += 1;
        }
        proof {
            assert(lines.take(parts.len() as int) =~= lines);
        }
        Schedule { actions, schedule_file: schedule_file.to_owned() }
    }

    /// The first entry after `at`.
    pub fn next_action(&self, at: LocalDateTime) -> (r: Option<(LocalDateTime, Action)>)
        ensures
            r is None <==> forall|k: int| 0 <= k < self.actions.len() ==> (#[trigger] self.actions@[k]).0.ms <= at.ms,
            r matches Some(e) ==> exists|i: int|
                0 <= i < self.actions.len() && #[trigger] self.actions@[i] == e && e.0.ms > at.ms
                    && forall|k: int| 0 <= k < i ==> (#[trigger] self.actions@[k]).0.ms <= at.ms,
    {
        let mut i: usize = 0;
        while i < self.actions.len()
            invariant
                i <= self.actions.len(),
                forall|k: int| 0 <= k < i ==> (#[trigger] self.actions@[k]).0.ms <= at.ms,
            decreases self.actions.len() - i,
        {
            if self.actions[i].0.ms > at.ms {
                return Some(self.actions[i]);
            }
            i += 1;
        }
        None
    }

    /// The last entry of the run of entries at or before `at` that opens the
    /// schedule.
    pub fn last_action(&self, at: LocalDateTime) -> (r: Option<&(LocalDateTime, Action)>)
        ensures
            r is None <==> (self.actions.len() == 0 || self.actions@[0].0.ms > at.ms),
            r matches Some(e) ==> exists|i: int|
                0 <= i < self.actions.len() && #[trigger] self.actions@[i] == *e
                    && (forall|k: int| 0 <= k <= i ==> (#[trigger] self.actions@[k]).0.ms <= at.ms)
                    && (i + 1 == self.actions.len() || self.actions@[i + 1].0.ms > at.ms),
    {
        let mut i: usize = 0;
        while i < self.actions.len() && self.actions[i].0.ms <= at.ms
            invariant
                i <= self.actions.len(),
                forall|k: int| 0 <= k < i ==> (#[trigger] self.actions@[k]).0.ms <= at.ms,
            decreases self.actions.len() - i,
        {
            i += 1;
        }
        if i == 0 {
            None
        } else {
            Some(&self.actions[i - 1])
        }
    }
}

} // verus!
