//! Schedule entries and the interval deriver: from timed on/off entries and
//! a window, the ordered, deduplicated, gap-free sequence of state intervals.
use crate::time::{Date, LocalDateTime, LocalTime, TimeDelta, DAY_MILLIS, MAX_DAY_SPAN};
use vstd::prelude::*;

verus! {

/// Whether the light should be off or on; `Off` is the default.
#[derive(Debug, Clone, Copy, PartialEq, Eq, Structural)]
pub enum State {
    Off,
    On,
}

/// On which days an entry applies.
#[derive(Debug, Clone, Copy, PartialEq, Eq, Structural)]
pub enum When {
    Daily,
    Date(Date),
}

/// A rule: at `time` on the days given by `when`, switch to `state`.
#[derive(Debug, Clone, Copy, PartialEq, Eq, Structural)]
pub struct Entry {
    pub when: When,
    pub time: LocalTime,
    pub state: State,
}

/// A resolved point of the schedule: from `when` on, `state` applies.
#[derive(Debug, Clone, Copy, PartialEq, Eq, Structural)]
pub struct StateChange {
    pub when: LocalDateTime,
    pub state: State,
}

/// The half-open span `[start, end)` during which `state` applies.
#[derive(Debug, Clone, Copy, PartialEq, Eq, Structural)]
pub struct Interval {
    pub start: LocalDateTime,
    pub end: LocalDateTime,
    pub state: State,
}

/// The controller's configuration: which device, the scheduling window, how
/// often the state is checked anyway, and the entries.
#[derive(Debug, Clone)]
pub struct Config {
    pub device: String,
    pub start: LocalDateTime,
    pub end: LocalDateTime,
    pub check_state: TimeDelta,
    pub entries: Vec<Entry>,
}

/// The default state is `Off`.
impl Default for State {
    fn default() -> (r: State)
        ensures
            r == State::Off,
    {
        State::Off
    }
}

impl State {
    /// The lowercase name of the state, as configuration files write it.
    pub fn as_str(&self) -> (r: &'static str)
        ensures
            r@ == state_name(*self),
    {
        match self {
            State::Off => {
                proof {
                    reveal_strlit("off");
                }
                "off"
            },
            State::On => {
                proof {
                    reveal_strlit("on");
                }
                "on"
            },
        }
    }
}

pub open spec fn state_name(s: State) -> Seq<char> {
    match s {
        State::Off => seq!['o', 'f', 'f'],
        State::On => seq!['o', 'n'],
    }
}

// ---------------------------------------------------------------------------
// The model: a change is an instant (in milliseconds) and a state.

pub open spec fn change_view(c: StateChange) -> (int, State) {
    (c.when.ms as int, c.state)
}

pub open spec fn changes_view(s: Seq<StateChange>) -> Seq<(int, State)> {
    s.map_values(|c: StateChange| change_view(c))
}

pub open spec fn interval_view(iv: Interval) -> (int, int, State) {
    (iv.start.ms as int, iv.end.ms as int, iv.state)
}

pub open spec fn intervals_view(s: Seq<Interval>) -> Seq<(int, int, State)> {
    s.map_values(|iv: Interval| interval_view(iv))
}

/// Whether the entry applies on calendar day `day`.
pub open spec fn fires_on(e: Entry, day: int) -> bool {
    match e.when {
        When::Daily => true,
        When::Date(d) => d.day == day,
    }
}

/// The instant of time of day `time` on calendar day `day`.
pub open spec fn at_day(day: int, time: LocalTime) -> int {
    day * DAY_MILLIS + time.ms
}

/// The changes the entries produce on one day, in the order of the entries.
pub open spec fn day_changes(entries: Seq<Entry>, day: int) -> Seq<(int, State)>
    decreases entries.len(),
{
    if entries.len() == 0 {
        Seq::empty()
    } else {
        let rest = day_changes(entries.drop_last(), day);
        let e = entries.last();
        if fires_on(e, day) {
            rest.push((at_day(day, e.time), e.state))
        } else {
            rest
        }
    }
}

/// The changes the entries produce on the days `from .. to`, day by day.
pub open spec fn candidates(entries: Seq<Entry>, from: int, to: int) -> Seq<(int, State)>
    decreases to - from,
{
    if to <= from {
        Seq::empty()
    } else {
        candidates(entries, from, to - 1) + day_changes(entries, to - 1)
    }
}

pub open spec fn strictly_increasing(s: Seq<(int, State)>) -> bool {
    forall|i: int, j: int| 0 <= i < j < s.len() ==> s[i].0 < s[j].0
}

pub open spec fn adjacent_distinct(s: Seq<(int, State)>) -> bool {
    forall|i: int| #![trigger s[i], s[i + 1]] 0 <= i < s.len() - 1 ==> s[i].1 != s[i + 1].1
}

/// `j` is the first position of `c` at instant `t`.
pub open spec fn first_index_at(c: Seq<(int, State)>, t: int, j: int) -> bool {
    &&& 0 <= j < c.len()
    &&& c[j].0 == t
    &&& forall|k: int| 0 <= k < j ==> c[k].0 != t
}

/// Some change of `c` at the instant of `x` has `x`'s state, and none before it
/// is at that instant.
pub open spec fn has_first(c: Seq<(int, State)>, x: (int, State)) -> bool {
    exists|j: int| #[trigger] first_index_at(c, x.0, j) && c[j].1 == x.1
}

/// Some change of `r` is at instant `t`.
pub open spec fn covers(r: Seq<(int, State)>, t: int) -> bool {
    exists|i: int| 0 <= i < r.len() && #[trigger] r[i].0 == t
}

/// `r` holds each instant of `c` once, in increasing order, with the state of
/// the first change of `c` at that instant.
pub open spec fn is_sorted_first(c: Seq<(int, State)>, r: Seq<(int, State)>) -> bool {
    &&& strictly_increasing(r)
    &&& forall|i: int| 0 <= i < r.len() ==> #[trigger] has_first(c, r[i])
    &&& forall|j: int| 0 <= j < c.len() ==> #[trigger] covers(r, c[j].0)
}

/// The instants of `c` in increasing order, each with its first state.
pub open spec fn sorted_first(c: Seq<(int, State)>) -> Seq<(int, State)> {
    choose|r: Seq<(int, State)>| is_sorted_first(c, r)
}

/// The changes that entries make inside the window's days
/// `[begin's day, end's day)`, sorted, first-listed entry winning a tie.
pub open spec fn window_changes(entries: Seq<Entry>, begin: int, end: int) -> Seq<
    (int, State),
> {
    sorted_first(candidates(entries, begin / DAY_MILLIS as int, end / DAY_MILLIS as int))
}

/// `s` with a leading `begin` change and a trailing `end` change in the
/// default state, where `s` starts after `begin` or ends before `end`.
pub open spec fn with_bounds(s: Seq<(int, State)>, begin: int, end: int) -> Seq<(int, State)> {
    let lead: Seq<(int, State)> = if s[0].0 > begin {
        seq![(begin, State::Off)]
    } else {
        Seq::empty()
    };
    let trail: Seq<(int, State)> = if s.last().0 < end {
        seq![(end, State::Off)]
    } else {
        Seq::empty()
    };
    lead + s + trail
}

/// `s` without each change whose state equals the state of the change kept
/// before it.
pub open spec fn elide(s: Seq<(int, State)>) -> Seq<(int, State)>
    decreases s.len(),
{
    if s.len() <= 1 {
        s
    } else {
        let r = elide(s.drop_last());
        if r.last().1 == s.last().1 {
            r
        } else {
            r.push(s.last())
        }
    }
}

/// The state changes of the window `[begin, end)`. Where no entry applies
/// inside the window, the window's two ends in the default state.
#[verifier::opaque]
pub open spec fn derived_changes(entries: Seq<Entry>, begin: int, end: int) -> Seq<(int, State)> {
    let s = window_changes(entries, begin, end);
    if s.len() == 0 {
        if begin < end {
            seq![(begin, State::Off), (end, State::Off)]
        } else {
            Seq::empty()
        }
    } else {
        elide(with_bounds(s, begin, end))
    }
}

/// Each change with the next one: the interval it starts.
pub open spec fn pairs(s: Seq<(int, State)>) -> Seq<(int, int, State)> {
    if s.len() == 0 {
        Seq::empty()
    } else {
        Seq::new((s.len() - 1) as nat, |i: int| (s[i].0, s[i + 1].0, s[i].1))
    }
}

pub open spec fn derived_intervals(entries: Seq<Entry>, begin: int, end: int) -> Seq<
    (int, int, State),
> {
    pairs(derived_changes(entries, begin, end))
}

/// The state of the last change at or before `t`.
pub open spec fn state_in_effect(s: Seq<(int, State)>, t: int) -> Option<State>
    decreases s.len(),
{
    if s.len() == 0 {
        None
    } else if s.last().0 <= t {
        Some(s.last().1)
    } else {
        state_in_effect(s.drop_last(), t)
    }
}

// ---------------------------------------------------------------------------
// Lemmas on sorting with the first change winning.

/// A first change of `c` stays first when `c` grows.
proof fn lemma_has_first_push(c: Seq<(int, State)>, x: (int, State), y: (int, State))
    requires
        has_first(c, y),
    ensures
        has_first(c.push(x), y),
{
    let c2 = c.push(x);
    let j = choose|j: int| #[trigger] first_index_at(c, y.0, j) && c[j].1 == y.1;
    assert forall|k: int| 0 <= k < j implies c2[k].0 != y.0 by {
        assert(c2[k] == c[k]);
    }
    assert(first_index_at(c2, y.0, j));
}

/// Adding a change `x` at its place `p` keeps `r` the sorted-first form.
pub proof fn lemma_insert_step(c: Seq<(int, State)>, r: Seq<(int, State)>, x: (int, State), p: int)
    requires
        is_sorted_first(c, r),
        0 <= p <= r.len(),
        forall|k: int| 0 <= k < p ==> r[k].0 < x.0,
        p < r.len() ==> r[p].0 >= x.0,
    ensures
        is_sorted_first(
            c.push(x),
            if p < r.len() && r[p].0 == x.0 {
                r
            } else {
                r.insert(p, x)
            },
        ),
{
    let c2 = c.push(x);
    if p < r.len() && r[p].0 == x.0 {
        assert forall|i: int| 0 <= i < r.len() implies #[trigger] has_first(c2, r[i]) by {
            assert(has_first(c, r[i]));
            lemma_has_first_push(c, x, r[i]);
        }
        assert forall|j: int| 0 <= j < c2.len() implies #[trigger] covers(r, c2[j].0) by {
            if j < c.len() {
                assert(c2[j] == c[j]);
                assert(covers(r, c[j].0));
            } else {
                assert(r[p].0 == c2[j].0);
            }
        }
    } else {
        let r2 = r.insert(p, x);
        assert(p < r.len() ==> r[p].0 > x.0);
        assert forall|k: int| 0 <= k < c.len() implies c[k].0 != x.0 by {
            assert(covers(r, c[k].0));
            if c[k].0 == x.0 {
                let i = choose|i: int| 0 <= i < r.len() && #[trigger] r[i].0 == c[k].0;
                if i < p {
                } else {
                    assert(r[p].0 <= r[i].0);
                }
            }
        }
        assert forall|a: int, b: int| 0 <= a < b < r2.len() implies r2[a].0 < r2[b].0 by {
            if b < p {
            } else if b == p {
                assert(r2[a] == r[a]);
            } else if a < p {
                assert(r2[b] == r[b - 1]);
                assert(r[a].0 < x.0);
                if p < b - 1 {
                    assert(r[p].0 < r[b - 1].0);
                }
            } else if a == p {
                assert(r2[b] == r[b - 1]);
                if p < b - 1 {
                    assert(r[p].0 < r[b - 1].0);
                }
            } else {
                assert(r2[a] == r[a - 1]);
                assert(r2[b] == r[b - 1]);
            }
        }
        assert forall|i: int| 0 <= i < r2.len() implies #[trigger] has_first(c2, r2[i]) by {
            if i == p {
                assert(first_index_at(c2, r2[i].0, c.len() as int));
            } else {
                let i0 = if i < p {
                    i
                } else {
                    i - 1
                };
                assert(r2[i] == r[i0]);
                assert(has_first(c, r[i0]));
                lemma_has_first_push(c, x, r[i0]);
            }
        }
        assert forall|j: int| 0 <= j < c2.len() implies #[trigger] covers(r2, c2[j].0) by {
            if j < c.len() {
                assert(c2[j] == c[j]);
                assert(covers(r, c[j].0));
                let i = choose|i: int| 0 <= i < r.len() && #[trigger] r[i].0 == c[j].0;
                if i < p {
                    assert(r2[i] == r[i]);
                } else {
                    assert(r2[i + 1] == r[i]);
                }
            } else {
                assert(r2[p] == x);
            }
        }
    }
}

/// The first position at which `t` belongs in `r`.
pub open spec fn insert_pos(r: Seq<(int, State)>, t: int) -> int
    decreases r.len(),
{
    if r.len() == 0 || r[0].0 >= t {
        0
    } else {
        1 + insert_pos(r.drop_first(), t)
    }
}

pub proof fn lemma_insert_pos(r: Seq<(int, State)>, t: int)
    requires
        strictly_increasing(r),
    ensures
        0 <= insert_pos(r, t) <= r.len(),
        forall|k: int| 0 <= k < insert_pos(r, t) ==> r[k].0 < t,
        insert_pos(r, t) < r.len() ==> r[insert_pos(r, t)].0 >= t,
    decreases r.len(),
{
    if r.len() == 0 || r[0].0 >= t {
    } else {
        let q = r.drop_first();
        lemma_insert_pos(q, t);
        assert forall|k: int| 0 <= k < insert_pos(r, t) implies r[k].0 < t by {
            if k > 0 {
                assert(r[k] == q[k - 1]);
            }
        }
    }
}

/// Every sequence of changes has its sorted-first form.
pub proof fn lemma_sorted_first_exists(c: Seq<(int, State)>)
    ensures
        is_sorted_first(c, sorted_first(c)),
    decreases c.len(),
{
    if c.len() == 0 {
        let e: Seq<(int, State)> = Seq::empty();
        assert(is_sorted_first(c, e));
    } else {
        let c0 = c.drop_last();
        lemma_sorted_first_exists(c0);
        let r0 = sorted_first(c0);
        let x = c.last();
        lemma_insert_pos(r0, x.0);
        let p = insert_pos(r0, x.0);
        lemma_insert_step(c0, r0, x, p);
        assert(c0.push(x) =~= c);
    }
}

pub proof fn lemma_first_index_unique(c: Seq<(int, State)>, t: int, j1: int, j2: int)
    requires
        first_index_at(c, t, j1),
        first_index_at(c, t, j2),
    ensures
        j1 == j2,
{
}

/// The sorted-first form is unique.
pub proof fn lemma_sorted_first_unique(c: Seq<(int, State)>, r1: Seq<(int, State)>, r2: Seq<(int, State)>)
    requires
        is_sorted_first(c, r1),
        is_sorted_first(c, r2),
    ensures
        r1 == r2,
{
    assert forall|n: int| 0 <= n < r1.len() && n < r2.len() implies r1[n] == r2[n] by {
        lemma_sorted_first_prefix(c, r1, r2, n);
    }
    if r1.len() > r2.len() {
        let n = r2.len() as int;
        lemma_time_in(c, r1, r2, n);
        let i = choose|i: int| 0 <= i < r2.len() && #[trigger] r2[i].0 == r1[n].0;
        assert(r1[i] == r2[i]);
    } else if r2.len() > r1.len() {
        let n = r1.len() as int;
        lemma_time_in(c, r2, r1, n);
        let i = choose|i: int| 0 <= i < r1.len() && #[trigger] r1[i].0 == r2[n].0;
        assert(r1[i] == r2[i]);
    }
    assert(r1 =~= r2);
}

/// An instant of `r1` is an instant of `r2`.
proof fn lemma_time_in(c: Seq<(int, State)>, r1: Seq<(int, State)>, r2: Seq<(int, State)>, n: int)
    requires
        is_sorted_first(c, r1),
        is_sorted_first(c, r2),
        0 <= n < r1.len(),
    ensures
        covers(r2, r1[n].0),
{
    assert(has_first(c, r1[n]));
    let j = choose|j: int| #[trigger] first_index_at(c, r1[n].0, j) && c[j].1 == r1[n].1;
    assert(covers(r2, c[j].0));
}

proof fn lemma_sorted_first_prefix(c: Seq<(int, State)>, r1: Seq<(int, State)>, r2: Seq<(int, State)>, n: int)
    requires
        is_sorted_first(c, r1),
        is_sorted_first(c, r2),
        0 <= n < r1.len(),
        n < r2.len(),
    ensures
        forall|k: int| 0 <= k <= n ==> r1[k] == r2[k],
    decreases n,
{
    if n > 0 {
        lemma_sorted_first_prefix(c, r1, r2, n - 1);
    }
    lemma_time_in(c, r1, r2, n);
    lemma_time_in(c, r2, r1, n);
    let i = choose|i: int| 0 <= i < r2.len() && #[trigger] r2[i].0 == r1[n].0;
    let i2 = choose|i2: int| 0 <= i2 < r1.len() && #[trigger] r1[i2].0 == r2[n].0;
    if i < n {
        assert(r1[i] == r2[i]);
    } else if i > n {
        if i2 < n {
            assert(r1[i2] == r2[i2]);
        } else if i2 > n {
            assert(r1[n].0 < r1[i2].0);
        }
    }
    assert(r1[n].0 == r2[n].0);
    assert(has_first(c, r1[n]));
    assert(has_first(c, r2[n]));
    let j = choose|j: int| #[trigger] first_index_at(c, r1[n].0, j) && c[j].1 == r1[n].1;
    let jj = choose|jj: int| #[trigger] first_index_at(c, r2[n].0, jj) && c[jj].1 == r2[n].1;
    lemma_first_index_unique(c, r1[n].0, j, jj);
}

/// `r` is the sorted-first form of `c`.
pub proof fn lemma_sorted_first_is(c: Seq<(int, State)>, r: Seq<(int, State)>)
    requires
        is_sorted_first(c, r),
    ensures
        sorted_first(c) == r,
{
    lemma_sorted_first_exists(c);
    lemma_sorted_first_unique(c, sorted_first(c), r);
}

// ---------------------------------------------------------------------------
// Lemmas on eliding changes that change nothing.

/// Eliding keeps the first change, the last state, the order, and leaves no
/// two neighbours with one state.
pub proof fn lemma_elide(s: Seq<(int, State)>)
    ensures
        s.len() > 0 ==> elide(s).len() > 0 && elide(s)[0] == s[0] && elide(s).last().1 == s.last().1,
        s.len() == 0 ==> elide(s).len() == 0,
        adjacent_distinct(elide(s)),
        strictly_increasing(s) ==> strictly_increasing(elide(s)),
        strictly_increasing(s) && s.len() > 0 ==> elide(s).last().0 <= s.last().0,
    decreases s.len(),
{
    if s.len() > 1 {
        let s0 = s.drop_last();
        lemma_elide(s0);
        let r = elide(s0);
        if r.last().1 != s.last().1 {
            let r2 = r.push(s.last());
            assert forall|i: int| #![trigger r2[i], r2[i + 1]] 0 <= i < r2.len() - 1 implies r2[i].1 != r2[i + 1].1 by {
                if i < r.len() - 1 {
                    assert(r[i].1 != r[i + 1].1);
                }
            }
            if strictly_increasing(s) {
                assert(strictly_increasing(s0));
                assert(s0.last().0 < s.last().0);
                assert forall|i: int, j: int| 0 <= i < j < r2.len() implies r2[i].0 < r2[j].0 by {
                    if j == r.len() {
                        if i < r.len() - 1 {
                            assert(r[i].0 < r[r.len() - 1].0);
                        }
                    }
                }
            }
        } else if strictly_increasing(s) {
            assert(strictly_increasing(s0));
            assert(s0.last().0 < s.last().0);
        }
    }
}

/// Eliding changes nothing about which state is in effect at any instant.
pub proof fn lemma_elide_state_in_effect(s: Seq<(int, State)>, t: int)
    requires
        strictly_increasing(s),
    ensures
        state_in_effect(elide(s), t) == state_in_effect(s, t),
    decreases s.len(),
{
    if s.len() > 1 {
        let s0 = s.drop_last();
        assert(strictly_increasing(s0));
        lemma_elide_state_in_effect(s0, t);
        lemma_elide(s0);
        let r = elide(s0);
        assert(s0.last().0 < s.last().0);
        if r.last().1 != s.last().1 {
            assert(r.push(s.last()).drop_last() =~= r);
        }
    }
}

/// In an increasing sequence, the state in effect at a change's instant is
/// that change's state.
pub proof fn lemma_state_at_change(s: Seq<(int, State)>, k: int)
    requires
        strictly_increasing(s),
        0 <= k < s.len(),
    ensures
        state_in_effect(s, s[k].0) == Some(s[k].1),
    decreases s.len(),
{
    if k < s.len() - 1 {
        assert(s[k].0 < s.last().0);
        let s0 = s.drop_last();
        lemma_state_at_change(s0, k);
    }
}

/// Bounding an increasing sequence keeps it increasing.
pub proof fn lemma_with_bounds(s: Seq<(int, State)>, begin: int, end: int)
    requires
        strictly_increasing(s),
        s.len() > 0,
    ensures
        strictly_increasing(with_bounds(s, begin, end)),
        with_bounds(s, begin, end).len() >= s.len(),
{
    let lead: Seq<(int, State)> = if s[0].0 > begin {
        seq![(begin, State::Off)]
    } else {
        Seq::empty()
    };
    let trail: Seq<(int, State)> = if s.last().0 < end {
        seq![(end, State::Off)]
    } else {
        Seq::empty()
    };
    let w = lead + s + trail;
    assert(w == with_bounds(s, begin, end));
    let n = lead.len() as int;
    assert forall|i: int, j: int| 0 <= i < j < w.len() implies w[i].0 < w[j].0 by {
        if i < n {
            if j < n + s.len() {
                assert(w[j] == s[j - n]);
                if j - n > 0 {
                    assert(s[0].0 < s[j - n].0);
                }
            } else {
                if s.len() > 1 {
                    assert(s[0].0 < s.last().0);
                }
            }
        } else if i < n + s.len() {
            assert(w[i] == s[i - n]);
            if j < n + s.len() {
                assert(w[j] == s[j - n]);
            } else if i - n < s.len() - 1 {
                assert(s[i - n].0 < s.last().0);
            }
        }
    }
}

/// The derived changes are increasing, and the intervals built from them are
/// nonempty spans with a new state each.
pub proof fn lemma_derived_shape(entries: Seq<Entry>, begin: int, end: int)
    ensures
        strictly_increasing(derived_changes(entries, begin, end)),
        forall|i: int|
            #![trigger derived_intervals(entries, begin, end)[i]]
            0 <= i < derived_intervals(entries, begin, end).len() ==> derived_intervals(
                entries,
                begin,
                end,
            )[i].0 < derived_intervals(entries, begin, end)[i].1,
        forall|i: int|
            #![trigger derived_intervals(entries, begin, end)[i], derived_intervals(entries, begin, end)[i + 1]]
            0 <= i < derived_intervals(entries, begin, end).len() - 1 ==> derived_intervals(
                entries,
                begin,
                end,
            )[i].2 != derived_intervals(entries, begin, end)[i + 1].2,
{
    reveal(derived_changes);
    let s = window_changes(entries, begin, end);
    let d = derived_changes(entries, begin, end);
    let ivs = derived_intervals(entries, begin, end);
    lemma_sorted_first_exists(candidates(entries, begin / DAY_MILLIS as int, end / DAY_MILLIS as int));
    if s.len() > 0 {
        lemma_with_bounds(s, begin, end);
        lemma_elide(with_bounds(s, begin, end));
        assert forall|i: int| #![trigger ivs[i], ivs[i + 1]] 0 <= i < ivs.len() - 1 implies ivs[i].2 != ivs[i + 1].2 by {
            assert(d[i].1 != d[i + 1].1);
        }
    }
    assert forall|i: int| 0 <= i < ivs.len() implies #[trigger] ivs[i].0 < ivs[i].1 by {
        assert(d[i].0 < d[i + 1].0);
    }
}

// ---------------------------------------------------------------------------
// Executable code.

/// Puts `c` in its place in `sorted`, unless a change at its instant is there.
fn insert_first(sorted: &mut Vec<StateChange>, c: StateChange, Ghost(cands): Ghost<Seq<(int, State)>>)
    requires
        is_sorted_first(cands, changes_view(old(sorted)@)),
    ensures
        is_sorted_first(cands.push(change_view(c)), changes_view(final(sorted)@)),
{
    let ghost r = changes_view(sorted@);
    let mut p: usize = 0;
    while p < sorted.len() && sorted[p].when.ms < c.when.ms
        invariant
            p <= sorted.len(),
            r == changes_view(sorted@),
            forall|k: int| 0 <= k < p ==> r[k].0 < c.when.ms,
        decreases sorted.len() - p,
    {
        p += 1;
    }
    let ghost pi = p as int;
    if p < sorted.len() && sorted[p].when.ms == c.when.ms {
        proof {
            lemma_insert_step(cands, r, change_view(c), pi);
        }
    } else {
        sorted.insert(p, c);
        proof {
            lemma_insert_step(cands, r, change_view(c), pi);
            assert(changes_view(sorted@) =~= r.insert(pi, change_view(c)));
        }
    }
}

/// Appends `c` unless its state is the state of the last change kept.
fn push_kept(kept: &mut Vec<StateChange>, c: StateChange, Ghost(prev): Ghost<Seq<(int, State)>>)
    requires
        changes_view(old(kept)@) == elide(prev),
    ensures
        changes_view(final(kept)@) == elide(prev.push(change_view(c))),
{
    proof {
        lemma_elide(prev);
        assert(prev.push(change_view(c)).drop_last() =~= prev);
    }
    let n = kept.len();
    if n == 0 || kept[n - 1].state != c.state {
        kept.push(c);
        proof {
            assert(changes_view(kept@) =~= changes_view(old(kept)@).push(change_view(c)));
            if prev.len() == 0 {
                assert(prev.push(change_view(c)) =~= seq![change_view(c)]);
            }
        }
    }
}

impl StateChange {
    /// The state changes that `entries` produce between `begin` and `end`:
    /// each entry on each day from `begin`'s date up to, not including,
    /// `end`'s date; sorted by instant, the first-listed entry winning at
    /// one instant; bounded by `begin` and `end` in the default state; and
    /// without the changes that keep the state as it was.
    pub fn from_entries_between(entries: &[Entry], begin: LocalDateTime, end: LocalDateTime) -> (r: Vec<StateChange>)
        requires
            begin.in_range(),
            end.in_range(),
        ensures
            changes_view(r@) == derived_changes(entries@, begin.ms as int, end.ms as int),
    {
        reveal(derived_changes);
        let start_date = begin.date();
        let end_date = end.date();
        let ghost from = start_date.day as int;
        let mut sorted: Vec<StateChange> = Vec::new();
        let mut day: i64 = start_date.day;
        proof {
            let e: Seq<(int, State)> = Seq::empty();
            assert(candidates(entries@, from, from) == e);
            assert(is_sorted_first(e, changes_view(sorted@)));
        }
        while day < end_date.day
            invariant
                from == start_date.day,
                start_date.day <= day,
                day <= end_date.day || day == start_date.day,
                start_date.day * DAY_MILLIS <= begin.ms < (start_date.day + 1) * DAY_MILLIS,
                end_date.day * DAY_MILLIS <= end.ms,
                begin.in_range(),
                end.in_range(),
                is_sorted_first(candidates(entries@, from, day as int), changes_view(sorted@)),
            decreases end_date.day - day,
        {
            assert(start_date.day * DAY_MILLIS <= day * DAY_MILLIS < end_date.day * DAY_MILLIS)
                by (nonlinear_arith)
                requires
                    start_date.day <= day < end_date.day,
            ;
            let ghost before = candidates(entries@, from, day as int);
            let mut k: usize = 0;
            proof {
                let e: Seq<Entry> = Seq::empty();
                assert(entries@.take(0) =~= e);
                assert(day_changes(e, day as int) =~= Seq::<(int, State)>::empty());
                assert(before + day_changes(entries@.take(0), day as int) =~= before);
            }
            while k < entries.len()
                invariant
                    k <= entries.len(),
                    -MAX_DAY_SPAN <= day * DAY_MILLIS <= MAX_DAY_SPAN,
                    is_sorted_first(
                        before + day_changes(entries@.take(k as int), day as int),
                        changes_view(sorted@),
                    ),
                decreases entries.len() - k,
            {
                let e = entries[k];
                let ghost taken = entries@.take(k as int + 1);
                proof {
                    assert(taken.drop_last() =~= entries@.take(k as int));
                    assert(taken.last() == e);
                }
                let fires = match e.when {
                    When::Daily => true,
                    When::Date(d) => d.day == day,
                };
                if fires {
                    let when = LocalDateTime::at(Date { day }, e.time);
                    let c = StateChange { when, state: e.state };
                    let ghost prev = before + day_changes(entries@.take(k as int), day as int);
                    insert_first(&mut sorted, c, Ghost(prev));
                    proof {
                        assert(prev.push(change_view(c)) =~= before + day_changes(taken, day as int));
                    }
                }
                k += 1;
            }
            proof {
                assert(entries@.take(entries.len() as int) =~= entries@);
            }
            day += 1;
        }
        proof {
            lemma_sorted_first_is(candidates(entries@, from, day as int), changes_view(sorted@));
        }
        let ghost s = changes_view(sorted@);
        let mut kept: Vec<StateChange> = Vec::new();
        if sorted.len() == 0 {
            if begin.ms < end.ms {
                kept.push(StateChange { when: begin, state: State::default() });
                kept.push(StateChange { when: end, state: State::default() });
            }
            proof {
                assert(changes_view(kept@) =~= derived_changes(entries@, begin.ms as int, end.ms as int));
            }
            return kept;
        }
        let ghost lead: Seq<(int, State)> = if s[0].0 > begin.ms {
            seq![(begin.ms as int, State::Off)]
        } else {
            Seq::empty()
        };
        proof {
            let e: Seq<(int, State)> = Seq::empty();
            assert(changes_view(kept@) =~= elide(e));
        }
        if sorted[0].when.ms > begin.ms {
            push_kept(&mut kept, StateChange { when: begin, state: State::default() }, Ghost(Seq::empty()));
            proof {
                assert(Seq::<(int, State)>::empty().push((begin.ms as int, State::Off)) =~= lead);
            }
        }
        proof {
            assert(lead + s.take(0) =~= lead);
        }
        let mut i: usize = 0;
        while i < sorted.len()
            invariant
                i <= sorted.len(),
                s == changes_view(sorted@),
                changes_view(kept@) == elide(lead + s.take(i as int)),
            decreases sorted.len() - i,
        {
            push_kept(&mut kept, sorted[i], Ghost(lead + s.take(i as int)));
            proof {
                assert((lead + s.take(i as int)).push(change_view(sorted@[i as int])) =~= lead + s.take(
                    i as int + 1,
                ));
            }
            i += 1;
        }
        proof {
            assert(s.take(sorted.len() as int) =~= s);
        }
        if sorted[sorted.len() - 1].when.ms < end.ms {
            push_kept(&mut kept, StateChange { when: end, state: State::default() }, Ghost(lead + s));
            proof {
                assert((lead + s).push((end.ms as int, State::Off)) =~= with_bounds(
                    s,
                    begin.ms as int,
                    end.ms as int,
                ));
            }
        } else {
            proof {
                assert(lead + s =~= with_bounds(s, begin.ms as int, end.ms as int));
            }
        }
        kept
    }
}

/// The intervals that `entries` give the window `[begin, end)`: each state
/// change with the next one. They follow each other without gap, each is a
/// nonempty span, and no two neighbours share a state.
pub fn derive_intervals(entries: &[Entry], begin: LocalDateTime, end: LocalDateTime) -> (r: Vec<Interval>)
    requires
        begin.in_range(),
        end.in_range(),
    ensures
        intervals_view(r@) == derived_intervals(entries@, begin.ms as int, end.ms as int),
        forall|i: int| 0 <= i < r.len() ==> (#[trigger] r[i]).start.ms < r[i].end.ms,
        forall|i: int| #![trigger r[i], r[i + 1]] 0 <= i < r.len() - 1 ==> r[i].end == r[i + 1].start,
        forall|i: int| #![trigger r[i], r[i + 1]] 0 <= i < r.len() - 1 ==> r[i].state != r[i + 1].state,
{
    let changes = StateChange::from_entries_between(entries, begin, end);
    let ghost d = changes_view(changes@);
    let ghost want = derived_intervals(entries@, begin.ms as int, end.ms as int);
    proof {
        lemma_derived_shape(entries@, begin.ms as int, end.ms as int);
    }
    let mut r: Vec<Interval> = Vec::new();
    let mut i: usize = 1;
    while i < changes.len()
        invariant
            1 <= i,
            i <= changes.len() || changes.len() == 0,
            changes.len() == 0 ==> i == 1,
            d == changes_view(changes@),
            want == pairs(d),
            intervals_view(r@) =~= want.take(i - 1),
            r.len() == i - 1,
        decreases changes.len() - i,
    {
        let iv = Interval { start: changes[i - 1].when, end: changes[i].when, state: changes[i - 1].state };
        r.push(iv);
        proof {
            assert(intervals_view(r@) =~= want.take(i as int));
        }
        i += 1;
    }
    proof {
        assert(d.len() == changes.len());
        if d.len() == 0 {
            assert(want.len() == 0);
            assert(r.len() == 0);
        } else {
            assert(want.len() == d.len() - 1);
            assert(i == changes.len());
            assert(r.len() == changes.len() - 1);
        }
        assert(want.len() == r.len());
        assert(intervals_view(r@) =~= want);
        assert forall|i: int| 0 <= i < r.len() implies (#[trigger] r[i]).start.ms < r[i].end.ms by {
            assert(intervals_view(r@)[i] == want[i]);
        }
        assert forall|i: int| #![trigger r[i], r[i + 1]] 0 <= i < r.len() - 1 implies r[i].end == r[i + 1].start
            && r[i].state != r[i + 1].state by {
            assert(intervals_view(r@)[i] == want[i]);
            assert(intervals_view(r@)[i + 1] == want[i + 1]);
        }
    }
    r
}

impl Config {
    /// The intervals of the configured window.
    pub fn intervals(&self) -> (r: Vec<Interval>)
        requires
            self.start.in_range(),
            self.end.in_range(),
        ensures
            intervals_view(r@) == derived_intervals(self.entries@, self.start.ms as int, self.end.ms as int),
            forall|i: int| 0 <= i < r.len() ==> (#[trigger] r[i]).start.ms < r[i].end.ms,
            forall|i: int| #![trigger r[i], r[i + 1]] 0 <= i < r.len() - 1 ==> r[i].end == r[i + 1].start,
            forall|i: int| #![trigger r[i], r[i + 1]] 0 <= i < r.len() - 1 ==> r[i].state != r[i + 1].state,
    {
        derive_intervals(self.entries.as_slice(), self.start, self.end)
    }
}

/// The start of each interval, in order.
pub fn interval_starts(intervals: &Vec<Interval>) -> (r: Vec<LocalDateTime>)
    ensures
        r@.len() == intervals@.len(),
        forall|i: int| 0 <= i < r.len() ==> r[i] == (#[trigger] intervals@[i]).start,
{
    let mut r: Vec<LocalDateTime> = Vec::new();
    let mut i: usize = 0;
    while i < intervals.len()
        invariant
            i <= intervals.len(),
            r.len() == i,
            forall|k: int| 0 <= k < i ==> r[k] == (#[trigger] intervals@[k]).start,
        decreases intervals.len() - i,
    {
        r.push(intervals[i].start);
        i += 1;
    }
    r
}

impl Interval {
    /// Whether `t` lies in `[start, end)`.
    pub fn contains_time(&self, t: LocalDateTime) -> (r: bool)
        ensures
            r == (self.start.ms <= t.ms && t.ms < self.end.ms),
    {
        self.start.ms <= t.ms && t.ms < self.end.ms
    }

    /// Whether the wall clock now lies in the interval.
    pub fn is_current(&self) -> (r: bool)
        ensures
            exists|t: LocalDateTime| t.in_range() && r == (self.start.ms <= t.ms && t.ms < self.end.ms),
    {
        let now = crate::time::now();
        self.contains_time(now)
    }
}

/// The first interval that contains `now`, if any: the interval whose state
/// should apply at `now`.
pub fn current_interval(intervals: &Vec<Interval>, now: LocalDateTime) -> (r: Option<Interval>)
    ensures
        r is None ==> forall|i: int|
            0 <= i < intervals.len() ==> !((#[trigger] intervals@[i]).start.ms <= now.ms && now.ms < intervals@[i].end.ms),
        r is Some ==> exists|i: int|
            0 <= i < intervals.len() && intervals@[i] == r->0 && r->0.start.ms <= now.ms && now.ms < r->0.end.ms
                && forall|k: int| 0 <= k < i ==> !((#[trigger] intervals@[k]).start.ms <= now.ms && now.ms < intervals@[k].end.ms),
{
    let mut i: usize = 0;
    while i < intervals.len()
        invariant
            i <= intervals.len(),
            forall|k: int| 0 <= k < i ==> !((#[trigger] intervals@[k]).start.ms <= now.ms && now.ms < intervals@[k].end.ms),
        decreases intervals.len() - i,
    {
        if intervals[i].contains_time(now) {
            return Some(intervals[i]);
        }
        i += 1;
    }
    None
}

} // verus!
