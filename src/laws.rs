//! What holds of every schedule the deriver computes.
use crate::config::{
    at_day, candidates, covers, day_changes, derived_changes, derived_intervals, fires_on,
    first_index_at, has_first, is_sorted_first, lemma_elide, lemma_elide_state_in_effect,
    lemma_first_index_unique, lemma_sorted_first_exists, lemma_sorted_first_is,
    lemma_state_at_change, lemma_with_bounds, sorted_first, state_in_effect, window_changes, with_bounds,
    Entry, State,
};
use crate::time::DAY_MILLIS;
use vstd::prelude::*;

verus! {

/// `x` is the change that some entry applying on `day` makes.
pub open spec fn entry_change(entries: Seq<Entry>, day: int, x: (int, State)) -> bool {
    exists|k: int|
        0 <= k < entries.len() && fires_on(#[trigger] entries[k], day) && x == (
            at_day(day, entries[k].time),
            entries[k].state,
        )
}

/// Each change of one day comes from an entry that applies on that day.
pub proof fn lemma_day_changes_from_entries(entries: Seq<Entry>, day: int)
    ensures
        forall|j: int|
            0 <= j < day_changes(entries, day).len() ==> #[trigger] entry_change(
                entries,
                day,
                day_changes(entries, day)[j],
            ),
    decreases entries.len(),
{
    if entries.len() > 0 {
        let e0 = entries.drop_last();
        lemma_day_changes_from_entries(e0, day);
        let dc = day_changes(entries, day);
        let dc0 = day_changes(e0, day);
        assert forall|j: int| 0 <= j < dc.len() implies #[trigger] entry_change(entries, day, dc[j]) by {
            if j < dc0.len() {
                assert(dc[j] == dc0[j]);
                assert(entry_change(e0, day, dc0[j]));
                let k = choose|k: int|
                    0 <= k < e0.len() && fires_on(#[trigger] e0[k], day) && dc0[j] == (
                        at_day(day, e0[k].time),
                        e0[k].state,
                    );
                assert(entries[k] == e0[k]);
            } else {
                let k = entries.len() - 1;
                assert(entries[k] == entries.last());
                assert(fires_on(entries.last(), day));
                assert(dc == dc0.push((at_day(day, entries.last().time), entries.last().state)));
                assert(dc[j] == (at_day(day, entries[k].time), entries[k].state));
            }
        }
    }
}

/// Every change of the days `from .. to` lies within those days.
pub proof fn lemma_candidates_within(entries: Seq<Entry>, from: int, to: int)
    requires
        forall|k: int| 0 <= k < entries.len() ==> (#[trigger] entries[k]).time.wf(),
    ensures
        forall|j: int|
            #![trigger candidates(entries, from, to)[j]]
            0 <= j < candidates(entries, from, to).len() ==> from * DAY_MILLIS <= candidates(
                entries,
                from,
                to,
            )[j].0 < to * DAY_MILLIS,
    decreases to - from,
{
    if to > from {
        lemma_candidates_within(entries, from, to - 1);
        lemma_day_changes_from_entries(entries, to - 1);
        let c0 = candidates(entries, from, to - 1);
        let dc = day_changes(entries, to - 1);
        let c = candidates(entries, from, to);
        assert(c == c0 + dc);
        assert forall|j: int| #![trigger c[j]] 0 <= j < c.len() implies from * DAY_MILLIS <= c[j].0
            < to * DAY_MILLIS by {
            if j < c0.len() {
                assert(c[j] == c0[j]);
                assert((to - 1) * DAY_MILLIS <= to * DAY_MILLIS) by (nonlinear_arith);
            } else {
                assert(c[j] == dc[j - c0.len()]);
                assert(entry_change(entries, to - 1, dc[j - c0.len()]));
                let k = choose|k: int|
                    0 <= k < entries.len() && fires_on(#[trigger] entries[k], to - 1)
                        && dc[j - c0.len()] == (at_day(to - 1, entries[k].time), entries[k].state);
                let tm = entries[k].time.ms as int;
                assert(0 <= tm < DAY_MILLIS);
                assert(from * DAY_MILLIS <= (to - 1) * DAY_MILLIS) by (nonlinear_arith)
                    requires
                        from <= to - 1,
                ;
                assert((to - 1) * DAY_MILLIS + DAY_MILLIS == to * DAY_MILLIS) by (nonlinear_arith);
            }
        }
    }
}

/// The changes of the days `a .. c` are those of `a .. b` followed by those
/// of `b .. c`.
pub proof fn lemma_candidates_split(entries: Seq<Entry>, a: int, b: int, c: int)
    requires
        a <= b <= c,
    ensures
        candidates(entries, a, c) == candidates(entries, a, b) + candidates(entries, b, c),
    decreases c - b,
{
    if c > b {
        lemma_candidates_split(entries, a, b, c - 1);
        assert(candidates(entries, a, c) =~= candidates(entries, a, b) + candidates(entries, b, c));
    } else {
        assert(candidates(entries, b, c) =~= Seq::<(int, State)>::empty());
        assert(candidates(entries, a, c) =~= candidates(entries, a, b) + candidates(entries, b, c));
    }
}

/// On one day, the first change at the instant of entry `i` has the state of
/// entry `i`, when no entry listed before it applies at that instant.
pub proof fn lemma_day_first(entries: Seq<Entry>, day: int, i: int)
    requires
        0 <= i < entries.len(),
        fires_on(entries[i], day),
        forall|k: int|
            0 <= k < i && fires_on(#[trigger] entries[k], day) ==> entries[k].time.ms
                != entries[i].time.ms,
    ensures
        has_first(day_changes(entries, day), (at_day(day, entries[i].time), entries[i].state)),
    decreases entries.len(),
{
    let dc = day_changes(entries, day);
    let t = at_day(day, entries[i].time);
    let e0 = entries.drop_last();
    let dc0 = day_changes(e0, day);
    if i < entries.len() - 1 {
        assert forall|k: int| 0 <= k < i && fires_on(#[trigger] e0[k], day) implies e0[k].time.ms
            != e0[i].time.ms by {
            assert(e0[k] == entries[k]);
        }
        lemma_day_first(e0, day, i);
        assert(e0[i] == entries[i]);
        let j = choose|j: int| #[trigger] first_index_at(dc0, t, j) && dc0[j].1 == entries[i].state;
        assert forall|k: int| 0 <= k < j implies dc[k].0 != t by {
            assert(dc[k] == dc0[k]);
        }
        assert(dc[j] == dc0[j]);
        assert(first_index_at(dc, t, j));
    } else {
        lemma_day_changes_from_entries(e0, day);
        assert(entries.last() == entries[i]);
        assert forall|k: int| 0 <= k < dc0.len() implies dc[k].0 != t by {
            assert(dc[k] == dc0[k]);
            assert(entry_change(e0, day, dc0[k]));
            let m = choose|m: int|
                0 <= m < e0.len() && fires_on(#[trigger] e0[m], day) && dc0[k] == (
                    at_day(day, e0[m].time),
                    e0[m].state,
                );
            assert(e0[m] == entries[m]);
        }
        assert(first_index_at(dc, t, dc0.len() as int));
    }
}

/// Tie-break: where several entries apply at one instant, the state in
/// effect at that instant is that of the first-listed of them.
pub proof fn lemma_first_listed_entry_wins(entries: Seq<Entry>, begin: int, end: int, day: int, i: int)
    requires
        forall|k: int| 0 <= k < entries.len() ==> (#[trigger] entries[k]).time.wf(),
        begin / DAY_MILLIS as int <= day < end / DAY_MILLIS as int,
        0 <= i < entries.len(),
        fires_on(entries[i], day),
        forall|k: int|
            0 <= k < i && fires_on(#[trigger] entries[k], day) ==> entries[k].time.ms
                != entries[i].time.ms,
    ensures
        state_in_effect(derived_changes(entries, begin, end), at_day(day, entries[i].time)) == Some(
            entries[i].state,
        ),
{
    reveal(derived_changes);
    let bd = begin / DAY_MILLIS as int;
    let ed = end / DAY_MILLIS as int;
    let t = at_day(day, entries[i].time);
    let c = candidates(entries, bd, ed);
    let p = candidates(entries, bd, day);
    let dc = day_changes(entries, day);
    let q = candidates(entries, day + 1, ed);
    lemma_candidates_split(entries, bd, day, ed);
    lemma_candidates_split(entries, day, day + 1, ed);
    assert(candidates(entries, day, day + 1) =~= dc) by {
        assert(candidates(entries, day, day) =~= Seq::<(int, State)>::empty());
    }
    assert(c =~= p + dc + q);
    lemma_candidates_within(entries, bd, day);
    lemma_candidates_within(entries, day + 1, ed);
    let tm = entries[i].time.ms as int;
    assert(0 <= tm < DAY_MILLIS);
    assert((day + 1) * DAY_MILLIS == day * DAY_MILLIS + DAY_MILLIS) by (nonlinear_arith);
    lemma_day_first(entries, day, i);
    let j = choose|j: int| #[trigger] first_index_at(dc, t, j) && dc[j].1 == entries[i].state;
    let jc = p.len() + j;
    assert forall|k: int| 0 <= k < jc implies c[k].0 != t by {
        if k < p.len() {
            assert(c[k] == p[k]);
            assert(p[k].0 < day * DAY_MILLIS);
        } else {
            assert(c[k] == dc[k - p.len()]);
        }
    }
    assert(c[jc] == dc[j]);
    assert(first_index_at(c, t, jc));
    lemma_sorted_first_exists(c);
    let s = sorted_first(c);
    assert(covers(s, c[jc].0));
    let n = choose|n: int| 0 <= n < s.len() && #[trigger] s[n].0 == c[jc].0;
    assert(has_first(c, s[n]));
    let jj = choose|jj: int| #[trigger] first_index_at(c, s[n].0, jj) && c[jj].1 == s[n].1;
    lemma_first_index_unique(c, t, jc, jj);
    assert(s[n] == (t, entries[i].state));
    // The window's bounds lie around every change of the window's days.
    lemma_candidates_within(entries, bd, ed);
    assert(ed * DAY_MILLIS <= end) by (nonlinear_arith)
        requires
            ed == end / DAY_MILLIS as int,
    ;
    lemma_with_bounds(s, begin, end);
    let w = with_bounds(s, begin, end);
    let lead: Seq<(int, State)> = if s[0].0 > begin {
        seq![(begin, State::Off)]
    } else {
        Seq::empty()
    };
    let trail: Seq<(int, State)> = if s.last().0 < end {
        seq![(end, State::Off)]
    } else {
        Seq::empty()
    };
    assert(w == lead + s + trail);
    assert(w[lead.len() + n] == s[n]);
    lemma_state_at_change(w, lead.len() + n);
    lemma_elide_state_in_effect(w, t);
}

/// A window in which no entry applies is one interval in the default state.
pub proof fn lemma_no_entries_one_interval(begin: int, end: int)
    requires
        begin < end,
    ensures
        derived_intervals(Seq::empty(), begin, end) == seq![(begin, end, State::Off)],
{
    reveal(derived_changes);
    let e: Seq<Entry> = Seq::empty();
    let c = candidates(e, begin / DAY_MILLIS as int, end / DAY_MILLIS as int);
    lemma_no_entries_no_candidates(begin / DAY_MILLIS as int, end / DAY_MILLIS as int);
    let none: Seq<(int, State)> = Seq::empty();
    assert(is_sorted_first(c, none));
    lemma_sorted_first_is(c, none);
    assert(derived_intervals(e, begin, end) =~= seq![(begin, end, State::Off)]);
}

proof fn lemma_no_entries_no_candidates(from: int, to: int)
    ensures
        candidates(Seq::<Entry>::empty(), from, to).len() == 0,
    decreases to - from,
{
    if to > from {
        lemma_no_entries_no_candidates(from, to - 1);
        assert(day_changes(Seq::<Entry>::empty(), to - 1).len() == 0);
    }
}

/// Total coverage: the intervals run without gap from `begin` to `end`,
/// provided no entry applies before `begin` on its day and the state in
/// effect after the window's last change is `On` (an `Off` there makes the
/// closing change redundant, so the last interval ends with that change).
pub proof fn lemma_window_covered(entries: Seq<Entry>, begin: int, end: int)
    requires
        entries.len() > 0,
        begin < end,
        forall|k: int| 0 <= k < entries.len() ==> (#[trigger] entries[k]).time.wf(),
        forall|i: int|
            0 <= i < window_changes(entries, begin, end).len() ==> (#[trigger] window_changes(
                entries,
                begin,
                end,
            )[i]).0 >= begin,
        window_changes(entries, begin, end).len() > 0 ==> window_changes(entries, begin, end).last().1
            == State::On,
    ensures
        derived_intervals(entries, begin, end).len() > 0,
        derived_intervals(entries, begin, end)[0].0 == begin,
        derived_intervals(entries, begin, end).last().1 == end,
        forall|i: int|
            #![trigger derived_intervals(entries, begin, end)[i]]
            0 <= i < derived_intervals(entries, begin, end).len() - 1 ==> derived_intervals(
                entries,
                begin,
                end,
            )[i].1 == derived_intervals(entries, begin, end)[i + 1].0,
{
    reveal(derived_changes);
    let s = window_changes(entries, begin, end);
    let d = derived_changes(entries, begin, end);
    let ivs = derived_intervals(entries, begin, end);
    if s.len() > 0 {
        let bd = begin / DAY_MILLIS as int;
        let ed = end / DAY_MILLIS as int;
        let c = candidates(entries, bd, ed);
        lemma_sorted_first_exists(c);
        lemma_candidates_within(entries, bd, ed);
        assert(ed * DAY_MILLIS <= end) by (nonlinear_arith)
            requires
                ed == end / DAY_MILLIS as int,
        ;
        assert(has_first(c, s.last()));
        let j = choose|j: int| #[trigger] first_index_at(c, s.last().0, j) && c[j].1 == s.last().1;
        assert(s.last().0 < end);
        lemma_with_bounds(s, begin, end);
        let w = with_bounds(s, begin, end);
        let lead: Seq<(int, State)> = if s[0].0 > begin {
            seq![(begin, State::Off)]
        } else {
            Seq::empty()
        };
        let pre = lead + s;
        assert(w =~= pre.push((end, State::Off)));
        assert(w.drop_last() =~= pre);
        lemma_elide(pre);
        lemma_elide(w);
        assert(pre.last() == s.last());
        assert(d.len() >= 2);
        assert(d.last() == (end, State::Off));
        assert(d[0] == w[0]);
        assert(s[0].0 >= begin);
    }
}

} // verus!
