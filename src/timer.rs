//! The timer's decisions: which wake times are still ahead, how long to
//! wait, and what to do with what the wait brought. A driver performs the
//! waiting and the sending; this state machine decides.
use crate::time::{LocalDateTime, TimeDelta};
use vstd::prelude::*;

verus! {

broadcast use {vstd::seq_lib::to_multiset_build, vstd::seq_lib::to_multiset_insert};

/// A change to the timer's wake times.
#[derive(Debug, Clone, PartialEq, Eq)]
pub enum TimerConfig {
    /// Wake at one more time.
    Add(LocalDateTime),
    /// Wake at these times instead of the present ones.
    Replace(Vec<LocalDateTime>),
}

/// What a wait for a control message brought.
#[derive(Debug, Clone, PartialEq, Eq)]
pub enum WaitOutcome {
    /// A control message arrived.
    Config(TimerConfig),
    /// The wait ran out with no message.
    Timeout,
    /// No control message can come any more.
    Disconnected,
}

/// What the driver does after a wait.
#[derive(Debug, Clone, Copy, PartialEq, Eq, Structural)]
pub enum TimerStep {
    /// Wait again.
    Continue,
    /// Send one tick, then wait again unless nobody listens.
    SendTick,
    /// Stop for good.
    Exit,
}

/// Whether the timer goes on.
#[derive(Debug, Clone, Copy, PartialEq, Eq, Structural)]
pub enum WaitResult {
    Exit,
    Continue,
}

/// The timer's own state: how often it ticks anyway, and when it wakes.
#[derive(Debug, Clone)]
pub struct TimerState {
    pub regular_update: TimeDelta,
    pub times: Vec<LocalDateTime>,
}

/// The wake times of `times` that lie after `now`, in their order.
pub open spec fn pending(times: Seq<LocalDateTime>, now: int) -> Seq<LocalDateTime>
    decreases times.len(),
{
    if times.len() == 0 {
        times
    } else {
        let p = pending(times.drop_last(), now);
        if times.last().ms > now {
            p.push(times.last())
        } else {
            p
        }
    }
}

pub open spec fn sorted_by_time(s: Seq<LocalDateTime>) -> bool {
    forall|i: int, j: int| 0 <= i <= j < s.len() ==> s[i].ms <= s[j].ms
}

/// How long to wait: until the earliest wake time, but no longer than the
/// regular update.
pub open spec fn wait_for(regular_update: int, times: Seq<LocalDateTime>, now: int) -> int {
    if times.len() == 0 {
        regular_update
    } else if regular_update <= times[0].ms - now {
        regular_update
    } else {
        times[0].ms - now
    }
}

impl TimerState {
    /// A timer that ticks every `regular_update` and has no wake times yet.
    pub fn new(regular_update: TimeDelta) -> (r: TimerState)
        ensures
            r.regular_update == regular_update,
            r.times@.len() == 0,
    {
        TimerState { regular_update, times: Vec::new() }
    }

    /// Drops the wake times at or before `now` and sorts the rest.
    pub fn update_times(&mut self, now: LocalDateTime)
        ensures
            final(self).regular_update == old(self).regular_update,
            sorted_by_time(final(self).times@),
            final(self).times@.to_multiset() == pending(old(self).times@, now.ms as int).to_multiset(),
            forall|i: int| 0 <= i < final(self).times.len() ==> final(self).times@[i].ms > now.ms,
    {
        let ghost old_times = self.times@;
        let mut kept: Vec<LocalDateTime> = Vec::new();
        let mut i: usize = 0;
        proof {
            assert(old_times.take(0) =~= Seq::<LocalDateTime>::empty());
            assert(kept@ =~= pending(old_times.take(0), now.ms as int));
        }
        while i < self.times.len()
            invariant
                i <= self.times.len(),
                self.times@ == old_times,
                sorted_by_time(kept@),
                kept@.to_multiset() == pending(old_times.take(i as int), now.ms as int).to_multiset(),
                forall|k: int| 0 <= k < kept.len() ==> kept@[k].ms > now.ms,
            decreases self.times.len() - i,
        {
            let t = self.times[i];
            proof {
                assert(old_times.take(i as int + 1).drop_last() =~= old_times.take(i as int));
                assert(old_times.take(i as int + 1).last() == t);
            }
            if t.ms > now.ms {
                let mut p: usize = 0;
                while p < kept.len() && kept[p].ms <= t.ms
                    invariant
                        p <= kept.len(),
                        forall|k: int| 0 <= k < p ==> kept@[k].ms <= t.ms,
                    decreases kept.len() - p,
                {
                    p += 1;
                }
                let ghost before = kept@;
                kept.insert(p, t);
                proof {
                    assert forall|a: int, b: int| 0 <= a <= b < kept.len() implies kept@[a].ms
                        <= kept@[b].ms by {
                        if a < p && b > p {
                            assert(kept@[b] == before[b - 1]);
                        } else if a > p {
                            assert(kept@[a] == before[a - 1]);
                            assert(kept@[b] == before[b - 1]);
                        } else if a == p && b > p {
                            assert(kept@[b] == before[b - 1]);
                            assert(before[p as int].ms > t.ms);
                        }
                    }
                    assert forall|k: int| 0 <= k < kept.len() implies kept@[k].ms > now.ms by {
                        if k < p {
                        } else if k > p {
                            assert(kept@[k] == before[k - 1]);
                        }
                    }
                }
            }
            i += 1;
        }
        proof {
            assert(old_times.take(old_times.len() as int) =~= old_times);
        }
        self.times = kept;
    }

    /// How long to wait from `now`, given wake times all after `now`.
    pub fn wait_timeout(&self, now: LocalDateTime) -> (r: TimeDelta)
        requires
            forall|i: int| 0 <= i < self.times.len() ==> self.times@[i].ms > now.ms,
        ensures
            r.ms == wait_for(self.regular_update.ms as int, self.times@, now.ms as int),
            self.times.len() > 0 ==> r.ms <= self.times@[0].ms - now.ms,
            self.regular_update.ms > 0 ==> r.ms > 0,
    {
        if self.times.len() == 0 {
            self.regular_update
        } else {
            let until = self.times[0].ms as i128 - now.ms as i128;
            if self.regular_update.ms as i128 <= until {
                self.regular_update
            } else {
                TimeDelta { ms: until as i64 }
            }
        }
    }

    /// The start of a wait: drops the wake times that have passed, sorts the
    /// others, and says how long to wait for a control message.
    pub fn prepare_wait(&mut self, now: LocalDateTime) -> (r: TimeDelta)
        ensures
            final(self).regular_update == old(self).regular_update,
            sorted_by_time(final(self).times@),
            final(self).times@.to_multiset() == pending(old(self).times@, now.ms as int).to_multiset(),
            forall|i: int| 0 <= i < final(self).times.len() ==> final(self).times@[i].ms > now.ms,
            r.ms == wait_for(final(self).regular_update.ms as int, final(self).times@, now.ms as int),
    {
        self.update_times(now);
        self.wait_timeout(now)
    }

    /// What to do with what the wait brought. A new wake time is added, a
    /// new list replaces the old one; a timeout asks for a tick; a closed
    /// control input ends the timer.
    pub fn on_wait_outcome(&mut self, outcome: WaitOutcome) -> (r: TimerStep)
        ensures
            final(self).regular_update == old(self).regular_update,
            match outcome {
                WaitOutcome::Config(TimerConfig::Add(t)) => r == TimerStep::Continue
                    && final(self).times@ == old(self).times@.push(t),
                WaitOutcome::Config(TimerConfig::Replace(ts)) => r == TimerStep::Continue
                    && final(self).times@ == ts@,
                WaitOutcome::Timeout => r == TimerStep::SendTick && final(self).times@ == old(
                    self,
                ).times@,
                WaitOutcome::Disconnected => r == TimerStep::Exit && final(self).times@ == old(
                    self,
                ).times@,
            },
    {
        match outcome {
            WaitOutcome::Config(TimerConfig::Add(t)) => {
                self.times.push(t);
                TimerStep::Continue
            },
            WaitOutcome::Config(TimerConfig::Replace(ts)) => {
                self.times = ts;
                TimerStep::Continue
            },
            WaitOutcome::Timeout => TimerStep::SendTick,
            WaitOutcome::Disconnected => TimerStep::Exit,
        }
    }
}

/// After a tick was sent: go on while somebody listens.
pub fn after_tick(delivered: bool) -> (r: WaitResult)
    ensures
        r == (if delivered {
            WaitResult::Continue
        } else {
            WaitResult::Exit
        }),
{
    if delivered {
        WaitResult::Continue
    } else {
        WaitResult::Exit
    }
}

/// The default timer ticks every second.
impl Default for TimerState {
    fn default() -> (r: TimerState)
        ensures
            r.regular_update.ms == 1000,
            r.times@.len() == 0,
    {
        TimerState::new(TimeDelta { ms: 1000 })
    }
}

/// A wake time that has already passed when the times are replaced is
/// dropped at the next wait, whenever that comes: every wake time the timer
/// then waits for lies after the moment of the replacement.
pub proof fn lemma_replaced_past_times_dropped(
    ts: Seq<LocalDateTime>,
    replaced_at: LocalDateTime,
    next_wait: LocalDateTime,
    t: LocalDateTime,
)
    requires
        replaced_at.ms <= next_wait.ms,
        ts.contains(t),
        t.ms < replaced_at.ms,
    ensures
        !pending(ts, next_wait.ms as int).contains(t),
        forall|u: LocalDateTime| #[trigger]
            pending(ts, next_wait.ms as int).contains(u) ==> u.ms > replaced_at.ms,
    decreases ts.len(),
{
    lemma_pending_after(ts, next_wait.ms as int);
}

/// Every pending wake time lies after `now`.
pub proof fn lemma_pending_after(ts: Seq<LocalDateTime>, now: int)
    ensures
        forall|u: LocalDateTime| #[trigger] pending(ts, now).contains(u) ==> u.ms > now,
    decreases ts.len(),
{
    if ts.len() > 0 {
        lemma_pending_after(ts.drop_last(), now);
        let p = pending(ts.drop_last(), now);
        if ts.last().ms > now {
            assert forall|u: LocalDateTime| #[trigger] p.push(ts.last()).contains(u) implies u.ms
                > now by {
                if u != ts.last() {
                    let k = choose|k: int| 0 <= k < p.push(ts.last()).len() && p.push(ts.last())[k] == u;
                    assert(p[k] == u);
                    assert(p.contains(u));
                }
            }
        }
    }
}

} // verus!
