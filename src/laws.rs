//! Properties of the event handlers over whole runs of events.
use vstd::prelude::*;
use crate::bucket::{bucket_of, lemma_bucket_ranges, MAX_SLOTS};
use crate::maps::{
    counts_grow, record_sample, saturating_inc, tracked_with, untracked, MapsModel, MAX_ENTRIES,
};
use crate::probe::{delta_us, save_start, switch, switch_in, wakeup, Task, TASK_RUNNING};

verus! {

/// Anything that changes the stores between two drains: a scheduler event
/// with the kernel time at which it fired, or a change of the tracked set.
pub enum SchedEvent {
    /// A wakeup, of a new thread or not.
    Wakeup(Option<Task>, u64),
    /// A switch from a previous to a next task.
    Switch(Option<Task>, Option<Task>, u64),
    /// A tgid added to the tracked set.
    Track(u32),
    /// A tgid removed from the tracked set.
    Untrack(u32),
}

/// Effect of one event.
pub open spec fn step(m: MapsModel, e: SchedEvent) -> MapsModel {
    match e {
        SchedEvent::Wakeup(t, now) => wakeup(m, t, now),
        SchedEvent::Switch(p, n, now) => switch(m, p, n, now),
        SchedEvent::Track(tgid) => tracked_with(m, tgid),
        SchedEvent::Untrack(tgid) => untracked(m, tgid),
    }
}

/// Effect of a sequence of events, in order.
pub open spec fn run(m: MapsModel, evs: Seq<SchedEvent>) -> MapsModel
    decreases evs.len(),
{
    if evs.len() == 0 {
        m
    } else {
        step(run(m, evs.drop_last()), evs.last())
    }
}

proof fn lemma_record_sample_grows(h: Map<u32, Seq<u32>>, tgid: u32, slot: int)
    requires
        0 <= slot < MAX_SLOTS,
        h.dom().finite(),
        h.len() <= MAX_ENTRIES,
        forall|t: u32| #[trigger] h.contains_key(t) ==> h[t].len() == MAX_SLOTS,
    ensures
        counts_grow(h, record_sample(h, tgid, slot)),
        record_sample(h, tgid, slot).dom().finite(),
        record_sample(h, tgid, slot).len() <= MAX_ENTRIES,
        forall|t: u32| #[trigger] record_sample(h, tgid, slot).contains_key(t) ==> record_sample(h, tgid, slot)[t].len() == MAX_SLOTS,
{
    let r = record_sample(h, tgid, slot);
    assert forall|t: u32| #[trigger] h.contains_key(t) implies r.contains_key(t) && r[t].len() == h[t].len()
        && forall|i: int| 0 <= i < h[t].len() ==> h[t][i] <= #[trigger] r[t][i] by {
        if t == tgid {
            assert forall|i: int| 0 <= i < h[t].len() implies h[t][i] <= #[trigger] r[t][i] by {
                if i == slot {
                    assert(saturating_inc(h[t][i]) >= h[t][i]);
                }
            }
        }
    }
}

proof fn lemma_step_keeps(m: MapsModel, e: SchedEvent)
    requires
        m.wf(),
    ensures
        step(m, e).wf(),
        counts_grow(m.hist, step(m, e).hist),
{
    assert(counts_grow(m.hist, m.hist));
    match e {
        SchedEvent::Wakeup(t, now) => {},
        SchedEvent::Track(tgid) => {},
        SchedEvent::Untrack(tgid) => {},
        SchedEvent::Switch(p, n, now) => {
            match (p, n) {
                (Some(p), Some(n)) => {
                    let m1 = if p.state == TASK_RUNNING && m.watched.contains(p.tgid) {
                        save_start(m, p.pid, now)
                    } else {
                        m
                    };
                    assert(m1.wf());
                    if m1.watched.contains(n.tgid) && m1.start.contains_key(n.pid) && now >= m1.start[n.pid] {
                        let d = delta_us(m1.start[n.pid], now);
                        lemma_bucket_ranges(d, 0);
                        assert(bucket_of(d) < MAX_SLOTS);
                        lemma_record_sample_grows(m1.hist, n.tgid, bucket_of(d) as int);
                    }
                },
                _ => {},
            }
        },
    }
}

/// Pid 0 never waits in the pending-start store, whatever events come.
pub proof fn lemma_pid_zero_never_pending(m: MapsModel, evs: Seq<SchedEvent>)
    requires
        m.wf(),
    ensures
        run(m, evs).wf(),
        !run(m, evs).start.contains_key(0),
    decreases evs.len(),
{
    if evs.len() > 0 {
        lemma_pid_zero_never_pending(m, evs.drop_last());
        lemma_step_keeps(run(m, evs.drop_last()), evs.last());
    }
}

/// Between two drains no counter of any histogram decreases and no
/// histogram disappears, whatever events and changes of the tracked set come.
pub proof fn lemma_counts_never_decrease(m: MapsModel, evs: Seq<SchedEvent>)
    requires
        m.wf(),
    ensures
        counts_grow(m.hist, run(m, evs).hist),
    decreases evs.len(),
{
    assert(counts_grow(m.hist, m.hist));
    if evs.len() > 0 {
        let m1 = run(m, evs.drop_last());
        lemma_counts_never_decrease(m, evs.drop_last());
        lemma_pid_zero_never_pending(m, evs.drop_last());
        lemma_step_keeps(m1, evs.last());
        let m2 = step(m1, evs.last());
        assert forall|t: u32| #[trigger] m.hist.contains_key(t) implies m2.hist.contains_key(t)
            && m2.hist[t].len() == m.hist[t].len() && forall|i: int| 0 <= i < m.hist[t].len() ==> m.hist[t][i] <= #[trigger] m2.hist[t][i] by {
            assert(m1.hist.contains_key(t));
            assert forall|i: int| 0 <= i < m.hist[t].len() implies m.hist[t][i] <= #[trigger] m2.hist[t][i] by {
                assert(m.hist[t][i] <= m1.hist[t][i]);
            }
        }
    }
}

/// A switch changes at most the histogram of the process scheduled in:
/// every other process keeps its histogram, or its absence, as it was.
pub proof fn lemma_switch_isolation(m: MapsModel, prev: Option<Task>, next: Option<Task>, now: u64, tgid: u32)
    requires
        next.is_none() || next.unwrap().tgid != tgid,
    ensures
        switch(m, prev, next, now).hist.contains_key(tgid) == m.hist.contains_key(tgid),
        m.hist.contains_key(tgid) ==> switch(m, prev, next, now).hist[tgid] == m.hist[tgid],
{
}

/// Untracking a process leaves every recorded histogram in place, so a
/// sample recorded for it before is still handed out by the next drain.
pub proof fn lemma_untrack_keeps_samples(m: MapsModel, next: Task, now: u64)
    requires
        m.wf(),
        m.watched.contains(next.tgid),
        m.start.contains_key(next.pid),
        m.start[next.pid] <= now,
        m.hist.contains_key(next.tgid) || m.hist.len() < MAX_ENTRIES,
    ensures
        untracked(switch_in(m, next, now), next.tgid).hist == switch_in(m, next, now).hist,
        untracked(switch_in(m, next, now), next.tgid).hist.contains_key(next.tgid),
{
}

/// A switch to a thread whose pending start lies after the current time
/// records nothing and drops the pending start.
pub proof fn lemma_negative_delta_discarded(m: MapsModel, prev: Task, next: Task, now: u64)
    requires
        prev.pid != next.pid,
        m.watched.contains(next.tgid),
        m.start.contains_key(next.pid),
        now < m.start[next.pid],
    ensures
        switch(m, Some(prev), Some(next), now).hist == m.hist,
        !switch(m, Some(prev), Some(next), now).start.contains_key(next.pid),
{
}

} // verus!
