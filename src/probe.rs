//! Scheduler event handlers.
//!
//! A wakeup of a thread of a tracked process stores the moment it became
//! runnable; the switch that puts it on a CPU turns the wait into a
//! histogram sample of its process. The handlers take the current kernel
//! time as an argument, and a task as `None` where the event carried a null
//! pointer or a field could not be read: such an event changes nothing.
use vstd::prelude::*;
use crate::bucket::{bucket_of, histogram_slot};
use crate::maps::{bounded_insert, record_sample, Maps, MapsModel};

verus! {

/// Run state of a task that is runnable (preempted rather than blocked).
pub const TASK_RUNNING: u32 = 0;

/// The fields of a kernel task that the handlers read.
#[derive(Clone, Copy, Debug, PartialEq, Eq, Structural)]
pub struct Task {
    /// Thread id.
    pub pid: u32,
    /// Thread group (process) id.
    pub tgid: u32,
    /// Run state.
    pub state: u32,
}

/// Store `now` as the start of the wait of `pid`, unless `pid` is 0.
pub open spec fn save_start(m: MapsModel, pid: u32, now: u64) -> MapsModel {
    if pid == 0 {
        m
    } else {
        MapsModel { start: bounded_insert(m.start, pid, now), ..m }
    }
}

/// Effect of a wakeup of `task` at `now`.
pub open spec fn wakeup(m: MapsModel, task: Option<Task>, now: u64) -> MapsModel {
    match task {
        Some(t) => if m.watched.contains(t.tgid) {
            save_start(m, t.pid, now)
        } else {
            m
        },
        None => m,
    }
}

/// Latency in microseconds of a wait from `start` to `now` nanoseconds.
pub open spec fn delta_us(start: u64, now: u64) -> nat {
    ((now - start) / 1000) as nat
}

/// Effect of scheduling `next` in at `now`.
pub open spec fn switch_in(m: MapsModel, next: Task, now: u64) -> MapsModel {
    if !m.watched.contains(next.tgid) || !m.start.contains_key(next.pid) {
        m
    } else if now < m.start[next.pid] {
        MapsModel { start: m.start.remove(next.pid), ..m }
    } else {
        MapsModel {
            start: m.start.remove(next.pid),
            hist: record_sample(
                m.hist,
                next.tgid,
                bucket_of(delta_us(m.start[next.pid], now)) as int,
            ),
            ..m
        }
    }
}

/// Effect of a switch from `prev` to `next` at `now`: a preempted `prev` of a
/// tracked process waits again from `now`, then `next` is scheduled in.
pub open spec fn switch(m: MapsModel, prev: Option<Task>, next: Option<Task>, now: u64) -> MapsModel {
    match (prev, next) {
        (Some(p), Some(n)) => {
            let m1 = if p.state == TASK_RUNNING && m.watched.contains(p.tgid) {
                save_start(m, p.pid, now)
            } else {
                m
            };
            switch_in(m1, n, now)
        },
        _ => m,
    }
}

/// Thread `task` became runnable at `now`.
pub fn sched_wakeup(maps: &mut Maps, task: Option<Task>, now: u64)
    requires
        old(maps)@.wf(),
    ensures
        final(maps)@.wf(),
        final(maps)@ == wakeup(old(maps)@, task, now),
{
    let t = match task {
        Some(t) => t,
        None => return,
    };
    if !maps.is_tracked(t.tgid) {
        return;
    }
    maps.save_start_ts(t.pid, now);
}

/// A newly created thread `task` became runnable at `now`.
pub fn sched_wakeup_new(maps: &mut Maps, task: Option<Task>, now: u64)
    requires
        old(maps)@.wf(),
    ensures
        final(maps)@.wf(),
        final(maps)@ == wakeup(old(maps)@, task, now),
{
    sched_wakeup(maps, task, now)
}

/// The CPU switched from `prev` to `next` at `now`.
pub fn sched_switch(maps: &mut Maps, prev: Option<Task>, next: Option<Task>, now: u64)
    requires
        old(maps)@.wf(),
    ensures
        final(maps)@.wf(),
        final(maps)@ == switch(old(maps)@, prev, next, now),
{
    let (p, n) = match (prev, next) {
        (Some(p), Some(n)) => (p, n),
        _ => return,
    };
    if p.state == TASK_RUNNING && maps.is_tracked(p.tgid) {
        maps.save_start_ts(p.pid, now);
    }
    try_sched_switch(maps, n, now);
}

fn try_sched_switch(maps: &mut Maps, next: Task, now: u64)
    requires
        old(maps)@.wf(),
    ensures
        final(maps)@.wf(),
        final(maps)@ == switch_in(old(maps)@, next, now),
{
    if !maps.is_tracked(next.tgid) {
        return;
    }
    let start_ts = match maps.start_ts(next.pid) {
        Some(ts) => ts,
        None => return,
    };
    if now < start_ts {
        maps.clear_start_ts(next.pid);
        return;
    }
    let delta_us = (now - start_ts) / 1000;
    let slot = histogram_slot(delta_us);
    maps.record(next.tgid, slot);
    maps.clear_start_ts(next.pid);
}

} // verus!
