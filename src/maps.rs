//! The three shared stores: watched processes, pending start timestamps and
//! latency histograms, each a capacity-bounded map keyed by a 32-bit id.
use vstd::prelude::*;
use std::collections::HashMap;
use crate::bucket::{Histogram, MAX_SLOTS};

verus! {

broadcast use vstd::std_specs::hash::group_hash_axioms;

/// Capacity of each store.
pub const MAX_ENTRIES: usize = 2048;

/// Abstract contents of the stores.
pub struct MapsModel {
    /// tgids under observation.
    pub watched: Set<u32>,
    /// pid -> nanosecond timestamp at which the thread became runnable.
    pub start: Map<u32, u64>,
    /// tgid -> counters, one per slot.
    pub hist: Map<u32, Seq<u32>>,
}

/// Insert into a bounded store: a new key is refused once the store is full.
pub open spec fn bounded_insert<V>(m: Map<u32, V>, k: u32, v: V) -> Map<u32, V> {
    if m.contains_key(k) || m.len() < MAX_ENTRIES {
        m.insert(k, v)
    } else {
        m
    }
}

/// Increment that stops at the largest counter value.
pub open spec fn saturating_inc(c: u32) -> u32 {
    if c < u32::MAX {
        (c + 1) as u32
    } else {
        c
    }
}

/// A histogram holding a single sample in `slot`.
pub open spec fn single_sample(slot: int) -> Seq<u32> {
    Seq::new(MAX_SLOTS as nat, |i: int| if i == slot { 1u32 } else { 0u32 })
}

/// Count one sample in `slot` of the histogram of `tgid`, creating it if absent.
pub open spec fn record_sample(hist: Map<u32, Seq<u32>>, tgid: u32, slot: int) -> Map<u32, Seq<u32>> {
    if hist.contains_key(tgid) {
        hist.insert(tgid, hist[tgid].update(slot, saturating_inc(hist[tgid][slot])))
    } else {
        bounded_insert(hist, tgid, single_sample(slot))
    }
}

/// Effect of adding `tgid` to the tracked set; refused when the set is full.
pub open spec fn tracked_with(m: MapsModel, tgid: u32) -> MapsModel {
    if m.watched.contains(tgid) || m.watched.len() < MAX_ENTRIES {
        MapsModel { watched: m.watched.insert(tgid), ..m }
    } else {
        m
    }
}

/// Effect of removing `tgid` from the tracked set.
pub open spec fn untracked(m: MapsModel, tgid: u32) -> MapsModel {
    MapsModel { watched: m.watched.remove(tgid), ..m }
}

/// Histograms as sequences of counters.
pub open spec fn hist_view(h: Map<u32, Histogram>) -> Map<u32, Seq<u32>> {
    h.map_values(|a: Histogram| a@)
}

/// Every counter of `a` is still present in `b`, with a value at least as large.
pub open spec fn counts_grow(a: Map<u32, Seq<u32>>, b: Map<u32, Seq<u32>>) -> bool {
    forall|t: u32|
        #[trigger] a.contains_key(t) ==> b.contains_key(t) && b[t].len() == a[t].len() && forall|
            i: int,
        |
            0 <= i < a[t].len() ==> a[t][i] <= #[trigger] b[t][i]
}

/// The stores shared by the event handlers and the controller.
pub struct Maps {
    watched: HashMap<u32, u8>,
    start: HashMap<u32, u64>,
    hist: HashMap<u32, Histogram>,
}

impl View for Maps {
    type V = MapsModel;

    closed spec fn view(&self) -> MapsModel {
        MapsModel { watched: self.watched@.dom(), start: self.start@, hist: hist_view(self.hist@) }
    }
}

impl MapsModel {
    /// Capacities hold, pid 0 is never pending and every histogram has
    /// `MAX_SLOTS` counters.
    pub open spec fn wf(self) -> bool {
        &&& self.watched.finite()
        &&& self.start.dom().finite()
        &&& self.hist.dom().finite()
        &&& self.watched.len() <= MAX_ENTRIES
        &&& self.start.len() <= MAX_ENTRIES
        &&& self.hist.len() <= MAX_ENTRIES
        &&& !self.start.contains_key(0)
        &&& forall|t: u32| #[trigger] self.hist.contains_key(t) ==> self.hist[t].len() == MAX_SLOTS
    }
}

proof fn lemma_hist_view_insert(h: Map<u32, Histogram>, k: u32, v: Histogram)
    ensures
        hist_view(h.insert(k, v)) == hist_view(h).insert(k, v@),
{
    assert(hist_view(h.insert(k, v)) =~= hist_view(h).insert(k, v@));
}

proof fn lemma_hist_view_dom(h: Map<u32, Histogram>)
    ensures
        hist_view(h).dom() == h.dom(),
{
    assert(hist_view(h).dom() =~= h.dom());
}

fn store_insert<V>(m: &mut HashMap<u32, V>, k: u32, v: V) -> (ok: bool)
    ensures
        final(m)@ == bounded_insert(old(m)@, k, v),
        ok == (old(m)@.contains_key(k) || old(m)@.len() < MAX_ENTRIES),
{
    if m.contains_key(&k) || m.len() < MAX_ENTRIES {
        m.insert(k, v);
        true
    } else {
        false
    }
}

impl Maps {
    /// Empty stores.
    pub fn new() -> (r: Maps)
        ensures
            r@.watched == Set::<u32>::empty(),
            r@.start == Map::<u32, u64>::empty(),
            r@.hist == Map::<u32, Seq<u32>>::empty(),
            r@.wf(),
    {
        let r = Maps { watched: HashMap::new(), start: HashMap::new(), hist: HashMap::new() };
        assert(r@.hist =~= Map::<u32, Seq<u32>>::empty());
        r
    }

    /// Whether `tgid` is watched.
    pub fn is_tracked(&self, tgid: u32) -> (r: bool)
        ensures
            r == self@.watched.contains(tgid),
    {
        self.watched.contains_key(&tgid)
    }

    /// The pending start timestamp of `pid`, if any.
    pub fn start_ts(&self, pid: u32) -> (r: Option<u64>)
        ensures
            r == (if self@.start.contains_key(pid) { Some(self@.start[pid]) } else { None::<u64> }),
    {
        match self.start.get(&pid) {
            Some(ts) => Some(*ts),
            None => None,
        }
    }

    /// The histogram of `tgid`, if any.
    pub fn histogram(&self, tgid: u32) -> (r: Option<Histogram>)
        ensures
            self@.hist.contains_key(tgid) ==> r.is_some() && r.unwrap()@ == self@.hist[tgid],
            !self@.hist.contains_key(tgid) ==> r.is_none(),
    {
        match self.hist.get(&tgid) {
            Some(h) => Some(*h),
            None => None,
        }
    }

    /// Add `tgid` to the watched set; refused when the set is full.
    pub fn track(&mut self, tgid: u32) -> (ok: bool)
        requires
            old(self)@.wf(),
        ensures
            final(self)@.wf(),
            ok == (old(self)@.watched.contains(tgid) || old(self)@.watched.len() < MAX_ENTRIES),
            final(self)@ == tracked_with(old(self)@, tgid),
    {
        let ok = store_insert(&mut self.watched, tgid, 0u8);
        ok
    }

    /// Remove `tgid` from the watched set; returns whether it was there.
    pub fn untrack(&mut self, tgid: u32) -> (found: bool)
        requires
            old(self)@.wf(),
        ensures
            final(self)@.wf(),
            found == old(self)@.watched.contains(tgid),
            final(self)@ == untracked(old(self)@, tgid),
    {
        let r = self.watched.remove(&tgid);
        r.is_some()
    }

    /// Record `ts` as the moment `pid` became runnable; pid 0 is ignored.
    pub fn save_start_ts(&mut self, pid: u32, ts: u64)
        requires
            old(self)@.wf(),
        ensures
            final(self)@.wf(),
            final(self)@.start == (if pid == 0 { old(self)@.start } else { bounded_insert(old(self)@.start, pid, ts) }),
            final(self)@.watched == old(self)@.watched,
            final(self)@.hist == old(self)@.hist,
    {
        if pid == 0 {
            return;
        }
        let _ = store_insert(&mut self.start, pid, ts);
    }

    /// Drop the pending start timestamp of `pid`.
    pub fn clear_start_ts(&mut self, pid: u32)
        requires
            old(self)@.wf(),
        ensures
            final(self)@.wf(),
            final(self)@.start == old(self)@.start.remove(pid),
            final(self)@.watched == old(self)@.watched,
            final(self)@.hist == old(self)@.hist,
    {
        let _ = self.start.remove(&pid);
    }

    /// Count one sample in `slot` of the histogram of `tgid`.
    pub fn record(&mut self, tgid: u32, slot: usize)
        requires
            old(self)@.wf(),
            slot < MAX_SLOTS,
        ensures
            final(self)@.wf(),
            final(self)@.hist == record_sample(old(self)@.hist, tgid, slot as int),
            final(self)@.watched == old(self)@.watched,
            final(self)@.start == old(self)@.start,
    {
        let cur: Option<Histogram> = match self.hist.get(&tgid) {
            Some(h) => Some(*h),
            None => None,
        };
        match cur {
            Some(h) => {
                let ghost h0 = h;
                assert(self@.hist.contains_key(tgid) && self@.hist[tgid] == h0@);
                let mut h = h;
                let c = h[slot];
                h[slot] = if c < u32::MAX { c + 1 } else { c };
                assert(h@ =~= h0@.update(slot as int, saturating_inc(h0@[slot as int])));
                proof {
                    lemma_hist_view_insert(self.hist@, tgid, h);
                    assert(self.hist@.insert(tgid, h).dom() =~= self.hist@.dom());
                }
                self.hist.insert(tgid, h);
            },
            None => {
                let mut h: Histogram = [0u32; MAX_SLOTS];
                h[slot] = 1;
                assert(h@ =~= single_sample(slot as int));
                proof {
                    lemma_hist_view_insert(self.hist@, tgid, h);
                    lemma_hist_view_dom(self.hist@);
                }
                let _ = store_insert(&mut self.hist, tgid, h);
            },
        }
    }

    /// Hand out every histogram and leave the store empty.
    pub fn take_histograms(&mut self) -> (r: HashMap<u32, Histogram>)
        requires
            old(self)@.wf(),
        ensures
            final(self)@.wf(),
            hist_view(r@) == old(self)@.hist,
            final(self)@.hist == Map::<u32, Seq<u32>>::empty(),
            final(self)@.watched == old(self)@.watched,
            final(self)@.start == old(self)@.start,
    {
        let mut out: HashMap<u32, Histogram> = HashMap::new();
        std::mem::swap(&mut out, &mut self.hist);
        assert(hist_view(self.hist@) =~= Map::<u32, Seq<u32>>::empty());
        out
    }
}

} // verus!
