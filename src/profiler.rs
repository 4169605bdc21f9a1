//! The controller: chooses which processes are observed and drains the
//! recorded histograms.
use vstd::prelude::*;
use std::collections::HashMap;
use crate::bucket::Histogram;
use crate::maps::{hist_view, Maps, MAX_ENTRIES};

verus! {

/// `s` with every pid of `pids` added.
pub open spec fn with_all(s: Set<u32>, pids: Seq<u32>) -> Set<u32>
    decreases pids.len(),
{
    if pids.len() == 0 {
        s
    } else {
        with_all(s, pids.drop_last()).insert(pids.last())
    }
}

/// `s` with every pid of `pids` removed.
pub open spec fn without_all(s: Set<u32>, pids: Seq<u32>) -> Set<u32>
    decreases pids.len(),
{
    if pids.len() == 0 {
        s
    } else {
        without_all(s, pids.drop_last()).remove(pids.last())
    }
}

/// Why a change of the tracked set stopped at `pids[index]`.
#[derive(Clone, Copy, Debug, PartialEq, Eq, Structural)]
pub enum PidMapError {
    /// The tracked set is full.
    Full { index: usize, pid: u32 },
    /// The pid is not in the tracked set.
    NotTracked { index: usize, pid: u32 },
}

/// Owner of the stores, on the controller's side.
pub struct Profiler {
    pub maps: Maps,
}

impl Profiler {
    /// A controller over empty stores.
    pub fn new() -> (r: Profiler)
        ensures
            r.maps@.wf(),
            r.maps@.watched == Set::<u32>::empty(),
            r.maps@.start == Map::<u32, u64>::empty(),
            r.maps@.hist == Map::<u32, Seq<u32>>::empty(),
    {
        Profiler { maps: Maps::new() }
    }

    /// Track each pid of `pids`, in order. Stops at the first pid that does
    /// not fit; the pids before it stay tracked.
    pub fn insert_pids(&mut self, pids: &[u32]) -> (r: Result<(), PidMapError>)
        requires
            old(self).maps@.wf(),
        ensures
            final(self).maps@.wf(),
            final(self).maps@.start == old(self).maps@.start,
            final(self).maps@.hist == old(self).maps@.hist,
            match r {
                Ok(()) => final(self).maps@.watched == with_all(old(self).maps@.watched, pids@),
                Err(PidMapError::Full { index, pid }) => {
                    &&& index < pids@.len()
                    &&& pid == pids@[index as int]
                    &&& final(self).maps@.watched == with_all(
                        old(self).maps@.watched,
                        pids@.take(index as int),
                    )
                    &&& !final(self).maps@.watched.contains(pid)
                    &&& final(self).maps@.watched.len() == MAX_ENTRIES
                },
                Err(PidMapError::NotTracked { .. }) => false,
            },
    {
        let mut i: usize = 0;
        while i < pids.len()
            invariant
                0 <= i <= pids@.len(),
                self.maps@.wf(),
                self.maps@.start == old(self).maps@.start,
                self.maps@.hist == old(self).maps@.hist,
                self.maps@.watched == with_all(old(self).maps@.watched, pids@.take(i as int)),
            decreases pids@.len() - i,
        {
            let pid = pids[i];
            if !self.maps.track(pid) {
                return Err(PidMapError::Full { index: i, pid });
            }
            assert(pids@.take(i + 1).drop_last() =~= pids@.take(i as int));
            i += 1;
        }
        assert(pids@.take(pids@.len() as int) =~= pids@);
        Ok(())
    }

    /// Stop tracking each pid of `pids`, in order. Stops at the first pid
    /// that is not tracked; the pids before it stay removed. Histograms
    /// already recorded are left in place.
    pub fn remove_pids(&mut self, pids: &[u32]) -> (r: Result<(), PidMapError>)
        requires
            old(self).maps@.wf(),
        ensures
            final(self).maps@.wf(),
            final(self).maps@.start == old(self).maps@.start,
            final(self).maps@.hist == old(self).maps@.hist,
            match r {
                Ok(()) => {
                    &&& final(self).maps@.watched == without_all(old(self).maps@.watched, pids@)
                    &&& forall|i: int|
                        0 <= i < pids@.len() ==> #[trigger] without_all(
                            old(self).maps@.watched,
                            pids@.take(i),
                        ).contains(pids@[i])
                },
                Err(PidMapError::NotTracked { index, pid }) => {
                    &&& index < pids@.len()
                    &&& pid == pids@[index as int]
                    &&& final(self).maps@.watched == without_all(
                        old(self).maps@.watched,
                        pids@.take(index as int),
                    )
                    &&& !final(self).maps@.watched.contains(pid)
                },
                Err(PidMapError::Full { .. }) => false,
            },
    {
        let mut i: usize = 0;
        while i < pids.len()
            invariant
                0 <= i <= pids@.len(),
                self.maps@.wf(),
                self.maps@.start == old(self).maps@.start,
                self.maps@.hist == old(self).maps@.hist,
                self.maps@.watched == without_all(old(self).maps@.watched, pids@.take(i as int)),
                forall|j: int|
                    0 <= j < i ==> #[trigger] without_all(
                        old(self).maps@.watched,
                        pids@.take(j),
                    ).contains(pids@[j]),
            decreases pids@.len() - i,
        {
            let pid = pids[i];
            if !self.maps.untrack(pid) {
                return Err(PidMapError::NotTracked { index: i, pid });
            }
            assert(pids@.take(i + 1).drop_last() =~= pids@.take(i as int));
            i += 1;
        }
        assert(pids@.take(pids@.len() as int) =~= pids@);
        Ok(())
    }

    /// Hand out every recorded histogram and clear the store.
    pub fn drain_histograms(&mut self) -> (r: HashMap<u32, Histogram>)
        requires
            old(self).maps@.wf(),
        ensures
            final(self).maps@.wf(),
            hist_view(r@) == old(self).maps@.hist,
            final(self).maps@.hist == Map::<u32, Seq<u32>>::empty(),
            final(self).maps@.watched == old(self).maps@.watched,
            final(self).maps@.start == old(self).maps@.start,
    {
        self.maps.take_histograms()
    }
}

} // verus!
