use runqlat::bucket::{histogram_slot, log2_u32, log2_u64, Histogram, MAX_SLOTS};
use runqlat::maps::{Maps, MAX_ENTRIES};
use runqlat::probe::{sched_switch, sched_wakeup, sched_wakeup_new, Task, TASK_RUNNING};
use runqlat::profiler::{PidMapError, Profiler};

const TASK_INTERRUPTIBLE: u32 = 1;

fn task(pid: u32, tgid: u32) -> Task {
    Task { pid, tgid, state: TASK_INTERRUPTIBLE }
}

fn one_sample(slot: usize) -> Histogram {
    let mut h = [0u32; MAX_SLOTS];
    h[slot] = 1;
    h
}

#[test]
fn log2_u32_exact_values() {
    assert_eq!(log2_u32(0), 0);
    assert_eq!(log2_u32(1), 0);
    assert_eq!(log2_u32(2), 1);
    assert_eq!(log2_u32(3), 1);
    assert_eq!(log2_u32(4), 2);
    assert_eq!(log2_u32(0xFFFF), 15);
    assert_eq!(log2_u32(0x10000), 16);
    assert_eq!(log2_u32(u32::MAX), 31);
}

#[test]
fn log2_u64_exact_values() {
    assert_eq!(log2_u64(0), 0);
    assert_eq!(log2_u64(1), 0);
    assert_eq!(log2_u64(2500), 11);
    assert_eq!(log2_u64(1 << 32), 32);
    assert_eq!(log2_u64((1 << 40) + 5), 40);
    assert_eq!(log2_u64(u64::MAX), 63);
}

#[test]
fn bucketing_ranges() {
    assert_eq!(histogram_slot(0), 0);
    for k in 0..(MAX_SLOTS - 1) {
        let lo: u64 = 1 << k;
        let hi: u64 = (1 << (k + 1)) - 1;
        assert_eq!(histogram_slot(lo), k);
        assert_eq!(histogram_slot(hi), k);
    }
    assert_eq!(histogram_slot(1 << (MAX_SLOTS - 1)), MAX_SLOTS - 1);
    assert_eq!(histogram_slot(1_000_000_000), MAX_SLOTS - 1);
    assert_eq!(histogram_slot(u64::MAX), MAX_SLOTS - 1);
}

#[test]
fn bucketing_of_2500_us() {
    let delta_us = (3_500_000u64 - 1_000_000u64) / 1000;
    assert_eq!(delta_us, 2500);
    assert_eq!(histogram_slot(delta_us), 11);
}

#[test]
fn switch_records_2500_us_in_slot_11() {
    let mut p = Profiler::new();
    p.insert_pids(&[42]).unwrap();
    sched_wakeup(&mut p.maps, Some(task(7, 42)), 1_000_000);
    sched_switch(&mut p.maps, Some(task(1, 1)), Some(task(7, 42)), 3_500_000);
    let out = p.drain_histograms();
    assert_eq!(out.get(&42), Some(&one_sample(11)));
}

#[test]
fn end_to_end_single_process() {
    let mut p = Profiler::new();
    p.insert_pids(&[42]).unwrap();
    sched_wakeup(&mut p.maps, Some(task(7, 42)), 0);
    sched_switch(&mut p.maps, Some(task(3, 99)), Some(task(7, 42)), 5000);
    let out = p.drain_histograms();
    assert_eq!(out.len(), 1);
    assert_eq!(out.get(&42), Some(&one_sample(2)));
    assert_eq!(p.maps.start_ts(7), None);
}

#[test]
fn pid_zero_never_pending() {
    let mut maps = Maps::new();
    assert!(maps.track(0));
    assert!(maps.track(5));
    sched_wakeup(&mut maps, Some(task(0, 0)), 10);
    sched_wakeup_new(&mut maps, Some(task(0, 5)), 20);
    let prev = Task { pid: 0, tgid: 5, state: TASK_RUNNING };
    sched_switch(&mut maps, Some(prev), Some(task(9, 77)), 30);
    assert_eq!(maps.start_ts(0), None);
}

#[test]
fn wakeup_of_untracked_process_is_ignored() {
    let mut maps = Maps::new();
    assert!(maps.track(1));
    sched_wakeup(&mut maps, Some(task(7, 2)), 100);
    sched_wakeup_new(&mut maps, None, 100);
    assert_eq!(maps.start_ts(7), None);
    sched_wakeup_new(&mut maps, Some(task(7, 1)), 100);
    assert_eq!(maps.start_ts(7), Some(100));
}

#[test]
fn wakeup_overwrites_stale_start() {
    let mut maps = Maps::new();
    assert!(maps.track(1));
    sched_wakeup(&mut maps, Some(task(7, 1)), 100);
    sched_wakeup(&mut maps, Some(task(7, 1)), 250);
    assert_eq!(maps.start_ts(7), Some(250));
}

#[test]
fn preempted_prev_waits_again() {
    let mut maps = Maps::new();
    assert!(maps.track(1));
    let prev = Task { pid: 7, tgid: 1, state: TASK_RUNNING };
    sched_switch(&mut maps, Some(prev), Some(task(8, 2)), 400);
    assert_eq!(maps.start_ts(7), Some(400));
    let blocked = task(9, 1);
    sched_switch(&mut maps, Some(blocked), Some(task(8, 2)), 500);
    assert_eq!(maps.start_ts(9), None);
}

#[test]
fn switch_with_missing_task_changes_nothing() {
    let mut maps = Maps::new();
    assert!(maps.track(1));
    sched_wakeup(&mut maps, Some(task(7, 1)), 0);
    let prev = Task { pid: 8, tgid: 1, state: TASK_RUNNING };
    sched_switch(&mut maps, Some(prev), None, 5000);
    sched_switch(&mut maps, None, Some(task(7, 1)), 5000);
    assert_eq!(maps.start_ts(7), Some(0));
    assert_eq!(maps.start_ts(8), None);
    assert_eq!(maps.histogram(1), None);
}

#[test]
fn switch_without_pending_start_records_nothing() {
    let mut maps = Maps::new();
    assert!(maps.track(1));
    sched_switch(&mut maps, Some(task(2, 2)), Some(task(7, 1)), 5000);
    assert_eq!(maps.histogram(1), None);
}

#[test]
fn counters_grow_until_drain() {
    let mut p = Profiler::new();
    p.insert_pids(&[42]).unwrap();
    let mut last = [0u32; MAX_SLOTS];
    for round in 0..5u64 {
        let t0 = round * 100_000;
        sched_wakeup(&mut p.maps, Some(task(7, 42)), t0);
        sched_switch(&mut p.maps, Some(task(1, 1)), Some(task(7, 42)), t0 + 1000 * (round + 1));
        let now = p.maps.histogram(42).unwrap();
        for i in 0..MAX_SLOTS {
            assert!(now[i] >= last[i]);
        }
        last = now;
    }
    assert_eq!(last.iter().sum::<u32>(), 5);
    let out = p.drain_histograms();
    assert_eq!(out.get(&42), Some(&last));
    assert_eq!(p.maps.histogram(42), None);
    assert!(p.drain_histograms().is_empty());
}

#[test]
fn interleaved_switches_stay_isolated() {
    let mut maps = Maps::new();
    assert!(maps.track(10));
    assert!(maps.track(20));
    // two cores: core A runs threads of 10, core B threads of 20
    sched_wakeup(&mut maps, Some(task(11, 10)), 0);
    sched_wakeup(&mut maps, Some(task(21, 20)), 0);
    sched_wakeup(&mut maps, Some(task(12, 10)), 1_000);
    sched_switch(&mut maps, Some(task(1, 1)), Some(task(21, 20)), 2_000);
    sched_switch(&mut maps, Some(task(2, 2)), Some(task(11, 10)), 100_000);
    sched_wakeup(&mut maps, Some(task(22, 20)), 100_000);
    sched_switch(&mut maps, Some(task(21, 20)), Some(task(22, 20)), 1_200_000);
    sched_switch(&mut maps, Some(task(11, 10)), Some(task(12, 10)), 1_001_000);
    let mut h10 = [0u32; MAX_SLOTS];
    h10[6] = 1; // 100 us
    h10[9] = 1; // 1000 us
    let mut h20 = [0u32; MAX_SLOTS];
    h20[1] = 1; // 2 us
    h20[10] = 1; // 1100 us
    assert_eq!(maps.histogram(10), Some(h10));
    assert_eq!(maps.histogram(20), Some(h20));
}

#[test]
fn untrack_keeps_recorded_histogram() {
    let mut p = Profiler::new();
    p.insert_pids(&[42]).unwrap();
    sched_wakeup(&mut p.maps, Some(task(7, 42)), 0);
    sched_switch(&mut p.maps, Some(task(1, 1)), Some(task(7, 42)), 5000);
    p.remove_pids(&[42]).unwrap();
    assert!(!p.maps.is_tracked(42));
    let out = p.drain_histograms();
    assert_eq!(out.len(), 1);
    assert_eq!(out.get(&42), Some(&one_sample(2)));
    assert!(p.drain_histograms().is_empty());
}

#[test]
fn negative_delta_is_discarded() {
    let mut maps = Maps::new();
    assert!(maps.track(42));
    sched_wakeup(&mut maps, Some(task(7, 42)), 9_000);
    sched_switch(&mut maps, Some(task(1, 1)), Some(task(7, 42)), 5_000);
    assert_eq!(maps.histogram(42), None);
    assert_eq!(maps.start_ts(7), None);
}

#[test]
fn insert_pids_stops_when_full() {
    let mut p = Profiler::new();
    let pids: Vec<u32> = (1..=MAX_ENTRIES as u32).collect();
    assert_eq!(p.insert_pids(&pids), Ok(()));
    // already tracked pids still fit
    assert_eq!(p.insert_pids(&[1, 2]), Ok(()));
    let extra = [3, 5000, 5001];
    assert_eq!(p.insert_pids(&extra), Err(PidMapError::Full { index: 1, pid: 5000 }));
    assert!(!p.maps.is_tracked(5000));
    assert!(p.maps.is_tracked(MAX_ENTRIES as u32));
}

#[test]
fn remove_pids_stops_at_untracked_pid() {
    let mut p = Profiler::new();
    p.insert_pids(&[1, 2, 3]).unwrap();
    assert_eq!(
        p.remove_pids(&[1, 9, 2]),
        Err(PidMapError::NotTracked { index: 1, pid: 9 })
    );
    assert!(!p.maps.is_tracked(1));
    assert!(p.maps.is_tracked(2));
    assert!(p.maps.is_tracked(3));
}

#[test]
fn full_histogram_store_drops_new_process() {
    let mut maps = Maps::new();
    let n = MAX_ENTRIES as u32;
    for tgid in 1..=n + 1 {
        assert_eq!(maps.track(tgid), tgid <= n);
    }
    // fill the pending map and histogram store through their own capacity
    for tgid in 1..=n {
        sched_wakeup(&mut maps, Some(task(tgid, tgid)), 0);
        sched_switch(&mut maps, Some(task(0, 0)), Some(task(tgid, tgid)), 1000);
    }
    assert_eq!(maps.histogram(n), Some(one_sample(0)));
    maps.untrack(1);
    assert!(maps.track(n + 1));
    sched_wakeup(&mut maps, Some(task(n + 1, n + 1)), 0);
    sched_switch(&mut maps, Some(task(0, 0)), Some(task(n + 1, n + 1)), 1000);
    assert_eq!(maps.histogram(n + 1), None);
    assert_eq!(maps.start_ts(n + 1), None);
}
