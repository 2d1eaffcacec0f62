use termplot::bar::{PlotterOpt, Range};
use termplot::history::{Eviction, History, Record};
use termplot::worker::{HistoryRecord, SeriesIds, Worker};

fn opt(width: usize) -> PlotterOpt {
    PlotterOpt { width, range: Range::new(0, 10_000) }
}

fn rec(time: u64, value: i64) -> Record {
    Record { time, value }
}

fn hr(history_id: u64, time: u64, value: i64) -> HistoryRecord {
    HistoryRecord { history_id, record: rec(time, value) }
}

#[test]
fn count_eviction_keeps_the_newest() {
    let mut h = History::new();
    for i in 0..10 {
        h.append(rec(i, i as i64), 0, Eviction::Count(3));
        assert!(h.len() <= 3);
    }
    assert_eq!(h.len(), 3);
    assert_eq!(h.get(0), rec(7, 7));
    assert_eq!(h.get(1), rec(8, 8));
    assert_eq!(h.get(2), rec(9, 9));
}

#[test]
fn count_eviction_with_no_room_keeps_nothing() {
    let mut h = History::new();
    h.append(rec(1, 1), 0, Eviction::Count(0));
    assert_eq!(h.len(), 0);
}

#[test]
fn age_eviction_drops_old_samples() {
    let mut h = History::new();
    h.append(rec(0, 1), 0, Eviction::Age(100));
    h.append(rec(50, 2), 50, Eviction::Age(100));
    h.append(rec(100, 3), 100, Eviction::Age(100));
    assert_eq!(h.len(), 3);
    h.append(rec(101, 4), 101, Eviction::Age(100));
    assert_eq!(h.len(), 3);
    assert_eq!(h.get(0), rec(50, 2));
    h.append(rec(400, 5), 400, Eviction::Age(100));
    assert_eq!(h.len(), 1);
    assert_eq!(h.get(0), rec(400, 5));
}

#[test]
fn age_eviction_scans_only_the_front() {
    let mut h = History::new();
    h.append(rec(100, 1), 100, Eviction::Age(10));
    h.append(rec(0, 2), 100, Eviction::Age(10));
    assert_eq!(h.len(), 2);
    h.append(rec(200, 3), 200, Eviction::Age(10));
    assert_eq!(h.len(), 1);
}

#[test]
fn points_count_back_from_the_newest() {
    let mut h = History::new();
    h.append(rec(10, 5), 10, Eviction::Age(1_000));
    h.append(rec(30, 6), 30, Eviction::Age(1_000));
    assert_eq!(h.points(40, Eviction::Age(1_000)), vec![(-30, 5), (-10, 6)]);
    assert_eq!(h.points(40, Eviction::Count(9)), vec![(-1, 5), (0, 6)]);
    assert_eq!(h.points(0, Eviction::Age(1_000)), vec![(0, 5), (0, 6)]);
}

#[test]
fn worker_keeps_samples_within_the_window() {
    let mut worker = Worker::new(opt(100), 0);
    assert_eq!(worker.policy(), Eviction::Age(100_000));
    let begin = 1_000_000;
    let end = begin + 50_000;
    worker.update_history(hr(0, begin, 0), end);
    worker.update_history(hr(0, end, 10_000), end);
    assert_eq!(worker.series_count(), 1);
    assert_eq!(worker.series_id(0), 0);
    assert_eq!(worker.history_of(0), vec![rec(begin, 0), rec(end, 10_000)]);
    assert_eq!(worker.series_points(0, end), vec![(-50_000, 0), (0, 10_000)]);
    worker.update_history(hr(0, end + 60_000, 5_000), end + 60_000);
    assert_eq!(worker.history_of(0), vec![rec(end, 10_000), rec(end + 60_000, 5_000)]);
}

#[test]
fn interleaved_series_each_keep_all_their_samples() {
    let mut ids = SeriesIds::new();
    let a = ids.spawn().unwrap();
    let b = ids.spawn().unwrap();
    assert_eq!((a, b), (1, 2));
    let mut worker = Worker::with_settings(opt(10), Eviction::Count(100), 40, 0);
    let mut seed: u64 = 12345;
    let (mut sent_a, mut sent_b) = (0i64, 0i64);
    let mut t: u64 = 0;
    while sent_a < 100 || sent_b < 100 {
        seed = seed.wrapping_mul(6364136223846793005).wrapping_add(1442695040888963407);
        let pick_a = (seed >> 33) % 2 == 0;
        t += 1;
        if (pick_a && sent_a < 100) || sent_b == 100 {
            worker.step(hr(a, t, sent_a), t);
            sent_a += 1;
        } else {
            worker.step(hr(b, t, -sent_b), t);
            sent_b += 1;
        }
    }
    worker.poll(t + 40);
    let ha = worker.history_of(a);
    let hb = worker.history_of(b);
    assert_eq!(ha.len(), 100);
    assert_eq!(hb.len(), 100);
    assert_eq!(ha.iter().map(|r| r.value).collect::<Vec<_>>(), (0..100).collect::<Vec<i64>>());
    assert_eq!(hb.iter().map(|r| r.value).collect::<Vec<_>>(), (0..100).map(|v: i64| -v).collect::<Vec<i64>>());
    assert_eq!(worker.series_count(), 2);
    assert!(worker.history_of(3).is_empty());
}

#[test]
fn series_are_kept_in_order_of_first_sample() {
    let mut worker = Worker::with_settings(opt(10), Eviction::Count(5), 40, 0);
    worker.update_history(hr(7, 1, 1), 1);
    worker.update_history(hr(3, 2, 2), 2);
    worker.update_history(hr(7, 3, 3), 3);
    assert_eq!(worker.series_count(), 2);
    assert_eq!(worker.series_id(0), 7);
    assert_eq!(worker.series_id(1), 3);
    assert_eq!(worker.history_of(7), vec![rec(1, 1), rec(3, 3)]);
}

#[test]
fn frames_are_throttled() {
    let mut worker = Worker::with_settings(opt(10), Eviction::Count(5), 40, 100);
    assert!(!worker.step(hr(1, 50, 1), 50));
    assert!(worker.step(hr(1, 100, 1), 100));
    assert!(!worker.step(hr(1, 120, 1), 120));
    assert!(!worker.poll(139));
    assert!(worker.poll(140));
    assert!(!worker.poll(179));
    assert!(worker.poll(u64::MAX));
    assert!(worker.poll(u64::MAX));
}

#[test]
fn series_ids_run_out() {
    let mut ids = SeriesIds::new();
    assert_eq!(ids.spawn(), Some(1));
    assert_eq!(ids.spawn(), Some(2));
    assert_eq!(ids.spawn(), Some(3));
}
