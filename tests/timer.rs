use naive_timer::Timer;
use std::sync::atomic::{AtomicBool, Ordering};
use std::sync::{Arc, Mutex};

type Callback = Box<dyn FnOnce(u64) + Send + Sync + 'static>;
type Log = Arc<Mutex<Vec<(u32, u64)>>>;

fn new_log() -> Log {
    Arc::new(Mutex::new(Vec::new()))
}

fn recorder(log: &Log, id: u32) -> Callback {
    let log = log.clone();
    Box::new(move |now| log.lock().unwrap().push((id, now)))
}

fn entries(log: &Log) -> Vec<(u32, u64)> {
    log.lock().unwrap().clone()
}

#[test]
fn single_event_fires_at_deadline() {
    let mut timer: Timer<Callback> = Timer::default();
    let event = Arc::new(AtomicBool::new(false));
    let flag = event.clone();
    timer.add(1000, Box::new(move |_now| flag.store(true, Ordering::SeqCst)));

    timer.expire(999);
    assert!(!event.load(Ordering::SeqCst));
    assert_eq!(timer.next(), Some(1000));

    timer.expire(1000);
    assert!(event.load(Ordering::SeqCst));
    assert_eq!(timer.next(), None);
}

#[test]
fn single_event_receives_now() {
    let log = new_log();
    let mut timer: Timer<Callback> = Timer::new();
    timer.add(1000, recorder(&log, 1));
    timer.expire(999);
    assert_eq!(entries(&log), vec![]);
    assert_eq!(timer.next(), Some(1000));
    timer.expire(1000);
    assert_eq!(entries(&log), vec![(1, 1000)]);
    assert_eq!(timer.next(), None);
}

#[test]
fn two_deadlines_fire_in_separate_sweeps() {
    let log = new_log();
    let mut timer: Timer<Callback> = Timer::new();
    timer.add(10, recorder(&log, 1));
    timer.add(20, recorder(&log, 2));
    timer.expire(15);
    assert_eq!(entries(&log), vec![(1, 15)]);
    assert_eq!(timer.next(), Some(20));
    timer.expire(25);
    assert_eq!(entries(&log), vec![(1, 15), (2, 25)]);
    assert_eq!(timer.next(), None);
}

#[test]
fn equal_deadlines_both_fire() {
    for order in [[1u32, 2u32], [2u32, 1u32]] {
        let log = new_log();
        let mut timer: Timer<Callback> = Timer::new();
        for id in order {
            timer.add(5, recorder(&log, id));
        }
        assert_eq!(timer.next(), Some(5));
        timer.expire(5);
        let mut fired = entries(&log);
        fired.sort();
        assert_eq!(fired, vec![(1, 5), (2, 5)]);
        assert_eq!(timer.next(), None);
        timer.expire(5);
        assert_eq!(entries(&log).len(), 2);
    }
}

#[test]
fn empty_store_is_inert() {
    let mut timer: Timer<Callback> = Timer::new();
    assert_eq!(timer.next(), None);
    timer.expire(0);
    timer.expire(12345);
    timer.expire(u64::MAX);
    assert_eq!(timer.next(), None);
}

#[test]
fn event_registered_while_firing_fires_on_later_sweep() {
    // A callback cannot reach the store while a sweep holds it, so the
    // first callback hands the second registration back to its owner.
    let log = new_log();
    let queued: Arc<Mutex<Vec<(u64, Callback)>>> = Arc::new(Mutex::new(Vec::new()));
    let mut timer: Timer<Callback> = Timer::new();
    let second = recorder(&log, 2);
    let log1 = log.clone();
    let queue1 = queued.clone();
    timer.add(
        5,
        Box::new(move |now| {
            log1.lock().unwrap().push((1, now));
            queue1.lock().unwrap().push((5, second));
        }),
    );
    timer.expire(5);
    assert_eq!(entries(&log), vec![(1, 5)]);
    for (deadline, callback) in queued.lock().unwrap().drain(..) {
        timer.add(deadline, callback);
    }
    assert_eq!(timer.next(), Some(5));
    timer.expire(5);
    assert_eq!(entries(&log), vec![(1, 5), (2, 5)]);
    assert_eq!(timer.next(), None);
}

#[test]
fn sweep_past_all_fires_in_deadline_order() {
    let log = new_log();
    let mut timer: Timer<Callback> = Timer::new();
    let deadlines: [u64; 9] = [7, 3, 9, 1, 3, 8, 2, 6, 5];
    for (i, d) in deadlines.iter().enumerate() {
        timer.add(*d, recorder(&log, i as u32));
    }
    assert_eq!(timer.next(), Some(1));
    timer.expire(9);
    let fired = entries(&log);
    assert_eq!(fired.len(), deadlines.len());
    let fired_deadlines: Vec<u64> = fired.iter().map(|(id, _)| deadlines[*id as usize]).collect();
    assert_eq!(fired_deadlines, vec![1, 2, 3, 3, 5, 6, 7, 8, 9]);
    assert!(fired.iter().all(|(_, now)| *now == 9));
    assert_eq!(timer.next(), None);
}

#[test]
fn threshold_holds_back_until_deadline() {
    let log = new_log();
    let mut timer: Timer<Callback> = Timer::new();
    timer.add(50, recorder(&log, 1));
    timer.expire(49);
    assert_eq!(entries(&log), vec![]);
    timer.expire(60);
    assert_eq!(entries(&log), vec![(1, 60)]);
}

#[test]
fn repeated_sweeps_fire_each_event_once() {
    let log = new_log();
    let mut timer: Timer<Callback> = Timer::new();
    timer.add(10, recorder(&log, 1));
    timer.add(30, recorder(&log, 2));
    timer.add(20, recorder(&log, 3));
    for now in [5u64, 10, 10, 15, 25, 25, 40, 100] {
        timer.expire(now);
    }
    assert_eq!(entries(&log), vec![(1, 10), (3, 25), (2, 40)]);
    assert_eq!(timer.next(), None);
}

#[test]
fn next_does_not_change_the_store() {
    let log = new_log();
    let mut timer: Timer<Callback> = Timer::new();
    timer.add(40, recorder(&log, 1));
    timer.add(30, recorder(&log, 2));
    for _ in 0..5 {
        assert_eq!(timer.next(), Some(30));
    }
    assert_eq!(entries(&log), vec![]);
    timer.add(35, recorder(&log, 3));
    assert_eq!(timer.next(), Some(30));
    timer.expire(30);
    assert_eq!(timer.next(), Some(35));
    assert_eq!(timer.next(), Some(35));
    timer.expire(100);
    assert_eq!(entries(&log), vec![(2, 30), (3, 100), (1, 100)]);
}

#[test]
fn past_deadline_fires_on_next_sweep() {
    let log = new_log();
    let mut timer: Timer<Callback> = Timer::new();
    timer.expire(500);
    timer.add(100, recorder(&log, 1));
    assert_eq!(entries(&log), vec![]);
    timer.expire(500);
    assert_eq!(entries(&log), vec![(1, 500)]);
}

#[test]
fn dropping_the_store_discards_pending_callbacks() {
    let fired = Arc::new(AtomicBool::new(false));
    let flag = fired.clone();
    let mut timer: Timer<Callback> = Timer::new();
    timer.add(10, Box::new(move |_now| flag.store(true, Ordering::SeqCst)));
    drop(timer);
    assert!(!fired.load(Ordering::SeqCst));
}

#[test]
fn largest_deadline_fires_at_largest_time() {
    let log = new_log();
    let mut timer: Timer<Callback> = Timer::new();
    timer.add(u64::MAX, recorder(&log, 1));
    timer.add(0, recorder(&log, 2));
    timer.expire(u64::MAX - 1);
    assert_eq!(entries(&log), vec![(2, u64::MAX - 1)]);
    assert_eq!(timer.next(), Some(u64::MAX));
    timer.expire(u64::MAX);
    assert_eq!(entries(&log), vec![(2, u64::MAX - 1), (1, u64::MAX)]);
}

#[test]
fn many_events_come_out_sorted() {
    let log = new_log();
    let mut timer: Timer<Callback> = Timer::new();
    let mut x: u64 = 12345;
    let mut expected: Vec<u64> = Vec::new();
    for i in 0..200u32 {
        x = x.wrapping_mul(6364136223846793005).wrapping_add(1442695040888963407);
        let d = (x >> 33) % 1000;
        expected.push(d);
        timer.add(d, recorder(&log, i));
    }
    expected.sort();
    let mut seen: Vec<u64> = Vec::new();
    while let Some(d) = timer.next() {
        timer.expire(d);
        seen.push(d);
    }
    let fired: Vec<u64> = entries(&log).iter().map(|(_, now)| *now).collect();
    assert_eq!(fired, expected);
    let mut distinct = expected.clone();
    distinct.dedup();
    assert_eq!(seen, distinct);
}
