use ultreth::blocks::{run_block_watcher, BlockCycle, BlockWatcher};
use ultreth::dedup::DedupWindow;
use ultreth::fanout::FanoutQueue;
use ultreth::mempool::{cycle_candidates, MempoolPoller};
use ultreth::rate::{ConfigError, RateLimiter};
use ultreth::TxId;

fn id(n: u128) -> TxId {
    TxId { hi: 0, lo: n }
}

#[test]
fn dedup_first_seen_then_suppressed() {
    let mut w = DedupWindow::new(100);
    assert!(w.see(id(1)));
    assert!(!w.see(id(1)));
    assert!(!w.see(id(1)));
    assert!(w.see(id(2)));
    assert!(!w.see(id(2)));
    assert!(!w.see(id(1)));
    assert_eq!(w.len(), 2);
}

#[test]
fn dedup_never_reports_a_new_id_as_seen() {
    let mut w = DedupWindow::new(4);
    for n in 0..50u128 {
        assert!(w.see(id(n)), "fresh id {} must be reported new", n);
    }
}

#[test]
fn dedup_compaction_evicts_oldest_half() {
    // Ceiling 4: the fifth id pushes the size to 5, and the oldest two
    // (floor of half of five) are evicted in insertion order.
    let mut w = DedupWindow::new(4);
    for n in 1..=4u128 {
        assert!(w.see(id(n)));
    }
    assert_eq!(w.len(), 4);
    assert!(w.see(id(5)));
    assert_eq!(w.len(), 3);
    assert!(!w.contains(id(1)));
    assert!(!w.contains(id(2)));
    assert!(w.contains(id(3)));
    assert!(w.contains(id(4)));
    assert!(w.contains(id(5)));
    // Evicted ids may be reported new again; that is the benign direction.
    assert!(w.see(id(1)));
}

#[test]
fn rate_limiter_rejects_zero_rate() {
    assert!(matches!(RateLimiter::new(0), Err(ConfigError::ZeroRate)));
}

#[test]
fn rate_limiter_interval_is_thousand_over_rate() {
    let l = RateLimiter::new(30).unwrap();
    assert_eq!(l.interval_ms(), 33);
    let l = RateLimiter::new(1).unwrap();
    assert_eq!(l.interval_ms(), 1000);
}

#[test]
fn rate_limiter_pacing_covers_the_interval() {
    let l = RateLimiter::new(10).unwrap();
    assert_eq!(l.interval_ms(), 100);
    assert_eq!(l.remaining_wait(0), 100);
    assert_eq!(l.remaining_wait(40), 60);
    assert_eq!(l.remaining_wait(100), 0);
    assert_eq!(l.remaining_wait(250), 0);
    for elapsed in [0u64, 1, 40, 99, 100, 101, 250] {
        assert!(elapsed + l.remaining_wait(elapsed) >= 100);
    }
}

#[test]
fn block_watcher_emits_strictly_increasing_heights() {
    let mut w = BlockWatcher::new();
    let cycles = vec![
        BlockCycle { height_reply: Some(10), block_found: true },
        BlockCycle { height_reply: Some(10), block_found: true },
        BlockCycle { height_reply: Some(9), block_found: true },
        BlockCycle { height_reply: None, block_found: true },
        BlockCycle { height_reply: Some(11), block_found: true },
        BlockCycle { height_reply: Some(12), block_found: false },
        BlockCycle { height_reply: Some(12), block_found: true },
    ];
    let emitted = run_block_watcher(&mut w, &cycles);
    assert_eq!(emitted, vec![10, 11, 12]);
    assert_eq!(w.last_height(), Some(12));
}

#[test]
fn block_watcher_first_reply_is_fetched() {
    let mut w = BlockWatcher::new();
    assert_eq!(w.last_height(), None);
    assert!(w.wants_fetch(0));
    assert!(w.record_fetch(0, true));
    assert_eq!(w.last_height(), Some(0));
    assert!(!w.wants_fetch(0));
}

#[test]
fn block_watcher_missing_block_keeps_state() {
    let mut w = BlockWatcher::new();
    assert!(w.wants_fetch(5));
    assert!(!w.record_fetch(5, false));
    assert_eq!(w.last_height(), None);
    assert!(w.wants_fetch(5));
}

#[test]
fn mempool_candidates_prefer_primary() {
    let primary = vec![id(1), id(2)];
    let fallback = vec![id(3)];
    let c = cycle_candidates(Some(primary.clone()), Some(fallback));
    assert_eq!(c, primary);
}

#[test]
fn mempool_fallback_when_primary_fails() {
    let fallback = vec![id(3), id(4)];
    let c = cycle_candidates(None, Some(fallback.clone()));
    assert_eq!(c, fallback);
    assert_eq!(cycle_candidates(None, None), Vec::<TxId>::new());
}

#[test]
fn mempool_cycle_emits_each_new_id_once() {
    let mut p = MempoolPoller::new(100);
    // The primary query failed every cycle; candidates come from the
    // pending-block fallback, and each transaction still goes out once.
    let candidates = cycle_candidates(None, Some(vec![id(1), id(2), id(1), id(3)]));
    let retrieved = vec![true, true, true, true];
    let emitted = p.run_cycle(&candidates, &retrieved);
    assert_eq!(emitted, vec![id(1), id(2), id(3)]);
    // A second cycle over the same fallback emits nothing.
    let again = p.run_cycle(&candidates, &retrieved);
    assert_eq!(again, Vec::<TxId>::new());
}

#[test]
fn mempool_failed_fetch_skips_only_that_item() {
    let mut p = MempoolPoller::new(100);
    let candidates = vec![id(1), id(2), id(3)];
    let retrieved = vec![true, false, true];
    let emitted = p.run_cycle(&candidates, &retrieved);
    assert_eq!(emitted, vec![id(1), id(3)]);
    // The failed fetch left its id unseen, so a later cycle retries it.
    assert!(p.should_fetch(id(2)));
    assert!(!p.should_fetch(id(1)));
    let emitted = p.run_cycle(&vec![id(2)], &vec![true]);
    assert_eq!(emitted, vec![id(2)]);
}

#[test]
fn fanout_delivers_in_order_until_full() {
    let mut q: FanoutQueue<u64> = FanoutQueue::new(2);
    assert!(q.emit(10));
    assert!(q.emit(20));
    assert_eq!(q.len(), 2);
    assert_eq!(q.dropped_count(), 0);
    assert_eq!(q.drain(), vec![10, 20]);
    assert_eq!(q.len(), 0);
}

#[test]
fn fanout_full_queue_drops_and_counts() {
    let mut q: FanoutQueue<u64> = FanoutQueue::new(2);
    assert!(q.emit(1));
    assert!(q.emit(2));
    // The queue is full: one more emission returns at once, undelivered.
    assert!(!q.emit(3));
    assert_eq!(q.dropped_count(), 1);
    assert_eq!(q.len(), 2);
    assert!(!q.emit(4));
    assert_eq!(q.dropped_count(), 2);
    // The producer goes on; draining frees room again.
    assert_eq!(q.drain(), vec![1, 2]);
    assert!(q.emit(5));
    assert_eq!(q.drain(), vec![5]);
    assert_eq!(q.dropped_count(), 2);
}
