use rss_scraper::clock::TickClock;
use rss_scraper::counter::{Feed, Scheduler};
use rss_scraper::error::{Error, RssError};

const MINUTE: i64 = 60_000;

fn feed(id: i32, interval: u32) -> Feed {
    Feed { id, feed: format!("https://feeds/{id}"), source_id: 1, interval }
}

/// Runs one scheduling pass at `now` in which every due feed succeeds; returns the ids that ran.
fn pass(s: &mut Scheduler, now: i64) -> Vec<i32> {
    let due = s.due_feeds(now);
    for id in &due {
        assert!(s.record_run(*id, now, &Ok(0)));
    }
    due
}

#[test]
fn first_pass_forces_resync() {
    let s = Scheduler::new();
    assert!(s.needs_resync(false));
    assert!(s.needs_resync(true));
}

#[test]
fn resync_clears_forced_resync() {
    let mut s = Scheduler::new();
    s.resync(&vec![feed(1, 5)], 0);
    assert!(!s.needs_resync(false));
    assert!(s.needs_resync(true));
}

#[test]
fn new_feed_is_due_on_next_pass() {
    let mut s = Scheduler::new();
    s.resync(&vec![feed(1, 30)], 1_000);
    assert_eq!(s.due_feeds(1_000), vec![1]);
    assert_eq!(s.start_time_of(1), Some(1_000 - 30 * MINUTE));
}

#[test]
fn feeds_keep_independent_cadences() {
    let mut s = Scheduler::new();
    s.resync(&vec![feed(1, 1), feed(2, 3)], 0);
    let mut runs_a = 0;
    let mut runs_b = 0;
    let mut t: i64 = 0;
    while t < 6 * MINUTE {
        for id in pass(&mut s, t) {
            if id == 1 {
                runs_a += 1;
            } else {
                runs_b += 1;
            }
        }
        t += 1_000;
    }
    assert_eq!(runs_a, 6);
    assert_eq!(runs_b, 2);
}

#[test]
fn feed_not_due_before_its_interval() {
    let mut s = Scheduler::new();
    s.resync(&vec![feed(1, 2)], 0);
    assert_eq!(pass(&mut s, 0), vec![1]);
    assert!(s.due_feeds(2 * MINUTE - 1).is_empty());
    assert_eq!(s.next_run_in(2 * MINUTE - 1), Some(1));
    assert_eq!(s.due_feeds(2 * MINUTE), vec![1]);
}

#[test]
fn removed_feed_loses_counter_and_readded_feed_starts_fresh() {
    let mut s = Scheduler::new();
    s.resync(&vec![feed(1, 10), feed(2, 10)], 0);
    pass(&mut s, 0);
    s.resync(&vec![feed(2, 10)], 5 * MINUTE);
    assert_eq!(s.start_time_of(1), None);
    assert_eq!(s.len(), 1);
    s.resync(&vec![feed(1, 10), feed(2, 10)], 7 * MINUTE);
    assert_eq!(s.start_time_of(1), Some(7 * MINUTE - 10 * MINUTE));
    assert_eq!(s.start_time_of(2), Some(0));
    assert_eq!(s.due_feeds(7 * MINUTE), vec![1]);
}

#[test]
fn resync_takes_new_interval_and_keeps_start() {
    let mut s = Scheduler::new();
    s.resync(&vec![feed(1, 10)], 0);
    pass(&mut s, 0);
    s.resync(&vec![feed(1, 2)], MINUTE);
    assert_eq!(s.start_time_of(1), Some(0));
    assert_eq!(s.feed_of(1).unwrap().interval, 2);
    assert_eq!(s.due_feeds(2 * MINUTE), vec![1]);
}

#[test]
fn failed_fetch_counts_as_run_and_leaves_others() {
    let mut s = Scheduler::new();
    s.resync(&vec![feed(1, 5), feed(2, 5)], 0);
    let before_other = s.start_time_of(2);
    let outcome = Err(Error::FeedUnavailable(RssError::Reqwest("connection refused".to_string())));
    assert!(s.record_run(1, 3_000, &outcome));
    assert_eq!(s.start_time_of(1), Some(3_000));
    assert_eq!(s.start_time_of(2), before_other);
    assert_eq!(s.due_feeds(3_000), vec![2]);
}

#[test]
fn storage_error_stops_pass_and_keeps_counters() {
    let mut s = Scheduler::new();
    s.resync(&vec![feed(1, 5)], 0);
    let before = s.start_time_of(1);
    assert!(!s.record_run(1, 3_000, &Err(Error::Storage("down".to_string()))));
    assert_eq!(s.start_time_of(1), before);
}

#[test]
fn storage_failure_fatal_only_before_first_resync() {
    let mut s = Scheduler::new();
    assert!(s.storage_failure_is_fatal());
    s.resync(&Vec::new(), 0);
    assert!(!s.storage_failure_is_fatal());
}

#[test]
fn next_run_is_none_without_counters() {
    let mut s = Scheduler::new();
    s.resync(&Vec::new(), 0);
    assert_eq!(s.next_run_in(0), None);
    assert!(s.due_feeds(0).is_empty());
}

#[test]
fn next_run_takes_least_time_left() {
    let mut s = Scheduler::new();
    s.resync(&vec![feed(1, 5), feed(2, 3)], 0);
    pass(&mut s, 0);
    assert_eq!(s.next_run_in(MINUTE), Some(2 * MINUTE));
}

#[test]
fn error_kinds_abort_pass() {
    assert!(!Error::FeedUnavailable(RssError::ParseFeed("bad".to_string())).aborts_pass());
    assert!(Error::Storage("x".to_string()).aborts_pass());
    assert!(Error::ConfigurationMissing("x".to_string()).aborts_pass());
}

#[test]
fn clock_owes_one_pass_per_whole_tick() {
    let mut c = TickClock::new(4_000, 0);
    c.advance(3_000);
    assert!(!c.take_tick());
    c.advance(9_500);
    assert!(c.take_tick());
    assert!(c.take_tick());
    assert!(!c.take_tick());
    c.advance(12_000);
    assert!(c.take_tick());
    assert!(!c.take_tick());
}

#[test]
fn clock_ignores_backward_readings() {
    let mut c = TickClock::new(1_000, 5_000);
    c.advance(4_000);
    assert!(!c.take_tick());
    c.advance(6_000);
    assert!(c.take_tick());
}
