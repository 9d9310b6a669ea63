//! The scheduler's per-feed timing counters.
//!
//! Instants are milliseconds on a monotonic clock, in `0..=MAX_INSTANT`. A
//! counter's start time is the instant its feed last ran; a counter made for a
//! newly seen feed starts one interval in the past, so the feed is due at once.

use crate::error::Error;
use std::collections::BTreeMap;
use vstd::prelude::*;

verus! {

broadcast use vstd::laws_cmp::group_laws_cmp, vstd::std_specs::btree::group_btree_axioms;

/// The largest instant the scheduler accepts.
pub const MAX_INSTANT: i64 = 0x4000_0000_0000_0000;

/// Milliseconds in a minute.
pub const MS_PER_MINUTE: i64 = 60_000;

/// A feed configuration as the store lists it.
#[derive(Clone, Debug)]
pub struct Feed {
    pub id: i32,
    /// The feed's URL.
    pub feed: String,
    /// The news source that owns the feed.
    pub source_id: i32,
    /// The refresh interval, in minutes.
    pub interval: u32,
}

impl Feed {
    /// A field-by-field copy.
    pub fn copied(&self) -> (r: Feed)
        ensures
            r == *self,
    {
        Feed { id: self.id, feed: self.feed.clone(), source_id: self.source_id, interval: self.interval }
    }
}

/// The timing record of one feed.
#[derive(Clone, Debug)]
pub struct RssCounter {
    pub feed: Feed,
    /// The instant the feed last ran, in milliseconds.
    pub start_time: i64,
}

/// A feed's refresh interval in milliseconds.
pub open spec fn interval_ms(f: Feed) -> int {
    f.interval * MS_PER_MINUTE
}

/// The feed of `c` is due at `now`: a full interval has passed since it last ran.
pub open spec fn is_due(c: RssCounter, now: int) -> bool {
    now - c.start_time >= interval_ms(c.feed)
}

/// The time left at `now` until the feed of `c` is due.
pub open spec fn time_left(c: RssCounter, now: int) -> int {
    interval_ms(c.feed) - (now - c.start_time)
}

/// A start time the scheduler can hold.
pub open spec fn start_in_range(t: int) -> bool {
    -(u32::MAX as int) * MS_PER_MINUTE <= t <= MAX_INSTANT
}

/// The counters after a resync at `now` against the listed feeds: one for each
/// listed id and no other. A counter already held keeps its start time and takes
/// the listed configuration; a new one starts one interval before `now`. Of
/// several listings of one id, the last counts.
pub open spec fn resynced(held: Map<i32, RssCounter>, feeds: Seq<Feed>, now: int) -> Map<
    i32,
    RssCounter,
>
    decreases feeds.len(),
{
    if feeds.len() == 0 {
        Map::empty()
    } else {
        let f = feeds.last();
        let start = if held.contains_key(f.id) {
            held[f.id].start_time as int
        } else {
            now - interval_ms(f)
        };
        resynced(held, feeds.drop_last(), now).insert(
            f.id,
            RssCounter { feed: f, start_time: start as i64 },
        )
    }
}

/// The counters after the feed `id` ran at `now`: its counter restarts at `now`,
/// all others stay.
pub open spec fn ran(held: Map<i32, RssCounter>, id: i32, now: int) -> Map<i32, RssCounter> {
    held.insert(id, RssCounter { feed: held[id].feed, start_time: now as i64 })
}

/// The counters after the feed `id` ran at `now` with the given outcome: any
/// outcome but one that stops the pass counts as a run.
pub open spec fn after_run(
    held: Map<i32, RssCounter>,
    id: i32,
    now: int,
    outcome: Result<usize, Error>,
) -> Map<i32, RssCounter> {
    match outcome {
        Err(e) if e.spec_aborts_pass() => held,
        _ => ran(held, id, now),
    }
}

/// A feed's timing is its own: a run of another feed leaves its counter as it
/// was, and once it has run at `t` it is due at `later` exactly when a full
/// interval of its own has passed since `t`.
pub proof fn law_independent_timing(
    held: Map<i32, RssCounter>,
    a: i32,
    b: i32,
    t: int,
    later: int,
)
    requires
        held.contains_key(a),
        held.contains_key(b),
        a != b,
        0 <= t <= MAX_INSTANT,
    ensures
        ran(held, b, t)[a] == held[a],
        is_due(ran(held, a, t)[a], later) <==> later - t >= interval_ms(held[a].feed),
{
}

/// A resync holds a counter for every listed id, configured by a listing of
/// that id, keeping a held start time and back-dating a new one.
proof fn lemma_resynced_listed(held: Map<i32, RssCounter>, feeds: Seq<Feed>, now: int, k: int)
    requires
        0 <= k < feeds.len(),
    ensures
        resynced(held, feeds, now).contains_key(feeds[k].id),
        exists|j: int|
            0 <= j < feeds.len() && feeds[j].id == feeds[k].id && resynced(held, feeds, now)[feeds[k].id].feed
                == feeds[j],
        held.contains_key(feeds[k].id) ==> resynced(held, feeds, now)[feeds[k].id].start_time
            == held[feeds[k].id].start_time,
        !held.contains_key(feeds[k].id) ==> resynced(held, feeds, now)[feeds[k].id].start_time
            == (now - interval_ms(resynced(held, feeds, now)[feeds[k].id].feed)) as i64,
    decreases feeds.len(),
{
    if k < feeds.len() - 1 && feeds.last().id != feeds[k].id {
        lemma_resynced_listed(held, feeds.drop_last(), now, k);
        let j = choose|j: int|
            0 <= j < feeds.drop_last().len() && feeds.drop_last()[j].id == feeds[k].id
                && resynced(held, feeds.drop_last(), now)[feeds[k].id].feed == feeds.drop_last()[j];
        assert(feeds[j] == feeds.drop_last()[j]);
    } else {
        assert(feeds[feeds.len() - 1].id == feeds[k].id);
    }
}

/// A resync holds counters for the listed ids and no others.
proof fn lemma_resynced_unlisted(held: Map<i32, RssCounter>, feeds: Seq<Feed>, now: int, id: i32)
    requires
        forall|j: int| 0 <= j < feeds.len() ==> feeds[j].id != id,
    ensures
        !resynced(held, feeds, now).contains_key(id),
    decreases feeds.len(),
{
    if feeds.len() > 0 {
        lemma_resynced_unlisted(held, feeds.drop_last(), now, id);
    }
}

/// A newly listed feed is due on the pass of the resync that adds it, and at
/// every instant after it.
pub proof fn law_new_feed_due_at_once(
    held: Map<i32, RssCounter>,
    feeds: Seq<Feed>,
    now: int,
    k: int,
    later: int,
)
    requires
        0 <= k < feeds.len(),
        !held.contains_key(feeds[k].id),
        0 <= now <= later,
        now <= MAX_INSTANT,
    ensures
        resynced(held, feeds, now).contains_key(feeds[k].id),
        is_due(resynced(held, feeds, now)[feeds[k].id], later),
{
    lemma_resynced_listed(held, feeds, now, k);
}

/// A feed that is no longer listed loses its counter at a resync; listed again
/// at a later resync, it gets the counter it would get had it never been seen.
pub proof fn law_removed_then_readded(
    held: Map<i32, RssCounter>,
    without: Seq<Feed>,
    t1: int,
    with: Seq<Feed>,
    t2: int,
    k: int,
)
    requires
        0 <= k < with.len(),
        forall|j: int| 0 <= j < without.len() ==> without[j].id != with[k].id,
        0 <= t1 <= MAX_INSTANT,
        0 <= t2 <= MAX_INSTANT,
    ensures
        !resynced(held, without, t1).contains_key(with[k].id),
        resynced(resynced(held, without, t1), with, t2).contains_key(with[k].id),
        resynced(resynced(held, without, t1), with, t2)[with[k].id] == resynced(
            Map::empty(),
            with,
            t2,
        )[with[k].id],
{
    let id = with[k].id;
    lemma_resynced_unlisted(held, without, t1, id);
    lemma_resynced_same_for_new(resynced(held, without, t1), Map::empty(), with, t2, id);
    lemma_resynced_listed(resynced(held, without, t1), with, t2, k);
}

/// Two resyncs against the same list, from counter sets that both lack `id`,
/// give `id` the same counter.
proof fn lemma_resynced_same_for_new(
    a: Map<i32, RssCounter>,
    b: Map<i32, RssCounter>,
    feeds: Seq<Feed>,
    now: int,
    id: i32,
)
    requires
        !a.contains_key(id),
        !b.contains_key(id),
    ensures
        resynced(a, feeds, now).contains_key(id) == resynced(b, feeds, now).contains_key(id),
        resynced(a, feeds, now).contains_key(id) ==> resynced(a, feeds, now)[id] == resynced(
            b,
            feeds,
            now,
        )[id],
    decreases feeds.len(),
{
    if feeds.len() > 0 {
        lemma_resynced_same_for_new(a, b, feeds.drop_last(), now, id);
    }
}

/// A feed whose document could not be had still counts as having run: its
/// interval restarts at `now`, and every other feed's counter stays as it was.
pub proof fn law_failed_fetch_counts_as_run(
    held: Map<i32, RssCounter>,
    id: i32,
    now: int,
    cause: crate::error::RssError,
)
    requires
        held.contains_key(id),
        0 <= now <= MAX_INSTANT,
    ensures
        ({
            let after = after_run(held, id, now, Err(Error::FeedUnavailable(cause)));
            &&& after.dom() == held.dom()
            &&& after[id].start_time == now
            &&& after[id].feed == held[id].feed
            &&& forall|other: i32| other != id && held.contains_key(other) ==> after[other] == held[other]
        }),
{
    let after = after_run(held, id, now, Err(Error::FeedUnavailable(cause)));
    assert(after.dom() =~= held.dom());
}

/// The per-feed counters of the scheduler, keyed by feed id.
pub struct Scheduler {
    counters: BTreeMap<i32, RssCounter>,
    /// The ids of `counters`, each once.
    ids: Vec<i32>,
    /// No resync has happened yet.
    force_resync: bool,
}

impl Scheduler {
    /// The counters, keyed by feed id.
    pub closed spec fn counters(&self) -> Map<i32, RssCounter> {
        self.counters@
    }

    /// Whether the next pass resyncs whatever the dirty flag says.
    pub closed spec fn forces_resync(&self) -> bool {
        self.force_resync
    }

    /// The ids and the map agree, and every start time is in range.
    pub closed spec fn wf(&self) -> bool {
        &&& self.ids@.no_duplicates()
        &&& self.ids@.to_set() == self.counters@.dom()
        &&& forall|id: i32| #[trigger]
            self.counters@.contains_key(id) ==> start_in_range(
                self.counters@[id].start_time as int,
            )
    }

    /// A scheduler with no counters, which resyncs on its first pass.
    pub fn new() -> (s: Scheduler)
        ensures
            s.wf(),
            s.counters() == Map::<i32, RssCounter>::empty(),
            s.forces_resync(),
    {
        let s = Scheduler { counters: BTreeMap::new(), ids: Vec::new(), force_resync: true };
        assert(s.ids@.to_set() =~= Set::<i32>::empty());
        s
    }

    /// Whether a pass resyncs, given the feeds-modified flag.
    pub fn needs_resync(&self, feeds_modified: bool) -> (r: bool)
        ensures
            r == (feeds_modified || self.forces_resync()),
    {
        feeds_modified || self.force_resync
    }

    /// Reconciles the counters with the listed feeds at `now`: drops the counters
    /// of feeds no longer listed and adds immediately due ones for new feeds.
    pub fn resync(&mut self, feeds: &Vec<Feed>, now: i64)
        requires
            old(self).wf(),
            0 <= now <= MAX_INSTANT,
        ensures
            final(self).wf(),
            final(self).counters() == resynced(old(self).counters(), feeds@, now as int),
            !final(self).forces_resync(),
    {
        let mut counters: BTreeMap<i32, RssCounter> = BTreeMap::new();
        let mut ids: Vec<i32> = Vec::new();
        let mut i: usize = 0;
        assert(feeds@.subrange(0, 0) =~= Seq::<Feed>::empty());
        assert(ids@.to_set() =~= Set::<i32>::empty());
        while i < feeds.len()
            invariant
                i <= feeds@.len(),
                0 <= now <= MAX_INSTANT,
                self.wf(),
                counters@ == resynced(self.counters(), feeds@.subrange(0, i as int), now as int),
                ids@.no_duplicates(),
                ids@.to_set() == counters@.dom(),
                forall|id: i32| #[trigger]
                    counters@.contains_key(id) ==> start_in_range(
                        counters@[id].start_time as int,
                    ),
            decreases feeds.len() - i,
        {
            let f = &feeds[i];
            let start = match self.counters.get(&f.id) {
                Some(c) => c.start_time,
                None => now - (f.interval as i64) * MS_PER_MINUTE,
            };
            let fresh = !counters.contains_key(&f.id);
            let ghost ids_before = ids@;
            counters.insert(f.id, RssCounter { feed: f.copied(), start_time: start });
            if fresh {
                ids.push(f.id);
                proof {
                    assert(ids@ =~= ids_before.push(f.id));
                    ids_before.lemma_push_to_set_commute(f.id);
                }
            }
            proof {
                let next = feeds@.subrange(0, i + 1);
                assert(next.drop_last() =~= feeds@.subrange(0, i as int));
                assert(next.last() == *f);
                assert(counters@.dom() =~= ids@.to_set());
            }
            i = i + 1;
        }
        assert(feeds@.subrange(0, feeds@.len() as int) =~= feeds@);
        self.counters = counters;
        self.ids = ids;
        self.force_resync = false;
    }

    /// The ids of the feeds due at `now`, each once.
    pub fn due_feeds(&self, now: i64) -> (r: Vec<i32>)
        requires
            self.wf(),
            0 <= now <= MAX_INSTANT,
        ensures
            r@.no_duplicates(),
            forall|id: i32|
                r@.contains(id) <==> (self.counters().contains_key(id) && is_due(
                    self.counters()[id],
                    now as int,
                )),
    {
        let mut due: Vec<i32> = Vec::new();
        let mut i: usize = 0;
        while i < self.ids.len()
            invariant
                self.wf(),
                0 <= now <= MAX_INSTANT,
                i <= self.ids@.len(),
                due@.no_duplicates(),
                forall|id: i32|
                    due@.contains(id) <==> (exists|k: int|
                        0 <= k < i && self.ids@[k] == id && is_due(
                            self.counters@[id],
                            now as int,
                        )),
            decreases self.ids.len() - i,
        {
            let id = self.ids[i];
            proof {
                assert(self.ids@.to_set().contains(id));
            }
            let c = self.counters.get(&id).unwrap();
            let elapsed = now - c.start_time;
            let ghost due_before = due@;
            if elapsed >= (c.feed.interval as i64) * MS_PER_MINUTE {
                proof {
                    assert forall|k: int| 0 <= k < i implies self.ids@[k] != id by {
                        assert(self.ids@[k] != self.ids@[i as int]);
                    }
                    assert(!due_before.contains(id));
                }
                due.push(id);
                proof {
                    assert(due@ =~= due_before.push(id));
                    assert forall|x: i32|
                        due@.contains(x) <==> (exists|k: int|
                            0 <= k < i + 1 && self.ids@[k] == x && is_due(
                                self.counters@[x],
                                now as int,
                            )) by {
                        if due@.contains(x) && x != id {
                            let j = choose|j: int| 0 <= j < due@.len() && due@[j] == x;
                            assert(due_before[j] == x);
                        }
                        if due_before.contains(x) {
                            let j = choose|j: int| 0 <= j < due_before.len() && due_before[j] == x;
                            assert(due@[j] == x);
                        }
                        if x == id {
                            assert(due@[due_before.len() as int] == x);
                        }
                    }
                }
            } else {
                proof {
                    assert forall|x: i32|
                        due@.contains(x) <==> (exists|k: int|
                            0 <= k < i + 1 && self.ids@[k] == x && is_due(
                                self.counters@[x],
                                now as int,
                            )) by {
                        if exists|k: int|
                            0 <= k < i + 1 && self.ids@[k] == x && is_due(
                                self.counters@[x],
                                now as int,
                            ) {
                            let k = choose|k: int|
                                0 <= k < i + 1 && self.ids@[k] == x && is_due(
                                    self.counters@[x],
                                    now as int,
                                );
                            assert(k != i);
                        }
                    }
                }
            }
            i = i + 1;
        }
        proof {
            assert forall|id: i32|
                (self.counters().contains_key(id) && is_due(self.counters()[id], now as int))
                    implies due@.contains(id) by {
                assert(self.ids@.to_set().contains(id));
                let k = choose|k: int| 0 <= k < self.ids@.len() && self.ids@[k] == id;
            }
        }
        due
    }

    /// The least time left until a feed that is not due at `now` becomes due, or
    /// `None` when every held feed is due (or none is held).
    pub fn next_run_in(&self, now: i64) -> (r: Option<i64>)
        requires
            self.wf(),
            0 <= now <= MAX_INSTANT,
        ensures
            match r {
                None => forall|id: i32| #[trigger]
                    self.counters().contains_key(id) ==> is_due(self.counters()[id], now as int),
                Some(t) => {
                    &&& exists|id: i32|
                        self.counters().contains_key(id) && !is_due(self.counters()[id], now as int)
                            && time_left(self.counters()[id], now as int) == t
                    &&& forall|id: i32|
                        self.counters().contains_key(id) && !is_due(self.counters()[id], now as int)
                            ==> t <= time_left(self.counters()[id], now as int)
                },
            },
    {
        let mut best: Option<i64> = None;
        let mut i: usize = 0;
        while i < self.ids.len()
            invariant
                self.wf(),
                0 <= now <= MAX_INSTANT,
                i <= self.ids@.len(),
                match best {
                    None => forall|k: int|
                        0 <= k < i ==> is_due(self.counters@[self.ids@[k]], now as int),
                    Some(t) => {
                        &&& exists|k: int|
                            0 <= k < i && !is_due(self.counters@[self.ids@[k]], now as int)
                                && time_left(self.counters@[self.ids@[k]], now as int) == t
                        &&& forall|k: int|
                            0 <= k < i && !is_due(self.counters@[self.ids@[k]], now as int)
                                ==> t <= time_left(self.counters@[self.ids@[k]], now as int)
                    },
                },
            decreases self.ids.len() - i,
        {
            let id = self.ids[i];
            proof {
                assert(self.ids@.to_set().contains(id));
            }
            let c = self.counters.get(&id).unwrap();
            let interval = (c.feed.interval as i64) * MS_PER_MINUTE;
            let elapsed = now - c.start_time;
            if elapsed < interval {
                let left = interval - elapsed;
                best = match best {
                    Some(t) => if left < t {
                        Some(left)
                    } else {
                        Some(t)
                    },
                    None => Some(left),
                };
            }
            i = i + 1;
        }
        proof {
            match best {
                None => {
                    assert forall|id: i32| #[trigger]
                        self.counters().contains_key(id) implies is_due(
                        self.counters()[id],
                        now as int,
                    ) by {
                        assert(self.ids@.to_set().contains(id));
                        let k = choose|k: int| 0 <= k < self.ids@.len() && self.ids@[k] == id;
                    }
                },
                Some(t) => {
                    let k = choose|k: int|
                        0 <= k < i && !is_due(self.counters@[self.ids@[k]], now as int)
                            && time_left(self.counters@[self.ids@[k]], now as int) == t;
                    assert(self.ids@.to_set().contains(self.ids@[k]));
                    let w = self.ids@[k];
                    assert(self.counters().contains_key(w) && !is_due(self.counters()[w], now as int)
                        && time_left(self.counters()[w], now as int) == t);
                    assert forall|id: i32|
                        self.counters().contains_key(id) && !is_due(self.counters()[id], now as int)
                            implies t <= time_left(self.counters()[id], now as int) by {
                        assert(self.ids@.to_set().contains(id));
                        let j = choose|j: int| 0 <= j < self.ids@.len() && self.ids@[j] == id;
                    }
                },
            }
        }
        best
    }

    /// The configuration of the feed `id`, if a counter is held for it.
    pub fn feed_of(&self, id: i32) -> (r: Option<Feed>)
        ensures
            match r {
                Some(f) => self.counters().contains_key(id) && f == self.counters()[id].feed,
                None => !self.counters().contains_key(id),
            },
    {
        match self.counters.get(&id) {
            Some(c) => Some(c.feed.copied()),
            None => None,
        }
    }

    /// Records the outcome of the run of feed `id`, which finished at `now`, and
    /// tells whether the pass goes on. A feed that ran, or whose document could
    /// not be had, restarts its interval at `now`; any other error leaves every
    /// counter as it was and stops the pass.
    pub fn record_run(&mut self, id: i32, now: i64, outcome: &Result<usize, Error>) -> (go_on: bool)
        requires
            old(self).wf(),
            old(self).counters().contains_key(id),
            0 <= now <= MAX_INSTANT,
        ensures
            final(self).wf(),
            final(self).counters() == after_run(old(self).counters(), id, now as int, *outcome),
            final(self).forces_resync() == old(self).forces_resync(),
            go_on == !(outcome matches Err(e) && e.spec_aborts_pass()),
    {
        let stop = match outcome {
            Ok(_) => false,
            Err(e) => e.aborts_pass(),
        };
        if stop {
            return false;
        }
        let feed = self.counters.get(&id).unwrap().feed.copied();
        self.counters.insert(id, RssCounter { feed, start_time: now });
        proof {
            assert(self.counters@.dom() =~= old(self).counters@.dom());
        }
        true
    }

    /// The instant the feed `id` last ran, if a counter is held for it.
    pub fn start_time_of(&self, id: i32) -> (r: Option<i64>)
        ensures
            match r {
                Some(t) => self.counters().contains_key(id) && t == self.counters()[id].start_time,
                None => !self.counters().contains_key(id),
            },
    {
        match self.counters.get(&id) {
            Some(c) => Some(c.start_time),
            None => None,
        }
    }

    /// The number of counters held.
    pub fn len(&self) -> (r: usize)
        requires
            self.wf(),
        ensures
            r == self.counters().dom().len(),
    {
        proof {
            self.ids@.unique_seq_to_set();
        }
        self.ids.len()
    }

    /// Whether a storage failure now ends the scheduler: only before the first resync.
    pub fn storage_failure_is_fatal(&self) -> (r: bool)
        ensures
            r == self.forces_resync(),
    {
        self.force_resync
    }
}

} // verus!
