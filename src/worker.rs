use vstd::prelude::*;

use crate::bar::PlotterOpt;
use crate::history::{appended, keep_last, lemma_count_keeps_latest, replay, Eviction, History, Record, offset};

verus! {

/// The least time between two frames, in milliseconds.
pub const FRAME_INTERVAL_MS: u64 = 40;

/// Milliseconds in a second.
pub const MS_PER_SECOND: u64 = 1000;

/// A sample on its way to the worker, with the series it belongs to.
#[derive(Clone, Copy, Debug, PartialEq, Eq, Structural)]
pub struct HistoryRecord {
    pub history_id: u64,
    pub record: Record,
}

/// The series of a registry, in the order in which they were created: each
/// with its id and its samples.
pub type Registry = Seq<(u64, Seq<Record>)>;

/// No two series of `s` share an id.
pub open spec fn unique_ids(s: Registry) -> bool {
    forall|i: int, j: int| 0 <= i < s.len() && 0 <= j < s.len() && i != j ==> s[i].0 != s[j].0
}

pub open spec fn has_series(s: Registry, id: u64) -> bool {
    exists|i: int| 0 <= i < s.len() && s[i].0 == id
}

/// Where the series `id` stands in `s`, where it is there.
pub open spec fn series_index(s: Registry, id: u64) -> int {
    choose|i: int| 0 <= i < s.len() && s[i].0 == id
}

/// The samples of series `id` in `s`; none where it is not there.
pub open spec fn lookup(s: Registry, id: u64) -> Seq<Record> {
    if has_series(s, id) {
        s[series_index(s, id)].1
    } else {
        Seq::empty()
    }
}

/// `s` after the sample `r` of series `id` arrives at `now` under `p`: the
/// series gets `r` appended, and is created at the end where it is new.
pub open spec fn apply_sample(s: Registry, id: u64, r: Record, now: u64, p: Eviction) -> Registry {
    if has_series(s, id) {
        s.update(series_index(s, id), (id, appended(s[series_index(s, id)].1, r, now, p)))
    } else {
        s.push((id, appended(Seq::empty(), r, now, p)))
    }
}

/// `s` after each of `events` arrives in turn at `now` under `p`.
pub open spec fn feed(s: Registry, events: Seq<HistoryRecord>, now: u64, p: Eviction) -> Registry
    decreases events.len(),
{
    if events.len() == 0 {
        s
    } else {
        apply_sample(
            feed(s, events.drop_last(), now, p),
            events.last().history_id,
            events.last().record,
            now,
            p,
        )
    }
}

/// The samples among `events` that belong to series `id`, in their order.
pub open spec fn samples_of(events: Seq<HistoryRecord>, id: u64) -> Seq<Record>
    decreases events.len(),
{
    if events.len() == 0 {
        Seq::empty()
    } else if events.last().history_id == id {
        samples_of(events.drop_last(), id).push(events.last().record)
    } else {
        samples_of(events.drop_last(), id)
    }
}

pub open spec fn saturating_add(a: u64, b: u64) -> u64 {
    if a + b > u64::MAX {
        u64::MAX
    } else {
        (a + b) as u64
    }
}

/// A window of `width` seconds in milliseconds, held to what a `u64` holds.
pub open spec fn window_ms(width: usize) -> u64 {
    if width * MS_PER_SECOND > u64::MAX {
        u64::MAX
    } else {
        (width * MS_PER_SECOND) as u64
    }
}

proof fn lemma_index_of(s: Registry, id: u64, i: int)
    requires
        unique_ids(s),
        0 <= i < s.len(),
        s[i].0 == id,
    ensures
        has_series(s, id),
        series_index(s, id) == i,
{
    assert(has_series(s, id));
}

proof fn lemma_apply_sample(s: Registry, id: u64, r: Record, now: u64, p: Eviction, other: u64)
    requires
        unique_ids(s),
    ensures
        unique_ids(apply_sample(s, id, r, now, p)),
        lookup(apply_sample(s, id, r, now, p), other) == if other == id {
            appended(lookup(s, id), r, now, p)
        } else {
            lookup(s, other)
        },
{
    let t = apply_sample(s, id, r, now, p);
    if has_series(s, id) {
        let i = series_index(s, id);
        assert(unique_ids(t));
        lemma_index_of(t, id, i);
        if other != id && has_series(s, other) {
            let j = series_index(s, other);
            lemma_index_of(t, other, j);
        }
        if other != id && has_series(t, other) {
            let j = series_index(t, other);
            assert(s[j].0 == other);
        }
    } else {
        assert(unique_ids(t));
        lemma_index_of(t, id, s.len() as int);
        if other != id && has_series(s, other) {
            let j = series_index(s, other);
            lemma_index_of(t, other, j);
        }
        if other != id && has_series(t, other) {
            let j = series_index(t, other);
            assert(s[j].0 == other);
        }
    }
}

/// Whatever the order in which the samples of different series arrive, each
/// series ends up with what its own samples, appended in their order, give.
pub proof fn lemma_series_independent(events: Seq<HistoryRecord>, now: u64, p: Eviction, id: u64)
    ensures
        unique_ids(feed(Seq::empty(), events, now, p)),
        lookup(feed(Seq::empty(), events, now, p), id) == replay(
            Seq::empty(),
            samples_of(events, id),
            now,
            p,
        ),
    decreases events.len(),
{
    if events.len() > 0 {
        let prev = events.drop_last();
        let e = events.last();
        lemma_series_independent(prev, now, p, id);
        lemma_series_independent(prev, now, p, e.history_id);
        lemma_apply_sample(feed(Seq::empty(), prev, now, p), e.history_id, e.record, now, p, id);
        if e.history_id == id {
            assert(samples_of(events, id).drop_last() =~= samples_of(prev, id));
        }
    }
}

/// Under count eviction with capacity `c`, however the samples of different
/// series interleave, each series holds the newest `c` of its own samples:
/// all of them where it sent no more than `c`.
pub proof fn lemma_count_per_series(events: Seq<HistoryRecord>, now: u64, c: usize, id: u64)
    ensures
        lookup(feed(Seq::empty(), events, now, Eviction::Count(c)), id) == keep_last(
            samples_of(events, id),
            c as nat,
        ),
        samples_of(events, id).len() <= c ==> lookup(
            feed(Seq::empty(), events, now, Eviction::Count(c)),
            id,
        ).len() == samples_of(events, id).len(),
{
    lemma_series_independent(events, now, Eviction::Count(c), id);
    lemma_count_keeps_latest(Seq::empty(), samples_of(events, id), now, c);
    assert(Seq::<Record>::empty() + samples_of(events, id) =~= samples_of(events, id));
}

/// One series of the worker: its id and its samples.
pub struct Series {
    id: u64,
    history: History,
}

pub open spec fn registry_of(v: Seq<Series>) -> Registry {
    Seq::new(v.len(), |i: int| (v[i].spec_id(), v[i].history_view()))
}

impl Series {
    pub closed spec fn spec_id(&self) -> u64 {
        self.id
    }

    pub closed spec fn history_view(&self) -> Seq<Record> {
        self.history@
    }
}

/// The owner of every series' history: it takes the samples of all
/// connections one at a time and decides when a new frame is drawn.
pub struct Worker {
    opt: PlotterOpt,
    policy: Eviction,
    frame_interval: u64,
    histories: Vec<Series>,
    next_draw_time: u64,
}

impl Worker {
    /// The series, in the order in which they were created.
    pub closed spec fn series(&self) -> Registry {
        registry_of(self.histories@)
    }

    pub closed spec fn spec_opt(&self) -> PlotterOpt {
        self.opt
    }

    pub closed spec fn spec_policy(&self) -> Eviction {
        self.policy
    }

    pub closed spec fn spec_frame_interval(&self) -> u64 {
        self.frame_interval
    }

    /// The earliest time at which the next frame is drawn.
    pub closed spec fn spec_next_draw_time(&self) -> u64 {
        self.next_draw_time
    }

    pub open spec fn wf(&self) -> bool {
        unique_ids(self.series())
    }

    /// A worker with no series that evicts by `policy`, draws at most one
    /// frame per `frame_interval` milliseconds, and may draw at once.
    pub fn with_settings(opt: PlotterOpt, policy: Eviction, frame_interval: u64, now: u64) -> (r: Worker)
        ensures
            r.wf(),
            r.series() == Seq::<(u64, Seq<Record>)>::empty(),
            r.spec_opt() == opt,
            r.spec_policy() == policy,
            r.spec_frame_interval() == frame_interval,
            r.spec_next_draw_time() == now,
    {
        let r = Worker { opt, policy, frame_interval, histories: Vec::new(), next_draw_time: now };
        assert(r.series() =~= Seq::<(u64, Seq<Record>)>::empty());
        r
    }

    /// A worker for a chart `opt.width` seconds wide: samples older than
    /// that are evicted, and frames are drawn at most every
    /// `FRAME_INTERVAL_MS`.
    pub fn new(opt: PlotterOpt, now: u64) -> (r: Worker)
        ensures
            r.wf(),
            r.series() == Seq::<(u64, Seq<Record>)>::empty(),
            r.spec_opt() == opt,
            r.spec_policy() == Eviction::Age(window_ms(opt.width)),
            r.spec_frame_interval() == FRAME_INTERVAL_MS,
            r.spec_next_draw_time() == now,
    {
        let w: u64 = opt.width as u64;
        let max_age: u64 = if w > u64::MAX / MS_PER_SECOND {
            u64::MAX
        } else {
            w * MS_PER_SECOND
        };
        Worker::with_settings(opt, Eviction::Age(max_age), FRAME_INTERVAL_MS, now)
    }

    /// Files `hr` under its series at `now`: the series gets the sample
    /// appended under the worker's eviction rule, and is created after all
    /// others where it is new.
    pub fn update_history(&mut self, hr: HistoryRecord, now: u64)
        requires
            old(self).wf(),
        ensures
            final(self).wf(),
            final(self).series() == apply_sample(
                old(self).series(),
                hr.history_id,
                hr.record,
                now,
                old(self).spec_policy(),
            ),
            final(self).spec_opt() == old(self).spec_opt(),
            final(self).spec_policy() == old(self).spec_policy(),
            final(self).spec_frame_interval() == old(self).spec_frame_interval(),
            final(self).spec_next_draw_time() == old(self).spec_next_draw_time(),
    {
        let ghost s = self.series();
        let id = hr.history_id;
        let n = self.histories.len();
        let mut i: usize = 0;
        while i < n && self.histories[i].id != id
            invariant
                i <= n,
                n == self.histories@.len(),
                s == self.series(),
                forall|j: int| 0 <= j < i ==> s[j].0 != id,
            decreases n - i,
        {
            i = i + 1;
        }
        if i < n {
            proof {
                lemma_index_of(s, id, i as int);
            }
            let policy = self.policy;
            self.histories[i].history.append(hr.record, now, policy);
            assert(self.series() =~= apply_sample(s, id, hr.record, now, policy));
        } else {
            let mut history = History::new();
            history.append(hr.record, now, self.policy);
            self.histories.push(Series { id, history });
            assert(self.series() =~= apply_sample(s, id, hr.record, now, self.policy));
        }
        proof {
            lemma_apply_sample(s, id, hr.record, now, self.policy, id);
        }
    }

    /// Tells whether a frame is due at `now`; when it is, the next one is due
    /// a frame interval later.
    pub fn poll(&mut self, now: u64) -> (r: bool)
        ensures
            r == (now >= old(self).spec_next_draw_time()),
            final(self).spec_next_draw_time() == if r {
                saturating_add(now, old(self).spec_frame_interval())
            } else {
                old(self).spec_next_draw_time()
            },
            final(self).series() == old(self).series(),
            final(self).spec_opt() == old(self).spec_opt(),
            final(self).spec_policy() == old(self).spec_policy(),
            final(self).spec_frame_interval() == old(self).spec_frame_interval(),
    {
        if now >= self.next_draw_time {
            self.next_draw_time = now.saturating_add(self.frame_interval);
            true
        } else {
            false
        }
    }

    /// Takes one sample: files it, then tells whether a frame is due.
    pub fn step(&mut self, hr: HistoryRecord, now: u64) -> (r: bool)
        requires
            old(self).wf(),
        ensures
            final(self).wf(),
            final(self).series() == apply_sample(
                old(self).series(),
                hr.history_id,
                hr.record,
                now,
                old(self).spec_policy(),
            ),
            r == (now >= old(self).spec_next_draw_time()),
            final(self).spec_next_draw_time() == if r {
                saturating_add(now, old(self).spec_frame_interval())
            } else {
                old(self).spec_next_draw_time()
            },
            final(self).spec_opt() == old(self).spec_opt(),
            final(self).spec_policy() == old(self).spec_policy(),
            final(self).spec_frame_interval() == old(self).spec_frame_interval(),
    {
        self.update_history(hr, now);
        self.poll(now)
    }

    pub fn opt(&self) -> (r: PlotterOpt)
        ensures
            r == self.spec_opt(),
    {
        self.opt
    }

    pub fn policy(&self) -> (r: Eviction)
        ensures
            r == self.spec_policy(),
    {
        self.policy
    }

    /// How many series there are.
    pub fn series_count(&self) -> (r: usize)
        ensures
            r == self.series().len(),
    {
        self.histories.len()
    }

    /// The id of the `k`-th series, in the order of creation.
    pub fn series_id(&self, k: usize) -> (r: u64)
        requires
            k < self.series().len(),
        ensures
            r == self.series()[k as int].0,
    {
        self.histories[k].id
    }

    /// The samples of the `k`-th series as points of a chart at `now`.
    pub fn series_points(&self, k: usize, now: u64) -> (r: Vec<(i64, i64)>)
        requires
            k < self.series().len(),
        ensures
            r@.len() == self.series()[k as int].1.len(),
            forall|i: int|
                0 <= i < r@.len() ==> #[trigger] r@[i].0 == offset(
                    self.series()[k as int].1,
                    i,
                    now,
                    self.spec_policy(),
                ) && r@[i].1 == self.series()[k as int].1[i].value,
    {
        self.histories[k].history.points(now, self.policy)
    }

    /// The samples of series `id`; none where it has sent none.
    pub fn history_of(&self, id: u64) -> (r: Vec<Record>)
        requires
            self.wf(),
        ensures
            r@ == lookup(self.series(), id),
    {
        let n = self.histories.len();
        let mut i: usize = 0;
        while i < n && self.histories[i].id != id
            invariant
                i <= n,
                n == self.histories@.len(),
                forall|j: int| 0 <= j < i ==> self.series()[j].0 != id,
            decreases n - i,
        {
            i = i + 1;
        }
        let mut out: Vec<Record> = Vec::new();
        if i < n {
            proof {
                lemma_index_of(self.series(), id, i as int);
            }
            let h = &self.histories[i].history;
            let m = h.len();
            let mut j: usize = 0;
            while j < m
                invariant
                    j <= m,
                    m == h@.len(),
                    out@ == h@.take(j as int),
                decreases m - j,
            {
                out.push(h.get(j));
                j = j + 1;
                assert(out@ =~= h@.take(j as int));
            }
            assert(h@.take(j as int) =~= h@);
        } else {
            assert(!has_series(self.series(), id));
        }
        out
    }
}

/// Hands out the ids of new series: 1, 2, 3, ..., never one twice.
pub struct SeriesIds {
    children_count: u64,
}

impl SeriesIds {
    /// How many ids have been handed out.
    pub closed spec fn spec_count(&self) -> u64 {
        self.children_count
    }

    pub fn new() -> (r: SeriesIds)
        ensures
            r.spec_count() == 0,
    {
        SeriesIds { children_count: 0 }
    }

    /// The next id, one more than the last; `None` once every `u64` has been
    /// handed out.
    pub fn spawn(&mut self) -> (r: Option<u64>)
        ensures
            old(self).spec_count() < u64::MAX ==> r == Some((old(self).spec_count() + 1) as u64)
                && final(self).spec_count() == old(self).spec_count() + 1,
            old(self).spec_count() == u64::MAX ==> r is None && final(self).spec_count()
                == old(self).spec_count(),
    {
        if self.children_count == u64::MAX {
            None
        } else {
            self.children_count = self.children_count + 1;
            Some(self.children_count)
        }
    }
}

} // verus!
