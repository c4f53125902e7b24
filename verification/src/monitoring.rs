//! Telemetry: the append-only, retention-bounded time-series store, and
//! the metric derivations the sampler is built from. The store is keyed
//! by entity and metric name; every series stays sorted by timestamp and
//! keys stay unique. The collector loop that feeds it lives with the
//! caller and hands in plain readings and the current time.

use vstd::prelude::*;

verus! {

use vstd::string::StringExecFns;
use vstd::string::StrSliceExecFns;
use crate::text::has_sub;
use crate::text::eq_str;

/// How long recorded points are retained, in seconds: one day.
pub const DEFAULT_RETENTION_SECS: u64 = 86400;

/// One recorded measurement: Unix-second timestamp and integer value.
#[derive(Debug, Clone, Copy, PartialEq, Eq, Structural)]
pub struct MetricPoint {
    pub timestamp: u64,
    pub value: u64,
}

/// One `entity:metric` series.
#[derive(Debug, Clone)]
pub struct MetricSeries {
    pub key: String,
    pub points: Vec<MetricPoint>,
}

/// The composite key a series is stored under.
pub open spec fn series_key(entity: Seq<char>, metric: Seq<char>) -> Seq<char> {
    entity + seq![':'] + metric
}

/// Timestamps never decrease along a series.
pub open spec fn sorted_points(pts: Seq<MetricPoint>) -> bool {
    forall|a: int, b: int| 0 <= a <= b < pts.len() ==> pts[a].timestamp <= pts[b].timestamp
}

/// The points stored under `key`, or the empty series.
pub open spec fn find_series(entries: Seq<MetricSeries>, key: Seq<char>) -> Seq<MetricPoint>
    decreases entries.len(),
{
    if entries.len() == 0 {
        Seq::empty()
    } else if entries[0].key@ == key {
        entries[0].points@
    } else {
        find_series(entries.drop_first(), key)
    }
}

/// Some entry holds `key`.
pub open spec fn has_key(entries: Seq<MetricSeries>, key: Seq<char>) -> bool {
    exists|i: int| 0 <= i < entries.len() && (#[trigger] entries[i].key@) == key
}

/// A point is kept by a window ending at `now`: it is younger than
/// `now - window`.
pub open spec fn within_window(p: MetricPoint, window: u64, now: u64) -> bool {
    p.timestamp + window > now
}

proof fn lemma_find_series_push(entries: Seq<MetricSeries>, e: MetricSeries, key: Seq<char>)
    ensures
        find_series(entries.push(e), key) == (if has_key(entries, key) {
            find_series(entries, key)
        } else if e.key@ == key {
            e.points@
        } else {
            Seq::<MetricPoint>::empty()
        }),
        has_key(entries.push(e), key) == (has_key(entries, key) || e.key@ == key),
    decreases entries.len(),
{
    if entries.len() == 0 {
        assert(entries.push(e)[0] == e);
        assert(entries.push(e).drop_first() =~= Seq::<MetricSeries>::empty());
        if e.key@ == key {
            assert(entries.push(e)[0].key@ == key);
        } else {
            assert(find_series(entries.push(e), key) == find_series(
                Seq::<MetricSeries>::empty(),
                key,
            ));
        }
        if has_key(entries.push(e), key) && e.key@ != key {
            let i = choose|i: int|
                0 <= i < entries.push(e).len() && (#[trigger] entries.push(e)[i].key@) == key;
            assert(i == 0 || i == entries.len());
        }
    } else {
        assert(entries.push(e).drop_first() =~= entries.drop_first().push(e));
        assert(entries.push(e)[0] == entries[0]);
        lemma_find_series_push(entries.drop_first(), e, key);
        if entries[0].key@ == key {
            assert(has_key(entries, key));
            assert(find_series(entries.push(e), key) == entries[0].points@);
        } else {
            assert(has_key(entries, key) == has_key(entries.drop_first(), key)) by {
                if has_key(entries, key) {
                    let i = choose|i: int|
                        0 <= i < entries.len() && (#[trigger] entries[i].key@) == key;
                    assert(entries.drop_first()[i - 1].key@ == key);
                }
                if has_key(entries.drop_first(), key) {
                    let i = choose|i: int|
                        0 <= i < entries.drop_first().len() && (#[trigger] entries.drop_first()[i].key@)
                            == key;
                    assert(entries[i + 1].key@ == key);
                }
            }
        }
        if has_key(entries.push(e), key) && !has_key(entries, key) && e.key@ != key {
            let i = choose|i: int|
                0 <= i < entries.push(e).len() && (#[trigger] entries.push(e)[i].key@) == key;
            if i < entries.len() {
                assert(entries[i].key@ == key);
            }
        }
    }
}

proof fn lemma_find_series_at(entries: Seq<MetricSeries>, i: int)
    requires
        0 <= i < entries.len(),
        forall|j: int| 0 <= j < i ==> (#[trigger] entries[j].key@) != entries[i].key@,
    ensures
        find_series(entries, entries[i].key@) == entries[i].points@,
        has_key(entries, entries[i].key@),
    decreases i,
{
    if i > 0 {
        assert(entries.drop_first()[i - 1] == entries[i]);
        assert forall|j: int| 0 <= j < i - 1 implies (#[trigger] entries.drop_first()[j].key@)
            != entries.drop_first()[i - 1].key@ by {
            assert(entries.drop_first()[j] == entries[j + 1]);
        }
        lemma_find_series_at(entries.drop_first(), i - 1);
    }
}

proof fn lemma_find_series_absent(entries: Seq<MetricSeries>, key: Seq<char>)
    requires
        !has_key(entries, key),
    ensures
        find_series(entries, key) == Seq::<MetricPoint>::empty(),
    decreases entries.len(),
{
    if entries.len() > 0 {
        assert(entries[0].key@ != key);
        assert forall|i: int| 0 <= i < entries.drop_first().len() implies (
        #[trigger] entries.drop_first()[i].key@) != key by {
            assert(entries.drop_first()[i] == entries[i + 1]);
        }
        lemma_find_series_absent(entries.drop_first(), key);
    }
}

/// Filtering a sorted series keeps it sorted.
proof fn lemma_filter_sorted(pts: Seq<MetricPoint>, pred: spec_fn(MetricPoint) -> bool)
    requires
        sorted_points(pts),
    ensures
        sorted_points(pts.filter(pred)),
    decreases pts.len(),
{
    reveal(Seq::filter);
    if pts.len() > 0 {
        let t = pts.drop_last();
        assert(sorted_points(t));
        lemma_filter_sorted(t, pred);
        if pred(pts.last()) {
            lemma_filter_bound(t, pred, pts.last().timestamp);
            let f = pts.filter(pred);
            assert(f =~= t.filter(pred).push(pts.last()));
            assert forall|a: int, b: int| 0 <= a <= b < f.len() implies f[a].timestamp
                <= f[b].timestamp by {
                if b < f.len() - 1 {
                    assert(t.filter(pred)[a] == f[a] && t.filter(pred)[b] == f[b]);
                } else if a < f.len() - 1 {
                    assert(t.filter(pred)[a] == f[a]);
                }
            }
        }
    }
}

/// Every element of a filtered series respects an upper bound on the whole.
proof fn lemma_filter_bound(pts: Seq<MetricPoint>, pred: spec_fn(MetricPoint) -> bool, bound: u64)
    requires
        forall|i: int| 0 <= i < pts.len() ==> (#[trigger] pts[i].timestamp) <= bound,
    ensures
        forall|i: int|
            0 <= i < pts.filter(pred).len() ==> (#[trigger] pts.filter(pred)[i].timestamp)
                <= bound,
    decreases pts.len(),
{
    reveal(Seq::filter);
    if pts.len() > 0 {
        let t = pts.drop_last();
        lemma_filter_bound(t, pred, bound);
        let f = pts.filter(pred);
        assert forall|i: int| 0 <= i < f.len() implies (#[trigger] f[i].timestamp) <= bound by {
            if pred(pts.last()) {
                assert(f =~= t.filter(pred).push(pts.last()));
                if i < f.len() - 1 {
                    assert(f[i] == t.filter(pred)[i]);
                }
            } else {
                assert(f =~= t.filter(pred));
                assert(f[i] == t.filter(pred)[i]);
            }
        }
    }
}

/// The retention-bounded time-series store, fed by the periodic collector
/// and read by anyone. Created empty; purged after each collection tick.
pub struct MonitoringService {
    pub metrics_history: Vec<MetricSeries>,
    /// Seconds between collector ticks.
    pub collection_interval_secs: u64,
}

impl MonitoringService {
    /// Keys are unique and every series is sorted by timestamp.
    pub open spec fn wf(&self) -> bool {
        &&& (forall|i: int, j: int|
            0 <= i < j < self.metrics_history@.len() ==> (
            #[trigger] self.metrics_history@[i].key@) != (#[trigger] self.metrics_history@[j].key@))
        &&& (forall|i: int|
            0 <= i < self.metrics_history@.len() ==> sorted_points(
                #[trigger] self.metrics_history@[i].points@,
            ))
    }

    /// The series stored for an entity and metric.
    pub open spec fn series(&self, entity: Seq<char>, metric: Seq<char>) -> Seq<MetricPoint> {
        find_series(self.metrics_history@, series_key(entity, metric))
    }

    /// An empty store with the default 5-second collection interval.
    pub fn new() -> (r: Self)
        ensures
            r.wf(),
            r.metrics_history@.len() == 0,
            r.collection_interval_secs == 5,
    {
        MonitoringService { metrics_history: Vec::new(), collection_interval_secs: 5 }
    }

    fn key_index(entries: &Vec<MetricSeries>, key: &str) -> (r: Option<usize>)
        ensures
            (match r {
                Some(i) => i < entries@.len() && entries@[i as int].key@ == key@ && (forall|j: int|
                    0 <= j < i ==> (#[trigger] entries@[j].key@) != key@),
                None => forall|j: int|
                    0 <= j < entries@.len() ==> (#[trigger] entries@[j].key@) != key@,
            }),
    {
        let n = entries.len();
        let mut i: usize = 0;
        while i < n
            invariant
                n == entries@.len(),
                0 <= i <= n,
                forall|j: int| 0 <= j < i ==> (#[trigger] entries@[j].key@) != key@,
            decreases n - i,
        {
            if eq_str(entries[i].key.as_str(), key) {
                return Some(i);
            }
            i += 1;
        }
        None
    }

    fn make_key(entity: &str, metric: &str) -> (r: String)
        ensures
            r@ == series_key(entity@, metric@),
    {
        proof {
            reveal_strlit(":");
            assert(":"@ =~= seq![':']);
        }
        let r = String::from_str(entity).concat(":").concat(metric);
        proof {
            assert(r@ =~= series_key(entity@, metric@));
        }
        r
    }

    /// Append one measurement to the `entity:metric` series. A sample
    /// older than the series' newest point is dropped, so every series
    /// stays in insertion order of time.
    pub fn store_metric(&mut self, entity: &str, metric: &str, value: u64, now: u64)
        requires
            old(self).wf(),
        ensures
            final(self).wf(),
            final(self).collection_interval_secs == old(self).collection_interval_secs,
            final(self).series(entity@, metric@) == (if old(self).series(entity@, metric@).len()
                == 0 || old(self).series(entity@, metric@).last().timestamp <= now {
                old(self).series(entity@, metric@).push(MetricPoint { timestamp: now, value })
            } else {
                old(self).series(entity@, metric@)
            }),
            forall|k: Seq<char>|
                k != series_key(entity@, metric@) ==> #[trigger] find_series(
                    final(self).metrics_history@,
                    k,
                ) == find_series(old(self).metrics_history@, k),
    {
        let key = Self::make_key(entity, metric);
        let ghost k0 = series_key(entity@, metric@);
        match Self::key_index(&self.metrics_history, key.as_str()) {
            Some(i) => {
                proof {
                    lemma_find_series_at(self.metrics_history@, i as int);
                }
                let mut entry = self.metrics_history.remove(i);
                let ghost oldpts = entry.points@;
                let keep = (if entry.points.len() == 0 {
                    true
                } else {
                    entry.points[entry.points.len() - 1].timestamp <= now
                });
                if keep {
                    entry.points.push(MetricPoint { timestamp: now, value });
                }
                let ghost ge = entry;
                self.metrics_history.insert(i, entry);
                proof {
                    let newh = self.metrics_history@;
                    let oldh = old(self).metrics_history@;
                    assert(newh =~= oldh.update(i as int, ge));
                    assert(newh[i as int].key@ == k0);
                    assert forall|j: int| 0 <= j < i implies (#[trigger] newh[j].key@) != k0 by {
                        assert(newh[j] == oldh[j]);
                    }
                    lemma_find_series_at(newh, i as int);
                    if keep {
                        assert(ge.points@ =~= oldpts.push(MetricPoint { timestamp: now, value }));
                    }
                    assert forall|a: int, b: int| 0 <= a < b < newh.len() implies (
                    #[trigger] newh[a].key@) != (#[trigger] newh[b].key@) by {
                        if a != i && b != i {
                            assert(newh[a] == oldh[a] && newh[b] == oldh[b]);
                        } else if a == i {
                            assert(newh[b] == oldh[b] && newh[a].key@ == oldh[a].key@);
                        } else {
                            assert(newh[a] == oldh[a] && newh[b].key@ == oldh[b].key@);
                        }
                    }
                    assert forall|a: int| 0 <= a < newh.len() implies sorted_points(
                        #[trigger] newh[a].points@,
                    ) by {
                        if a != i {
                            assert(newh[a] == oldh[a]);
                        } else {
                            assert(sorted_points(oldpts));
                            if keep {
                                assert forall|x: int, y: int|
                                    0 <= x <= y < ge.points@.len() implies ge.points@[x].timestamp
                                    <= ge.points@[y].timestamp by {
                                    if y < ge.points@.len() - 1 {
                                        assert(ge.points@[x] == oldpts[x] && ge.points@[y]
                                            == oldpts[y]);
                                    } else if x < ge.points@.len() - 1 {
                                        assert(ge.points@[x] == oldpts[x]);
                                        if oldpts.len() > 0 {
                                            assert(oldpts[x].timestamp <= oldpts[oldpts.len()
                                                - 1].timestamp);
                                        }
                                    }
                                }
                            } else {
                                assert(ge.points@ == oldpts);
                            }
                        }
                    }
                    assert(final(self).wf());
                    assert forall|k: Seq<char>| k != k0 implies #[trigger] find_series(newh, k)
                        == find_series(oldh, k) by {
                        lemma_find_series_update(oldh, i as int, ge, k);
                    }
                }
            },
            None => {
                let mut points: Vec<MetricPoint> = Vec::new();
                points.push(MetricPoint { timestamp: now, value });
                let entry = MetricSeries { key, points };
                let ghost ge = entry;
                proof {
                    assert(!has_key(self.metrics_history@, k0));
                    lemma_find_series_absent(self.metrics_history@, k0);
                }
                self.metrics_history.push(entry);
                proof {
                    let oldh = old(self).metrics_history@;
                    lemma_find_series_push(oldh, ge, k0);
                    assert(find_series(final(self).metrics_history@, k0) =~= Seq::<
                        MetricPoint,
                    >::empty().push(MetricPoint { timestamp: now, value }));
                    assert forall|k: Seq<char>| k != k0 implies #[trigger] find_series(
                        final(self).metrics_history@,
                        k,
                    ) == find_series(oldh, k) by {
                        lemma_find_series_push(oldh, ge, k);
                        if !has_key(oldh, k) {
                            lemma_find_series_absent(oldh, k);
                        }
                    }
                    assert forall|a: int, b: int|
                        0 <= a < b < final(self).metrics_history@.len() implies (
                        #[trigger] final(self).metrics_history@[a].key@) != (
                        #[trigger] final(self).metrics_history@[b].key@) by {
                        if b < oldh.len() {
                            assert(final(self).metrics_history@[a] == oldh[a]);
                            assert(final(self).metrics_history@[b] == oldh[b]);
                        } else {
                            assert(final(self).metrics_history@[b] == ge);
                            assert(ge.key@ == k0);
                            assert(final(self).metrics_history@[a] == oldh[a]);
                            assert(oldh[a].key@ != k0);
                        }
                    }
                    assert(final(self).wf());
                }
            },
        }
    }

    /// The points of `entity:metric` younger than `now - window`, oldest
    /// first. The stored series is not touched.
    pub fn get_metric_history(&self, entity: &str, metric: &str, window_secs: u64, now: u64) -> (r:
        Vec<MetricPoint>)
        requires
            self.wf(),
        ensures
            r@ == self.series(entity@, metric@).filter(
                (|p: MetricPoint| within_window(p, window_secs, now)),
            ),
            forall|i: int| 0 <= i < r@.len() ==> within_window(#[trigger] r@[i], window_secs, now),
            sorted_points(r@),
    {
        let key = Self::make_key(entity, metric);
        let ghost k0 = series_key(entity@, metric@);
        let ghost pred = (|p: MetricPoint| within_window(p, window_secs, now));
        let mut r: Vec<MetricPoint> = Vec::new();
        match Self::key_index(&self.metrics_history, key.as_str()) {
            Some(i) => {
                proof {
                    lemma_find_series_at(self.metrics_history@, i as int);
                }
                let pts = &self.metrics_history[i].points;
                let m = pts.len();
                let mut k: usize = 0;
                proof {
                    reveal(Seq::filter);
                    assert(pts@.take(0) =~= Seq::<MetricPoint>::empty());
                    assert(r@ =~= pts@.take(0).filter(pred));
                }
                while k < m
                    invariant
                        m == pts@.len(),
                        pts == &self.metrics_history@[i as int].points,
                        0 <= k <= m,
                        r@ == pts@.take(k as int).filter(pred),
                        pred == (|p: MetricPoint| within_window(p, window_secs, now)),
                    decreases m - k,
                {
                    let p = pts[k];
                    proof {
                        reveal(Seq::filter);
                        assert(pts@.take(k as int + 1).drop_last() =~= pts@.take(k as int));
                        assert(pts@.take(k as int + 1).last() == pts@[k as int]);
                    }
                    if (p.timestamp as u128) + (window_secs as u128) > (now as u128) {
                        r.push(p);
                        proof {
                            assert(pred(p));
                            assert(r@ =~= pts@.take(k as int).filter(pred).push(p));
                        }
                    } else {
                        proof {
                            assert(!pred(p));
                        }
                    }
                    k += 1;
                }
                proof {
                    assert(pts@.take(m as int) =~= pts@);
                    lemma_filter_sorted(pts@, pred);
                }
            },
            None => {
                proof {
                    assert(!has_key(self.metrics_history@, k0));
                    lemma_find_series_absent(self.metrics_history@, k0);
                    reveal(Seq::filter);
                    assert(r@ =~= Seq::<MetricPoint>::empty().filter(pred));
                    assert(sorted_points(r@));
                }
            },
        }
        proof {
            assert forall|i2: int| 0 <= i2 < r@.len() implies within_window(
                #[trigger] r@[i2],
                window_secs,
                now,
            ) by {
                self.series(entity@, metric@).lemma_filter_pred(pred, i2);
            }
        }
        r
    }

    /// Drop every point older than the retention window, and every series
    /// that becomes empty. No series ever grows here: each comes out as
    /// the kept subsequence of what it was.
    pub fn cleanup_old_metrics(&mut self, now: u64, retention_secs: u64)
        requires
            old(self).wf(),
        ensures
            final(self).wf(),
            final(self).collection_interval_secs == old(self).collection_interval_secs,
            forall|k: Seq<char>|
                #[trigger] find_series(final(self).metrics_history@, k) == find_series(
                    old(self).metrics_history@,
                    k,
                ).filter((|p: MetricPoint| within_window(p, retention_secs, now))),
            forall|k: Seq<char>|
                (#[trigger] find_series(final(self).metrics_history@, k)).len() <= find_series(
                    old(self).metrics_history@,
                    k,
                ).len(),
    {
        let ghost pred = (|p: MetricPoint| within_window(p, retention_secs, now));
        let ghost oldh = self.metrics_history@;
        let n = self.metrics_history.len();
        let mut out: Vec<MetricSeries> = Vec::new();
        let mut i: usize = 0;
        while i < n
            invariant
                n == oldh.len(),
                0 <= i <= n,
                self.metrics_history@ == oldh,
                old(self).wf(),
                oldh == old(self).metrics_history@,
                pred == (|p: MetricPoint| within_window(p, retention_secs, now)),
                forall|a: int, b: int|
                    0 <= a < b < oldh.len() ==> (#[trigger] oldh[a].key@) != (
                    #[trigger] oldh[b].key@),
                forall|a: int| 0 <= a < oldh.len() ==> sorted_points(#[trigger] oldh[a].points@),
                forall|a: int, b: int|
                    0 <= a < b < out@.len() ==> (#[trigger] out@[a].key@) != (
                    #[trigger] out@[b].key@),
                forall|a: int| 0 <= a < out@.len() ==> sorted_points(#[trigger] out@[a].points@),
                forall|a: int|
                    0 <= a < out@.len() ==> has_key(oldh.take(i as int), (#[trigger] out@[a].key@)),
                forall|j: int|
                    0 <= j < i ==> #[trigger] find_series(out@, oldh[j].key@)
                        == oldh[j].points@.filter(pred),
                forall|k: Seq<char>| !has_key(oldh.take(i as int), k) ==> !has_key(out@, k),
            decreases n - i,
        {
            let pts = &self.metrics_history[i].points;
            let m = pts.len();
            let mut kept: Vec<MetricPoint> = Vec::new();
            let mut k: usize = 0;
            proof {
                reveal(Seq::filter);
                assert(pts@.take(0) =~= Seq::<MetricPoint>::empty());
                assert(kept@ =~= pts@.take(0).filter(pred));
            }
            while k < m
                invariant
                    m == pts@.len(),
                    pts == &self.metrics_history@[i as int].points,
                    self.metrics_history@ == oldh,
                    0 <= i < n == oldh.len(),
                    0 <= k <= m,
                    kept@ == pts@.take(k as int).filter(pred),
                    pred == (|p: MetricPoint| within_window(p, retention_secs, now)),
                decreases m - k,
            {
                let p = pts[k];
                proof {
                    reveal(Seq::filter);
                    assert(pts@.take(k as int + 1).drop_last() =~= pts@.take(k as int));
                    assert(pts@.take(k as int + 1).last() == pts@[k as int]);
                }
                if (p.timestamp as u128) + (retention_secs as u128) > (now as u128) {
                    kept.push(p);
                    proof {
                        assert(pred(p));
                        assert(kept@ =~= pts@.take(k as int).filter(pred).push(p));
                    }
                } else {
                    proof {
                        assert(!pred(p));
                    }
                }
                k += 1;
            }
            proof {
                assert(pts@.take(m as int) =~= pts@);
                assert(kept@ == oldh[i as int].points@.filter(pred));
            }
            let ghost outpre = out@;
            proof {
                assert(forall|a: int, b: int|
                    0 <= a < b < outpre.len() ==> (#[trigger] outpre[a].key@) != (
                    #[trigger] outpre[b].key@));
                assert(forall|a: int|
                    0 <= a < outpre.len() ==> has_key(
                        oldh.take(i as int),
                        (#[trigger] outpre[a].key@),
                    ));
                assert(forall|k2: Seq<char>| !has_key(oldh.take(i as int), k2) ==> !has_key(
                    outpre,
                    k2,
                ));
                assert forall|k2: Seq<char>| #[trigger] has_key(oldh.take(i as int), k2) implies has_key(
                    oldh.take(i as int + 1),
                    k2,
                ) by {
                    let j = choose|j: int|
                        0 <= j < oldh.take(i as int).len() && (#[trigger] oldh.take(
                            i as int,
                        )[j].key@) == k2;
                    assert(oldh.take(i as int + 1)[j].key@ == k2);
                }
            }
            if kept.len() > 0 {
                let keycopy = self.metrics_history[i].key.clone();
                let entry = MetricSeries { key: keycopy, points: kept };
                let ghost ge = entry;
                proof {
                    assert(!has_key(outpre, ge.key@)) by {
                        if has_key(outpre, ge.key@) {
                            let a = choose|a: int|
                                0 <= a < outpre.len() && (#[trigger] outpre[a].key@) == ge.key@;
                            assert(has_key(oldh.take(i as int), ge.key@));
                            let j = choose|j: int|
                                0 <= j < oldh.take(i as int).len() && (#[trigger] oldh.take(
                                    i as int,
                                )[j].key@) == ge.key@;
                            assert(oldh[j].key@ == oldh[i as int].key@);
                            assert(false);
                        }
                    }
                }
                out.push(entry);
                proof {
                    assert(out@ =~= outpre.push(ge));
                    assert(out@.len() == outpre.len() + 1);
                    lemma_filter_sorted(oldh[i as int].points@, pred);
                    assert forall|a: int, b: int| 0 <= a < b < out@.len() implies (
                    #[trigger] out@[a].key@) != (#[trigger] out@[b].key@) by {
                        if b == outpre.len() {
                            assert(out@[a] == outpre[a]);
                            assert(out@[b] == ge);
                            if outpre[a].key@ == ge.key@ {
                                assert(has_key(outpre, ge.key@));
                            }
                            assert(outpre[a].key@ != ge.key@);
                        } else {
                            assert(out@[a] == outpre[a] && out@[b] == outpre[b]);
                            assert(outpre[a].key@ != outpre[b].key@);
                        }
                    }
                    assert forall|a: int| 0 <= a < out@.len() implies sorted_points(
                        #[trigger] out@[a].points@,
                    ) by {
                        if a < outpre.len() {
                            assert(out@[a] == outpre[a]);
                        } else {
                            assert(out@[a] == ge);
                        }
                    }
                    assert forall|a: int| 0 <= a < out@.len() implies has_key(
                        oldh.take(i as int + 1),
                        (#[trigger] out@[a].key@),
                    ) by {
                        if a < outpre.len() {
                            assert(out@[a] == outpre[a]);
                            assert(has_key(oldh.take(i as int), outpre[a].key@));
                        } else {
                            assert(out@[a] == ge);
                            assert(oldh.take(i as int + 1)[i as int].key@ == ge.key@);
                        }
                    }
                    assert forall|j: int| 0 <= j <= i implies #[trigger] find_series(
                        out@,
                        oldh[j].key@,
                    ) == oldh[j].points@.filter(pred) by {
                        lemma_find_series_push(outpre, ge, oldh[j].key@);
                        if j < i {
                            if oldh[j].key@ == ge.key@ {
                                assert(oldh[j].key@ == oldh[i as int].key@);
                                assert(false);
                            }
                            if !has_key(outpre, oldh[j].key@) {
                                lemma_find_series_absent(outpre, oldh[j].key@);
                            }
                        } else {
                            assert(!has_key(outpre, oldh[i as int].key@));
                            assert(ge.points@ == kept@);
                        }
                    }
                    assert forall|k2: Seq<char>| !has_key(oldh.take(i as int + 1), k2) implies !has_key(
                        out@,
                        k2,
                    ) by {
                        if has_key(out@, k2) {
                            let a = choose|a: int|
                                0 <= a < out@.len() && (#[trigger] out@[a].key@) == k2;
                            if a < outpre.len() {
                                assert(out@[a] == outpre[a]);
                                assert(has_key(oldh.take(i as int), k2));
                            } else {
                                assert(out@[a] == ge);
                                assert(oldh.take(i as int + 1)[i as int].key@ == k2);
                            }
                        }
                    }
                }
            } else {
                proof {
                    reveal(Seq::filter);
                    assert forall|j: int| 0 <= j <= i implies #[trigger] find_series(
                        out@,
                        oldh[j].key@,
                    ) == oldh[j].points@.filter(pred) by {
                        if j == i {
                            assert(!has_key(out@, oldh[i as int].key@)) by {
                                if has_key(out@, oldh[i as int].key@) {
                                    let a = choose|a: int|
                                        0 <= a < out@.len() && (#[trigger] out@[a].key@)
                                            == oldh[i as int].key@;
                                    assert(has_key(oldh.take(i as int), oldh[i as int].key@));
                                    let j2 = choose|j2: int|
                                        0 <= j2 < oldh.take(i as int).len() && (#[trigger] oldh.take(
                                            i as int,
                                        )[j2].key@) == oldh[i as int].key@;
                                    assert(oldh[j2].key@ == oldh[i as int].key@);
                                    assert(false);
                                }
                            }
                            lemma_find_series_absent(out@, oldh[i as int].key@);
                            assert(oldh[i as int].points@.filter(pred) =~= kept@);
                        }
                    }
                    assert forall|a: int| 0 <= a < out@.len() implies has_key(
                        oldh.take(i as int + 1),
                        (#[trigger] out@[a].key@),
                    ) by {
                        assert(has_key(oldh.take(i as int), out@[a].key@));
                    }
                    assert forall|k2: Seq<char>| !has_key(oldh.take(i as int + 1), k2) implies !has_key(
                        out@,
                        k2,
                    ) by {
                        if has_key(out@, k2) {
                            assert(has_key(oldh.take(i as int), k2));
                        }
                    }
                }
            }
            i += 1;
        }
        self.metrics_history = out;
        proof {
            assert(oldh.take(n as int) =~= oldh);
            assert forall|k: Seq<char>| #[trigger] find_series(final(self).metrics_history@, k)
                == find_series(oldh, k).filter(pred) by {
                if has_key(oldh, k) {
                    lemma_exists_first_key(oldh, k);
                    let jf = choose|jf: int|
                        0 <= jf < oldh.len() && (#[trigger] oldh[jf].key@) == k && (forall|j2: int|
                            0 <= j2 < jf ==> (#[trigger] oldh[j2].key@) != k);
                    lemma_find_series_at(oldh, jf);
                } else {
                    lemma_find_series_absent(oldh, k);
                    assert(!has_key(oldh.take(n as int), k));
                    lemma_find_series_absent(final(self).metrics_history@, k);
                    reveal(Seq::filter);
                    assert(Seq::<MetricPoint>::empty().filter(pred) =~= Seq::<
                        MetricPoint,
                    >::empty());
                }
            }
            assert forall|k: Seq<char>| (#[trigger] find_series(
                final(self).metrics_history@,
                k,
            )).len() <= find_series(old(self).metrics_history@, k).len() by {
                find_series(old(self).metrics_history@, k).lemma_filter_len(pred);
            }
        }
    }

}

/// If a key occurs at all, it occurs a first time.
proof fn lemma_exists_first_key(entries: Seq<MetricSeries>, key: Seq<char>)
    requires
        has_key(entries, key),
    ensures
        exists|i: int|
            0 <= i < entries.len() && (#[trigger] entries[i].key@) == key && (forall|j: int|
                0 <= j < i ==> (#[trigger] entries[j].key@) != key),
    decreases entries.len(),
{
    if entries[0].key@ == key {
        let i = 0int;
        assert(0 <= i < entries.len() && entries[i].key@ == key && (forall|j: int|
            0 <= j < i ==> (#[trigger] entries[j].key@) != key));
    } else {
        assert(has_key(entries.drop_first(), key)) by {
            let i = choose|i: int|
                0 <= i < entries.len() && (#[trigger] entries[i].key@) == key;
            assert(entries.drop_first()[i - 1].key@ == key);
        }
        lemma_exists_first_key(entries.drop_first(), key);
        let i = choose|i: int|
            0 <= i < entries.drop_first().len() && (#[trigger] entries.drop_first()[i].key@) == key
                && (forall|j: int|
                0 <= j < i ==> (#[trigger] entries.drop_first()[j].key@) != key);
        assert(entries[i + 1].key@ == key);
        assert forall|j: int| 0 <= j < i + 1 implies (#[trigger] entries[j].key@) != key by {
            if j > 0 {
                assert(entries.drop_first()[j - 1].key@ == entries[j].key@);
            }
        }
    }
}

proof fn lemma_find_series_update(
    entries: Seq<MetricSeries>,
    i: int,
    e: MetricSeries,
    key: Seq<char>,
)
    requires
        0 <= i < entries.len(),
        e.key@ == entries[i].key@,
        key != e.key@,
    ensures
        find_series(entries.update(i, e), key) == find_series(entries, key),
    decreases i,
{
    if i == 0 {
        assert(entries.update(0, e)[0] == e);
        assert(entries.update(0, e).drop_first() =~= entries.drop_first());
    } else {
        assert(entries.update(i, e)[0] == entries[0]);
        if entries[0].key@ != key {
            assert(entries.update(i, e).drop_first() =~= entries.drop_first().update(i - 1, e));
            assert(entries.drop_first()[i - 1] == entries[i]);
            lemma_find_series_update(entries.drop_first(), i - 1, e, key);
        }
    }
}


/// What the balloon statistics call reported for one domain, in KiB:
/// the counters the memory derivation prefers, when present.
#[derive(Debug, Clone, Copy, PartialEq, Eq, Structural)]
pub struct MemoryStatSample {
    pub actual_balloon: Option<u64>,
    pub available: Option<u64>,
    pub unused: Option<u64>,
}

/// CPU usage over a sampling interval, as a whole percent: the share of
/// wall time spent in guest CPU time, scaled by the vCPU count and
/// clamped into 0..=100. Times are nanoseconds; a non-advancing clock or
/// non-monotonic counters give 0.
pub open spec fn cpu_percent_spec(t1: u64, t2: u64, wall_ns: u64, vcpus: u32) -> int {
    if t2 <= t1 || wall_ns == 0 {
        0
    } else {
        let raw = (t2 - t1) * 100 * vcpus / wall_ns as int;
        if raw > 100 {
            100
        } else {
            raw
        }
    }
}

/// CPU usage is always within 0..=100, whatever the two samples and the
/// interval were.
pub proof fn lemma_cpu_percent_bounds(t1: u64, t2: u64, wall_ns: u64, vcpus: u32)
    ensures
        0 <= cpu_percent_spec(t1, t2, wall_ns, vcpus) <= 100,
{
}

/// Derive CPU usage from two accumulated CPU-time readings taken a known
/// wall-clock interval apart.
pub fn cpu_usage_percent(t1: u64, t2: u64, wall_ns: u64, vcpus: u32) -> (r: u64)
    ensures
        r as int == cpu_percent_spec(t1, t2, wall_ns, vcpus),
        r <= 100,
{
    if t2 <= t1 || wall_ns == 0 {
        return 0;
    }
    proof {
        let a = (t2 - t1) as int;
        let b = vcpus as int;
        assert(a * 100 * b < 0x100000000000000000000000000) by (nonlinear_arith)
            requires
                0 <= a < 0x10000000000000000,
                0 <= b < 0x100000000,
        ;
    }
    let d = ((t2 - t1) as u128) * 100 * (vcpus as u128) / (wall_ns as u128);
    if d > 100 {
        100
    } else {
        d as u64
    }
}

/// CPU usage reported for a domain: exactly 0 unless the domain is in
/// the running state, else the two-sample derivation.
pub fn cpu_usage_for_state(
    state: crate::types::VmState,
    t1: u64,
    t2: u64,
    wall_ns: u64,
    vcpus: u32,
) -> (r: u64)
    ensures
        state != crate::types::VmState::Running ==> r == 0,
        state == crate::types::VmState::Running ==> r as int == cpu_percent_spec(
            t1,
            t2,
            wall_ns,
            vcpus,
        ),
        r <= 100,
{
    if state == crate::types::VmState::Running {
        cpu_usage_percent(t1, t2, wall_ns, vcpus)
    } else {
        0
    }
}

/// Memory derivation from the detailed statistics when the call
/// succeeded, else the coarse total: used is the balloon's actual size
/// minus what the guest reports free, never below zero. Values in, MB out.
pub open spec fn mem_used_total_spec(stats: Option<MemoryStatSample>, info_memory_kib: u64) -> (
    int,
    int,
) {
    match stats {
        Some(s) => {
            let actual = (match s.actual_balloon {
                Some(a) => a as int / 1024,
                None => info_memory_kib as int / 1024,
            });
            let avail = (match s.available {
                Some(a) => a as int / 1024,
                None => 0,
            });
            let unused = (match s.unused {
                Some(u) => u as int / 1024,
                None => 0,
            });
            let used = (if avail > 0 {
                if avail <= actual {
                    actual - avail
                } else {
                    0
                }
            } else if unused > 0 {
                if unused <= actual {
                    actual - unused
                } else {
                    0
                }
            } else {
                actual
            });
            (used, actual)
        },
        None => (info_memory_kib as int / 1024, info_memory_kib as int / 1024),
    }
}

/// On the detailed path and on the fallback alike, used memory never
/// exceeds the total.
pub proof fn lemma_mem_used_within_total(stats: Option<MemoryStatSample>, info_memory_kib: u64)
    ensures
        mem_used_total_spec(stats, info_memory_kib).0 <= mem_used_total_spec(
            stats,
            info_memory_kib,
        ).1,
        mem_used_total_spec(stats, info_memory_kib).0 >= 0,
{
}

/// Derive (used, total) memory in MB for one domain.
pub fn derive_memory_stats(stats: Option<MemoryStatSample>, info_memory_kib: u64) -> (r: (
    u64,
    u64,
))
    ensures
        r.0 as int == mem_used_total_spec(stats, info_memory_kib).0,
        r.1 as int == mem_used_total_spec(stats, info_memory_kib).1,
        r.0 <= r.1,
{
    match stats {
        Some(s) => {
            let actual = (match s.actual_balloon {
                Some(a) => a / 1024,
                None => info_memory_kib / 1024,
            });
            let avail = (match s.available {
                Some(a) => a / 1024,
                None => 0,
            });
            let unused = (match s.unused {
                Some(u) => u / 1024,
                None => 0,
            });
            let used = (if avail > 0 {
                if avail <= actual {
                    actual - avail
                } else {
                    0
                }
            } else if unused > 0 {
                if unused <= actual {
                    actual - unused
                } else {
                    0
                }
            } else {
                actual
            });
            (used, actual)
        },
        None => (info_memory_kib / 1024, info_memory_kib / 1024),
    }
}

/// Saturating sum of per-device (read, write) byte counters.
pub open spec fn io_sum_spec(readings: Seq<(u64, u64)>) -> (int, int)
    decreases readings.len(),
{
    if readings.len() == 0 {
        (0, 0)
    } else {
        let rest = io_sum_spec(readings.drop_last());
        (
            crate::xml_parser::sat_add(rest.0, readings.last().0 as int),
            crate::xml_parser::sat_add(rest.1, readings.last().1 as int),
        )
    }
}

/// Total read and written bytes across a set of device counters.
pub fn sum_io_counters(readings: &Vec<(u64, u64)>) -> (r: (u64, u64))
    ensures
        r.0 as int == io_sum_spec(readings@).0,
        r.1 as int == io_sum_spec(readings@).1,
{
    let mut read: u64 = 0;
    let mut write: u64 = 0;
    let mut k: usize = 0;
    proof {
        assert(readings@.take(0) =~= Seq::<(u64, u64)>::empty());
    }
    while k < readings.len()
        invariant
            0 <= k <= readings@.len(),
            read as int == io_sum_spec(readings@.take(k as int)).0,
            write as int == io_sum_spec(readings@.take(k as int)).1,
        decreases readings@.len() - k,
    {
        let p = readings[k];
        proof {
            assert(readings@.take(k as int + 1).drop_last() =~= readings@.take(k as int));
            assert(readings@.take(k as int + 1).last() == readings@[k as int]);
        }
        read = (if read > u64::MAX - p.0 {
            u64::MAX
        } else {
            read + p.0
        });
        write = (if write > u64::MAX - p.1 {
            u64::MAX
        } else {
            write + p.1
        });
        k += 1;
    }
    proof {
        assert(readings@.take(readings@.len() as int) =~= readings@);
    }
    (read, write)
}

/// The first tier of the I/O strategy found nothing: both counters are
/// zero, so the device names should be re-derived from the descriptor.
pub fn needs_descriptor_io_pass(read: u64, write: u64) -> (r: bool)
    ensures
        r == (read == 0 && write == 0),
{
    read == 0 && write == 0
}

/// The fixed first-tier candidate disk device names.
pub fn candidate_disk_devices() -> (r: Vec<String>)
    ensures
        r.deep_view() =~= seq![
            "vda"@,
            "vdb"@,
            "vdc"@,
            "vdd"@,
            "sda"@,
            "sdb"@,
            "hda"@,
            "hdb"@,
        ],
{
    let mut r: Vec<String> = Vec::new();
    r.push(String::from_str("vda"));
    r.push(String::from_str("vdb"));
    r.push(String::from_str("vdc"));
    r.push(String::from_str("vdd"));
    r.push(String::from_str("sda"));
    r.push(String::from_str("sdb"));
    r.push(String::from_str("hda"));
    r.push(String::from_str("hdb"));
    r
}

/// The fixed first-tier candidate network interface names.
pub fn candidate_network_interfaces() -> (r: Vec<String>)
    ensures
        r.deep_view() =~= seq!["vnet0"@, "vnet1"@, "tap0"@, "tap1"@, "eth0"@, "ens3"@],
{
    let mut r: Vec<String> = Vec::new();
    r.push(String::from_str("vnet0"));
    r.push(String::from_str("vnet1"));
    r.push(String::from_str("tap0"));
    r.push(String::from_str("tap1"));
    r.push(String::from_str("eth0"));
    r.push(String::from_str("ens3"));
    r
}

/// Whether the descriptor declares a recognized guest-agent channel.
/// This is a configuration check, not a liveness probe.
pub fn check_guest_agent(xml: &str) -> (r: bool)
    ensures
        r == (has_sub(xml@, "org.qemu.guest_agent.0"@) || has_sub(xml@, "guest_agent"@)),
{
    crate::text::contains_sub(xml, "org.qemu.guest_agent.0") || crate::text::contains_sub(
        xml,
        "guest_agent",
    )
}


/// Host-level metrics the collector stores each tick.
#[derive(Debug, Clone)]
pub struct HostMetrics {
    /// Whole percent.
    pub cpu_usage: u64,
    pub memory_usage: u64,
    pub memory_total: u64,
    pub disk_usage: Vec<(String, DiskMetrics)>,
    pub network_usage: Vec<(String, NetworkMetrics)>,
    /// Hundredths, for one, five and fifteen minutes.
    pub load_average: [u64; 3],
}

#[derive(Debug, Clone, Copy, PartialEq, Eq, Structural)]
pub struct DiskMetrics {
    pub read_bytes_per_sec: u64,
    pub write_bytes_per_sec: u64,
    pub read_ops_per_sec: u64,
    pub write_ops_per_sec: u64,
}

#[derive(Debug, Clone, Copy, PartialEq, Eq, Structural)]
pub struct NetworkMetrics {
    pub rx_bytes_per_sec: u64,
    pub tx_bytes_per_sec: u64,
    pub rx_packets_per_sec: u64,
    pub tx_packets_per_sec: u64,
}

} // verus!
