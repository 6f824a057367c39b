//! Metric state: per-identity counters and latency histograms that only
//! ever grow.

use crate::probe::{ProbeOutcome, Tally};
use vstd::prelude::*;
use vstd::string::*;

verus! {

/// Number of histogram buckets: eleven with a finite bound and one
/// without.
pub const BUCKETS: usize = 12;

/// The upper bound of bucket `i` in microseconds; the last bucket has none.
pub open spec fn bucket_bound(i: int) -> nat {
    if i == 0 {
        0
    } else if i == 1 {
        100
    } else if i == 2 {
        250
    } else if i == 3 {
        500
    } else if i == 4 {
        1_000
    } else if i == 5 {
        2_000
    } else if i == 6 {
        5_000
    } else if i == 7 {
        10_000
    } else if i == 8 {
        50_000
    } else if i == 9 {
        100_000
    } else {
        200_000
    }
}

/// Whether a round-trip time counts towards bucket `i`: buckets are
/// cumulative, so a time counts towards every bucket whose bound it does
/// not exceed, and towards the last in any case.
pub open spec fn counts_towards(rtt_us: u64, i: int) -> bool {
    i >= BUCKETS - 1 || rtt_us <= bucket_bound(i)
}

/// One more, but never past the largest value.
pub open spec fn bump(n: u64) -> u64 {
    if n < u64::MAX {
        (n + 1) as u64
    } else {
        n
    }
}

/// The sum, but never past the largest value.
pub open spec fn add_capped(a: u64, b: u64) -> u64 {
    if a + b <= u64::MAX {
        (a + b) as u64
    } else {
        u64::MAX
    }
}

/// What is recorded for one identity.
pub struct Reading {
    pub successes: u64,
    pub timeouts: u64,
    /// Cumulative bucket counts of the latency histogram.
    pub buckets: Seq<u64>,
    /// Sum of the observed round-trip times in microseconds.
    pub sum_us: u64,
}

impl Reading {
    /// The reading of an identity that nothing has been recorded for.
    pub open spec fn zero() -> Reading {
        Reading { successes: 0, timeouts: 0, buckets: Seq::new(BUCKETS as nat, |i: int| 0u64), sum_us: 0 }
    }

    /// A reading is well formed when its histogram has all its buckets, the
    /// counts do not fall from one bucket to the next, and the last bucket
    /// has counted every success.
    pub open spec fn wf(self) -> bool {
        &&& self.buckets.len() == BUCKETS
        &&& forall|i: int, j: int|
            0 <= i <= j < BUCKETS ==> #[trigger] self.buckets[i] <= #[trigger] self.buckets[j]
        &&& self.buckets[BUCKETS - 1] == self.successes
    }

    /// The reading after one more outcome.
    pub open spec fn record(self, tally: Tally) -> Reading {
        match tally {
            Tally::Reply(rtt_us) => Reading {
                successes: bump(self.successes),
                timeouts: self.timeouts,
                buckets: Seq::new(
                    BUCKETS as nat,
                    |i: int|
                        if counts_towards(rtt_us, i) {
                            bump(self.buckets[i])
                        } else {
                            self.buckets[i]
                        },
                ),
                sum_us: add_capped(self.sum_us, rtt_us),
            },
            Tally::Lost => Reading { timeouts: bump(self.timeouts), ..self },
        }
    }

    /// Whether nothing in `self` exceeds its counterpart in `later`.
    pub open spec fn le(self, later: Reading) -> bool {
        &&& self.successes <= later.successes
        &&& self.timeouts <= later.timeouts
        &&& self.sum_us <= later.sum_us
        &&& self.buckets.len() == later.buckets.len()
        &&& forall|i: int|
            0 <= i < self.buckets.len() ==> #[trigger] self.buckets[i] <= later.buckets[i]
    }
}

/// Recording an outcome keeps a reading well formed and lowers nothing.
pub proof fn lemma_record_grows(r: Reading, tally: Tally)
    requires
        r.wf(),
    ensures
        r.record(tally).wf(),
        r.le(r.record(tally)),
{
    let after = r.record(tally);
    match tally {
        Tally::Reply(rtt_us) => {
            assert forall|i: int, j: int| 0 <= i <= j < BUCKETS implies #[trigger] after.buckets[i]
                <= #[trigger] after.buckets[j] by {
                assert(r.buckets[i] <= r.buckets[j]);
                assert(counts_towards(rtt_us, i) ==> counts_towards(rtt_us, j));
            }
        },
        Tally::Lost => {},
    }
}

/// Two outcomes may be recorded in either order.
pub proof fn lemma_record_commutes(r: Reading, a: Tally, b: Tally)
    requires
        r.wf(),
    ensures
        r.record(a).record(b) == r.record(b).record(a),
{
    let ab = r.record(a).record(b);
    let ba = r.record(b).record(a);
    assert(ab.buckets =~= ba.buckets);
}

/// A run of outcomes keeps a reading well formed and lowers nothing.
pub proof fn lemma_record_all_grows(start: Reading, id: Seq<char>, outcomes: Seq<ProbeOutcome>)
    requires
        start.wf(),
    ensures
        record_all(start, id, outcomes).wf(),
        start.le(record_all(start, id, outcomes)),
    decreases outcomes.len(),
{
    if outcomes.len() > 0 {
        lemma_record_all_grows(start, id, outcomes.drop_last());
        lemma_record_grows(record_all(start, id, outcomes.drop_last()), outcomes.last().tally());
    }
}

/// Counters and bucket counts never fall: what has been recorded after the
/// first `earlier` outcomes of a run is exceeded nowhere by what has been
/// recorded after the first `later` of them.
pub proof fn lemma_history_monotone(
    start: Reading,
    id: Seq<char>,
    outcomes: Seq<ProbeOutcome>,
    earlier: int,
    later: int,
)
    requires
        start.wf(),
        0 <= earlier <= later <= outcomes.len(),
    ensures
        record_all(start, id, outcomes.take(earlier)).le(
            record_all(start, id, outcomes.take(later)),
        ),
        record_all(start, id, outcomes.take(later)).wf(),
    decreases later - earlier,
{
    lemma_record_all_grows(start, id, outcomes.take(later));
    if earlier < later {
        let shorter = outcomes.take(later - 1);
        assert(outcomes.take(later).drop_last() =~= shorter);
        lemma_history_monotone(start, id, outcomes, earlier, later - 1);
        lemma_record_grows(record_all(start, id, shorter), outcomes.take(later).last().tally());
    }
}

/// What one outcome added to the series of its identity. The caller hands
/// these on to whatever publishes the metrics.
#[derive(Clone, Copy, Debug, PartialEq, Eq, Structural)]
pub struct Update {
    /// By how much `successes` rose.
    pub successes_by: u64,
    /// By how much `timeouts` rose.
    pub timeouts_by: u64,
    /// The round-trip time in microseconds that the histogram observed.
    pub observed_us: Option<u64>,
}

/// The counters and the histogram of one identity.
#[derive(Debug)]
pub struct Series {
    identity: String,
    successes: u64,
    timeouts: u64,
    buckets: Vec<u64>,
    sum_us: u64,
}

impl Series {
    /// The identity that labels the series.
    pub closed spec fn label(self) -> Seq<char> {
        self.identity@
    }

    /// What the series has recorded.
    pub closed spec fn reading(self) -> Reading {
        Reading {
            successes: self.successes,
            timeouts: self.timeouts,
            buckets: self.buckets@,
            sum_us: self.sum_us,
        }
    }

    fn fresh(identity: String) -> (s: Series)
        ensures
            s.label() == identity@,
            s.reading() == Reading::zero(),
    {
        let mut buckets: Vec<u64> = Vec::new();
        let mut i: usize = 0;
        while i < BUCKETS
            invariant
                i <= BUCKETS,
                buckets@.len() == i,
                forall|j: int| 0 <= j < i ==> buckets@[j] == 0,
            decreases BUCKETS - i,
        {
            buckets.push(0);
            i += 1;
        }
        assert(buckets@ =~= Reading::zero().buckets);
        Series { identity, successes: 0, timeouts: 0, buckets, sum_us: 0 }
    }

    fn record(&mut self, tally: &Tally)
        requires
            old(self).reading().wf(),
        ensures
            final(self).label() == old(self).label(),
            final(self).reading() == old(self).reading().record(*tally),
    {
        match tally {
            Tally::Reply(rtt_us) => {
                let rtt_us: u64 = *rtt_us;
                let mut i: usize = 0;
                while i < BUCKETS
                    invariant
                        i <= BUCKETS,
                        *tally == Tally::Reply(rtt_us),
                        old(self).buckets@.len() == BUCKETS,
                        self.identity == old(self).identity,
                        self.successes == old(self).successes,
                        self.timeouts == old(self).timeouts,
                        self.sum_us == old(self).sum_us,
                        self.buckets@.len() == BUCKETS,
                        forall|j: int|
                            0 <= j < i ==> self.buckets@[j] == old(self).reading().record(
                                *tally,
                            ).buckets[j],
                        forall|j: int| i <= j < BUCKETS ==> self.buckets@[j] == old(self).buckets@[j],
                    decreases BUCKETS - i,
                {
                    if within_bucket(rtt_us, i) {
                        let n: u64 = self.buckets[i];
                        self.buckets.set(i, raise(n));
                    }
                    i += 1;
                }
                self.successes = raise(self.successes);
                self.sum_us = self.sum_us.saturating_add(rtt_us);
                assert(self.buckets@ =~= old(self).reading().record(*tally).buckets);
            },
            Tally::Lost => {
                self.timeouts = raise(self.timeouts);
            },
        }
    }
}

/// What an outcome adds to a reading, as the difference between the
/// reading before and after.
pub open spec fn update_of(before: Reading, tally: Tally) -> Update {
    match tally {
        Tally::Reply(rtt_us) => Update {
            successes_by: (bump(before.successes) - before.successes) as u64,
            timeouts_by: 0,
            observed_us: Some(rtt_us),
        },
        Tally::Lost => Update {
            successes_by: 0,
            timeouts_by: (bump(before.timeouts) - before.timeouts) as u64,
            observed_us: None,
        },
    }
}

/// The updates that a run of outcomes gives rise to, one for each outcome,
/// when the readings before the run are `start`.
pub open spec fn updates_of(start: spec_fn(Seq<char>) -> Reading, outcomes: Seq<ProbeOutcome>) -> Seq<
    Update,
> {
    Seq::new(
        outcomes.len(),
        |i: int|
            update_of(
                record_all(
                    start(outcomes[i].target_model().identity),
                    outcomes[i].target_model().identity,
                    outcomes.take(i),
                ),
                outcomes[i].tally(),
            ),
    )
}

/// A reading after a run of outcomes, of which those for `id` count.
pub open spec fn record_all(start: Reading, id: Seq<char>, outcomes: Seq<ProbeOutcome>) -> Reading
    decreases outcomes.len(),
{
    if outcomes.len() == 0 {
        start
    } else {
        let before = record_all(start, id, outcomes.drop_last());
        if outcomes.last().target_model().identity == id {
            before.record(outcomes.last().tally())
        } else {
            before
        }
    }
}

/// The metric state: one series for each identity that an outcome has been
/// recorded for, in the order in which the identities first occurred.
#[derive(Debug)]
pub struct MetricState {
    series: Vec<Series>,
}

impl MetricState {
    /// The identities that have a series, in the order of their first
    /// outcome.
    pub closed spec fn labels(self) -> Seq<Seq<char>> {
        self.series@.map_values(|s: Series| s.label())
    }

    /// Whether an identity has a series.
    pub open spec fn has_series(self, id: Seq<char>) -> bool {
        self.labels().contains(id)
    }

    /// What has been recorded for an identity; all zero for one without a
    /// series.
    pub closed spec fn reading(self, id: Seq<char>) -> Reading {
        if exists|i: int| 0 <= i < self.series@.len() && (#[trigger] self.series@[i]).label() == id {
            let i = choose|i: int|
                0 <= i < self.series@.len() && (#[trigger] self.series@[i]).label() == id;
            self.series@[i].reading()
        } else {
            Reading::zero()
        }
    }

    /// The state is well formed when no identity has two series and every
    /// reading is well formed.
    pub closed spec fn wf(self) -> bool {
        &&& forall|i: int, j: int|
            0 <= i < j < self.series@.len() ==> (#[trigger] self.series@[i]).label() != (
            #[trigger] self.series@[j]).label()
        &&& forall|i: int|
            0 <= i < self.series@.len() ==> (#[trigger] self.series@[i]).reading().wf()
    }

    /// In a well-formed state every reading is well formed, so no
    /// histogram's counts fall from one bucket to the next, and no identity
    /// is listed twice.
    pub proof fn lemma_wf_readings(self, id: Seq<char>)
        requires
            self.wf(),
        ensures
            self.reading(id).wf(),
            self.labels().no_duplicates(),
            !self.has_series(id) ==> self.reading(id) == Reading::zero(),
    {
        if self.has_series(id) {
            let k = choose|k: int| 0 <= k < self.labels().len() && self.labels()[k] == id;
            assert(self.series@[k].label() == id);
        } else {
            if exists|i: int|
                0 <= i < self.series@.len() && (#[trigger] self.series@[i]).label() == id {
                let i = choose|i: int|
                    0 <= i < self.series@.len() && (#[trigger] self.series@[i]).label() == id;
                assert(self.labels()[i] == id);
            }
        }
        assert(Reading::zero().wf());
    }

    /// A state with no series.
    pub fn new() -> (m: MetricState)
        ensures
            m.wf(),
            m.labels() == Seq::<Seq<char>>::empty(),
            forall|id: Seq<char>| m.reading(id) == Reading::zero(),
    {
        let m = MetricState { series: Vec::new() };
        assert(m.labels() =~= Seq::<Seq<char>>::empty());
        m
    }

    fn find(&self, identity: &String) -> (r: Option<usize>)
        ensures
            match r {
                Some(i) => i < self.series@.len() && self.series@[i as int].label() == identity@,
                None => forall|i: int|
                    0 <= i < self.series@.len() ==> (#[trigger] self.series@[i]).label()
                        != identity@,
            },
    {
        let mut i: usize = 0;
        while i < self.series.len()
            invariant
                i <= self.series@.len(),
                forall|j: int| 0 <= j < i ==> (#[trigger] self.series@[j]).label() != identity@,
            decreases self.series@.len() - i,
        {
            if self.series[i].identity == *identity {
                return Some(i);
            }
            i += 1;
        }
        None
    }

    /// Records one outcome for the identity of its target: a reply raises
    /// `successes` and enters the histogram, a timeout or a transport error
    /// raises `timeouts`. Every other identity keeps its reading.
    pub fn apply(&mut self, outcome: &ProbeOutcome) -> (update: Update)
        requires
            old(self).wf(),
        ensures
            final(self).wf(),
            forall|id: Seq<char>|
                #[trigger] final(self).reading(id) == if id == outcome.target_model().identity {
                    old(self).reading(id).record(outcome.tally())
                } else {
                    old(self).reading(id)
                },
            forall|id: Seq<char>|
                old(self).reading(id).le(#[trigger] final(self).reading(id))
                    && final(self).reading(id).wf(),
            final(self).labels() == if old(self).has_series(outcome.target_model().identity) {
                old(self).labels()
            } else {
                old(self).labels().push(outcome.target_model().identity)
            },
            update == update_of(
                old(self).reading(outcome.target_model().identity),
                outcome.tally(),
            ),
    {
        let ghost id = outcome.target_model().identity;
        let ghost before = old(self).reading(id);
        proof {
            assert forall|x: Seq<char>| #[trigger] old(self).reading(x).wf() by {
                old(self).lemma_wf_readings(x);
            }
        }
        let tally = match outcome {
            ProbeOutcome::Success { rtt_us, .. } => Tally::Reply(*rtt_us),
            ProbeOutcome::Timeout { .. } => Tally::Lost,
            ProbeOutcome::TransportError { .. } => Tally::Lost,
        };
        let at: usize = match self.find(&outcome.target().identity) {
            Some(i) => {
                assert(old(self).labels()[i as int] == id);
                i
            },
            None => {
                proof {
                    if old(self).has_series(id) {
                        let k = choose|k: int|
                            0 <= k < old(self).labels().len() && old(self).labels()[k] == id;
                        assert(old(self).series@[k].label() == id);
                    }
                }
                self.series.push(Series::fresh(outcome.target().identity.clone()));
                self.series.len() - 1
            },
        };
        let ghost mid = *self;
        assert(mid.labels() =~= if old(self).has_series(id) {
            old(self).labels()
        } else {
            old(self).labels().push(id)
        });
        assert(Reading::zero().wf());
        assert(mid.wf());
        assert(mid.series@[at as int].reading() == before);
        let update = match tally {
            Tally::Reply(rtt_us) => Update {
                successes_by: raise(self.series[at].successes) - self.series[at].successes,
                timeouts_by: 0,
                observed_us: Some(rtt_us),
            },
            Tally::Lost => Update {
                successes_by: 0,
                timeouts_by: raise(self.series[at].timeouts) - self.series[at].timeouts,
                observed_us: None,
            },
        };
        self.series[at].record(&tally);
        proof {
            lemma_record_grows(before, tally);
            assert(self.labels() =~= mid.labels());
            assert forall|i: int| 0 <= i < self.series@.len() && i != at implies self.series@[i]
                == mid.series@[i] by {}
            assert forall|x: Seq<char>| #[trigger] self.reading(x) == if x == id {
                before.record(tally)
            } else {
                old(self).reading(x)
            } by {
                if x == id {
                    assert(self.series@[at as int].label() == id);
                } else if exists|i: int|
                    0 <= i < old(self).series@.len() && (#[trigger] old(self).series@[i]).label()
                        == x {
                    let i = choose|i: int|
                        0 <= i < old(self).series@.len() && (
                        #[trigger] old(self).series@[i]).label() == x;
                    assert(self.series@[i].label() == x);
                    let j = choose|j: int|
                        0 <= j < self.series@.len() && (#[trigger] self.series@[j]).label() == x;
                    assert(i == j);
                } else {
                    if exists|j: int|
                        0 <= j < self.series@.len() && (#[trigger] self.series@[j]).label() == x {
                        let j = choose|j: int|
                            0 <= j < self.series@.len() && (#[trigger] self.series@[j]).label()
                                == x;
                        assert(old(self).series@[j].label() == x);
                    }
                }
            }
        }
        update
    }

    /// Records the outcomes of a round, one after the other.
    pub fn apply_all(&mut self, outcomes: &Vec<ProbeOutcome>) -> (updates: Vec<Update>)
        requires
            old(self).wf(),
        ensures
            final(self).wf(),
            forall|id: Seq<char>|
                #[trigger] final(self).reading(id) == record_all(
                    old(self).reading(id),
                    id,
                    outcomes@,
                ),
            forall|id: Seq<char>|
                old(self).reading(id).le(#[trigger] final(self).reading(id))
                    && final(self).reading(id).wf(),
            updates@ == updates_of(|id: Seq<char>| old(self).reading(id), outcomes@),
    {
        let ghost start = |id: Seq<char>| old(self).reading(id);
        proof {
            assert forall|id: Seq<char>|
                old(self).reading(id).le(
                    #[trigger] record_all(old(self).reading(id), id, outcomes@),
                ) && record_all(old(self).reading(id), id, outcomes@).wf() by {
                old(self).lemma_wf_readings(id);
                lemma_record_all_grows(old(self).reading(id), id, outcomes@);
            }
        }
        let mut updates: Vec<Update> = Vec::new();
        let mut i: usize = 0;
        while i < outcomes.len()
            invariant
                i <= outcomes.len(),
                self.wf(),
                start == |id: Seq<char>| old(self).reading(id),
                forall|id: Seq<char>|
                    #[trigger] self.reading(id) == record_all(
                        old(self).reading(id),
                        id,
                        outcomes@.take(i as int),
                    ),
                updates@.len() == i,
                forall|j: int| 0 <= j < i ==> updates@[j] == updates_of(start, outcomes@)[j],
            decreases outcomes.len() - i,
        {
            let ghost id = outcomes@[i as int].target_model().identity;
            assert(self.reading(id) == record_all(start(id), id, outcomes@.take(i as int)));
            let update = self.apply(&outcomes[i]);
            updates.push(update);
            proof {
                assert(outcomes@.take(i + 1).drop_last() =~= outcomes@.take(i as int));
                assert(outcomes@.take(i + 1).last() == outcomes@[i as int]);
            }
            i += 1;
        }
        assert(outcomes@.take(i as int) =~= outcomes@);
        assert(updates@ =~= updates_of(start, outcomes@));
        updates
    }

    /// Number of replies recorded for an identity.
    pub fn successes(&self, identity: &str) -> (n: u64)
        requires
            self.wf(),
        ensures
            n == self.reading(identity@).successes,
    {
        match self.find(&String::from_str(identity)) {
            Some(i) => {
                proof {
                    self.lemma_first_series(identity@, i as int);
                }
                self.series[i].successes
            },
            None => 0,
        }
    }

    /// Number of lost probes recorded for an identity.
    pub fn timeouts(&self, identity: &str) -> (n: u64)
        requires
            self.wf(),
        ensures
            n == self.reading(identity@).timeouts,
    {
        match self.find(&String::from_str(identity)) {
            Some(i) => {
                proof {
                    self.lemma_first_series(identity@, i as int);
                }
                self.series[i].timeouts
            },
            None => 0,
        }
    }

    /// Sum of the round-trip times observed for an identity, in
    /// microseconds.
    pub fn sum_us(&self, identity: &str) -> (n: u64)
        requires
            self.wf(),
        ensures
            n == self.reading(identity@).sum_us,
    {
        match self.find(&String::from_str(identity)) {
            Some(i) => {
                proof {
                    self.lemma_first_series(identity@, i as int);
                }
                self.series[i].sum_us
            },
            None => 0,
        }
    }

    /// Cumulative count of bucket `bucket` of an identity's histogram.
    pub fn bucket_count(&self, identity: &str, bucket: usize) -> (n: u64)
        requires
            self.wf(),
            bucket < BUCKETS,
        ensures
            n == self.reading(identity@).buckets[bucket as int],
    {
        match self.find(&String::from_str(identity)) {
            Some(i) => {
                proof {
                    self.lemma_first_series(identity@, i as int);
                }
                self.series[i].buckets[bucket]
            },
            None => 0,
        }
    }

    /// The identities that have a series, in the order of their first
    /// outcome.
    pub fn identities(&self) -> (ids: Vec<String>)
        ensures
            ids@.map_values(|s: String| s@) == self.labels(),
    {
        let mut ids: Vec<String> = Vec::new();
        let mut i: usize = 0;
        while i < self.series.len()
            invariant
                i <= self.series@.len(),
                ids@.len() == i,
                forall|j: int| 0 <= j < i ==> (#[trigger] ids@[j])@ == self.series@[j].label(),
            decreases self.series@.len() - i,
        {
            ids.push(self.series[i].identity.clone());
            i += 1;
        }
        assert(ids@.map_values(|s: String| s@) =~= self.labels());
        ids
    }

    proof fn lemma_first_series(self, id: Seq<char>, i: int)
        requires
            self.wf(),
            0 <= i < self.series@.len(),
            self.series@[i].label() == id,
        ensures
            self.reading(id) == self.series@[i].reading(),
            self.reading(id).wf(),
    {
    }
}

/// The upper bound of bucket `i` in microseconds.
pub fn bound_us(i: usize) -> (bound: u64)
    requires
        i < BUCKETS - 1,
    ensures
        bound == bucket_bound(i as int),
{
    if i == 0 {
        0
    } else if i == 1 {
        100
    } else if i == 2 {
        250
    } else if i == 3 {
        500
    } else if i == 4 {
        1_000
    } else if i == 5 {
        2_000
    } else if i == 6 {
        5_000
    } else if i == 7 {
        10_000
    } else if i == 8 {
        50_000
    } else if i == 9 {
        100_000
    } else {
        200_000
    }
}

/// Whether a round-trip time counts towards bucket `i`.
pub fn within_bucket(rtt_us: u64, i: usize) -> (within: bool)
    ensures
        within == counts_towards(rtt_us, i as int),
{
    i >= BUCKETS - 1 || rtt_us <= bound_us(i)
}

fn raise(n: u64) -> (m: u64)
    ensures
        m == bump(n),
{
    if n < u64::MAX {
        n + 1
    } else {
        n
    }
}

} // verus!
