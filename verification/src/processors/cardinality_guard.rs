//! A budget of series per metric.

use std::collections::HashSet;
use vstd::prelude::*;

use crate::fingerprint;
use crate::strmap::Labels;

verus! {

/// `dashmap`'s concurrent map.
#[verifier::external_type_specification]
#[verifier::external_body]
#[verifier::reject_recursive_types(K)]
#[verifier::reject_recursive_types(V)]
#[verifier::reject_recursive_types(S)]
pub struct ExDashMap<K, V, S>(dashmap::DashMap<K, V, S>);

/// What the map holds: under each metric name, the fingerprints of its series.
pub uninterp spec fn series_of(
    m: dashmap::DashMap<String, HashSet<u64>>,
) -> Map<Seq<char>, Set<u64>>;

/// No metric has a series.
pub open spec fn no_series() -> Map<Seq<char>, Set<u64>> {
    Map::empty()
}

/// `dashmap::DashMap::new`: a map that holds nothing.
#[verifier::external_body]
fn empty_series() -> (r: dashmap::DashMap<String, HashSet<u64>>)
    ensures
        series_of(r) == no_series(),
{
    dashmap::DashMap::new()
}

/// `dashmap::DashMap::get`, and the length of the set found: how many
/// fingerprints the map holds under the name, none where the name is absent.
#[verifier::external_body]
fn series_len(m: &dashmap::DashMap<String, HashSet<u64>>, name: &str) -> (r: Option<usize>)
    ensures
        match r {
            Some(n) => series_of(*m).contains_key(name@) && series_of(*m)[name@].finite() && n
                == series_of(*m)[name@].len(),
            None => !series_of(*m).contains_key(name@),
        },
{
    m.get(name).map(|e| e.len())
}

/// `dashmap::DashMap::get`, and whether the set found has the fingerprint;
/// `false` where the name is absent.
#[verifier::external_body]
fn series_has(m: &dashmap::DashMap<String, HashSet<u64>>, name: &str, fp: u64) -> (r: bool)
    ensures
        r == (series_of(*m).contains_key(name@) && series_of(*m)[name@].contains(fp)),
{
    m.get(name).map(|e| e.contains(&fp)).unwrap_or(false)
}

/// `dashmap::DashMap::entry`, `or_default` and the insertion of the
/// fingerprint: the name's set, empty where the name was absent, has the
/// fingerprint afterwards, and the other names are as they were.
#[verifier::external_body]
fn series_add(m: &mut dashmap::DashMap<String, HashSet<u64>>, name: &str, fp: u64)
    ensures
        series_of(*final(m)) == series_of(*old(m)).insert(
            name@,
            fingerprints(series_of(*old(m)), name@).insert(fp),
        ),
{
    m.entry(name.to_owned()).or_default().insert(fp);
}

// ---------------------------------------------------------------------------
// Model
// ---------------------------------------------------------------------------

#[derive(Debug, Clone, Copy, PartialEq, Eq, Structural)]
pub enum Verdict {
    Allow,
    Drop,
}

/// The fingerprints of a metric's series, none where it is unknown.
pub open spec fn fingerprints(series: Map<Seq<char>, Set<u64>>, name: Seq<char>) -> Set<u64> {
    if series.contains_key(name) {
        series[name]
    } else {
        Set::empty()
    }
}

/// A known series is allowed, and a new one as long as the metric has fewer
/// than `max`.
pub open spec fn verdict(
    series: Map<Seq<char>, Set<u64>>,
    max: nat,
    name: Seq<char>,
    fp: u64,
) -> Verdict {
    if fingerprints(series, name).contains(fp) || fingerprints(series, name).len() < max {
        Verdict::Allow
    } else {
        Verdict::Drop
    }
}

/// The series after a signal was checked: those that are allowed are on
/// record.
pub open spec fn recorded(
    series: Map<Seq<char>, Set<u64>>,
    max: nat,
    name: Seq<char>,
    fp: u64,
) -> Map<Seq<char>, Set<u64>> {
    if !fingerprints(series, name).contains(fp) && verdict(series, max, name, fp)
        == Verdict::Allow {
        series.insert(name, fingerprints(series, name).insert(fp))
    } else {
        series
    }
}

/// No metric has more than `max` series on record.
pub open spec fn within_budget(series: Map<Seq<char>, Set<u64>>, max: nat) -> bool {
    forall|name: Seq<char>| #[trigger]
        series.contains_key(name) ==> series[name].finite() && series[name].len() <= max
}

// ---------------------------------------------------------------------------
// Laws
// ---------------------------------------------------------------------------

/// The budget is never exceeded: checking a signal keeps every metric at or
/// below `max` series.
pub proof fn law_budget_is_kept(
    series: Map<Seq<char>, Set<u64>>,
    max: nat,
    name: Seq<char>,
    fp: u64,
)
    requires
        within_budget(series, max),
    ensures
        within_budget(recorded(series, max, name, fp), max),
{
    let after = recorded(series, max, name, fp);
    assert forall|n: Seq<char>| #[trigger] after.contains_key(n) implies after[n].finite()
        && after[n].len() <= max by {
        if n != name {
            assert(series.contains_key(n));
        } else if series.contains_key(n) {
            assert(series[n].finite());
        }
    }
}

/// A series that was allowed once is allowed from then on, whatever other
/// series are checked in between.
pub proof fn law_known_series_stay_allowed(
    series: Map<Seq<char>, Set<u64>>,
    max: nat,
    name: Seq<char>,
    fp: u64,
    other_name: Seq<char>,
    other_fp: u64,
)
    requires
        verdict(series, max, name, fp) == Verdict::Allow,
    ensures
        ({
            let once = recorded(series, max, name, fp);
            let then = recorded(once, max, other_name, other_fp);
            &&& verdict(once, max, name, fp) == Verdict::Allow
            &&& fingerprints(once, name).contains(fp)
            &&& verdict(then, max, name, fp) == Verdict::Allow
            &&& fingerprints(then, name).contains(fp)
        }),
{
}

/// A dropped signal leaves no trace.
pub proof fn law_dropped_series_are_not_recorded(
    series: Map<Seq<char>, Set<u64>>,
    max: nat,
    name: Seq<char>,
    fp: u64,
)
    requires
        verdict(series, max, name, fp) == Verdict::Drop,
    ensures
        recorded(series, max, name, fp) == series,
{
}

/// A new series is allowed exactly as long as its metric has fewer series on
/// record than the budget; what other metrics have on record does not matter. A
/// known series is allowed however many there are.
pub proof fn law_the_budget_is_there_to_be_used(
    series: Map<Seq<char>, Set<u64>>,
    max: nat,
    name: Seq<char>,
    fp: u64,
)
    ensures
        !series.contains_key(name) && max > 0 ==> verdict(series, max, name, fp) == Verdict::Allow,
        !series.contains_key(name) && max == 0 ==> verdict(series, max, name, fp) == Verdict::Drop,
        series.contains_key(name) && series[name].contains(fp) ==> verdict(series, max, name, fp)
            == Verdict::Allow,
        series.contains_key(name) && !series[name].contains(fp) ==> (verdict(series, max, name, fp)
            == Verdict::Allow <==> series[name].len() < max),
        series.contains_key(name) ==> fingerprints(series, name) == series[name],
        !series.contains_key(name) ==> fingerprints(series, name) == Set::<u64>::empty(),
{
}

/// Checking a series touches the record of its own metric only: there it is
/// added, if it is allowed, to what was on record.
pub proof fn law_each_metric_has_its_own_record(
    series: Map<Seq<char>, Set<u64>>,
    max: nat,
    name: Seq<char>,
    fp: u64,
    other: Seq<char>,
)
    ensures
        other != name ==> fingerprints(recorded(series, max, name, fp), other) == fingerprints(
            series,
            other,
        ),
        verdict(series, max, name, fp) == Verdict::Allow ==> fingerprints(
            recorded(series, max, name, fp),
            name,
        ) == fingerprints(series, name).insert(fp),
{
    if fingerprints(series, name).contains(fp) {
        assert(fingerprints(series, name).insert(fp) =~= fingerprints(series, name));
    }
}

// ---------------------------------------------------------------------------
// Guard
// ---------------------------------------------------------------------------

/// Tracks unique label combinations per metric name and drops signals that
/// would push a metric over `max_series_per_metric`.
///
/// This protects the tenant's budget from label explosions (e.g. a
/// high-cardinality `user_id` label accidentally applied to a counter).
#[derive(Debug)]
pub struct CardinalityGuard {
    max: usize,
    // metric name to set of label fingerprints
    series: dashmap::DashMap<String, HashSet<u64>>,
}

impl CardinalityGuard {
    /// The series on record.
    pub closed spec fn series(&self) -> Map<Seq<char>, Set<u64>> {
        series_of(self.series)
    }

    /// The budget of each metric.
    pub closed spec fn max(&self) -> usize {
        self.max
    }

    pub fn new(max_series_per_metric: usize) -> (r: Self)
        ensures
            r.max() == max_series_per_metric,
            r.series() == no_series(),
    {
        CardinalityGuard { max: max_series_per_metric, series: empty_series() }
    }

    /// The budget of each metric.
    pub fn max_series(&self) -> (r: usize)
        ensures
            r == self.max(),
    {
        self.max
    }

    /// Checks a series by its fingerprint, and puts it on record if it is
    /// allowed.
    pub fn check_fingerprint(&mut self, metric_name: &str, fp: u64) -> (r: Verdict)
        ensures
            r == verdict(old(self).series(), old(self).max() as nat, metric_name@, fp),
            final(self).series() == recorded(
                old(self).series(),
                old(self).max() as nat,
                metric_name@,
                fp,
            ),
            final(self).max() == old(self).max(),
    {
        if series_has(&self.series, metric_name, fp) {
            return Verdict::Allow;
        }
        let count: usize = match series_len(&self.series, metric_name) {
            Some(n) => n,
            None => 0,
        };
        if count >= self.max {
            return Verdict::Drop;
        }
        series_add(&mut self.series, metric_name, fp);
        Verdict::Allow
    }

    /// Checks the series of a signal, and puts it on record if it is allowed.
    pub fn check_and_record(&mut self, metric_name: &str, labels: &Labels) -> (r: Verdict)
        ensures
            r == verdict(
                old(self).series(),
                old(self).max() as nat,
                metric_name@,
                fingerprint::fingerprint_of(labels@),
            ),
            final(self).series() == recorded(
                old(self).series(),
                old(self).max() as nat,
                metric_name@,
                fingerprint::fingerprint_of(labels@),
            ),
            final(self).max() == old(self).max(),
    {
        let fp: u64 = fingerprint::fingerprint(labels);
        self.check_fingerprint(metric_name, fp)
    }

    /// Current series count for a metric (for inspector / debug UI)
    pub fn series_count(&self, metric_name: &str) -> (r: usize)
        ensures
            r == fingerprints(self.series(), metric_name@).len(),
    {
        match series_len(&self.series, metric_name) {
            Some(n) => n,
            None => 0,
        }
    }
}

/// A guard begins with nothing on record, and a record is within the budget
/// exactly when no metric has more series than that.
pub proof fn law_the_budget_is_the_most_there_may_be(
    series: Map<Seq<char>, Set<u64>>,
    max: nat,
)
    ensures
        no_series() == Map::<Seq<char>, Set<u64>>::empty(),
        within_budget(no_series(), max),
        within_budget(series, max) <==> forall|name: Seq<char>| #[trigger]
            series.contains_key(name) ==> series[name].finite() && series[name].len() <= max,
{
}

} // verus!
