//! What the live debugger shows: recent signals, throughput, drops with their
//! reasons, the pipeline graph and the linter's findings.

use std::collections::HashSet;
use std::collections::VecDeque;
use vstd::prelude::*;

use crate::fingerprint;
use crate::lint;
use crate::lint::FindingView;
use crate::lint::LintFinding;
use crate::number;
use crate::signal;
use crate::signal::LogView;
use crate::signal::MetricView;
use crate::signal::Reading;
use crate::signal::ReadingView;
use crate::signal::Signal;
use crate::signal::SignalView;
use crate::strmap;
use crate::strmap::Duplicate;
use crate::strmap::Labels;
use crate::strmap::StrMap;
use crate::text;

verus! {

broadcast use vstd::std_specs::hash::group_hash_axioms;

/// The number of signals that are remembered.
pub const MAX_EVENTS: usize = 500;

/// The number of drops that are remembered.
pub const MAX_DROPS: usize = 300;

/// Cap on fingerprints tracked per metric for the live cardinality sampler.
pub const CARDINALITY_SAMPLE_CAP: usize = 5000;

/// Observed series count from which a metric is flagged as a cardinality risk.
pub const CARDINALITY_WARN_THRESHOLD: usize = 200;

/// The number of signals that are shown.
pub const SHOWN_EVENTS: usize = 200;

/// The number of drops that are shown.
pub const SHOWN_DROPS: usize = 100;

/// The number of characters of a log line that are shown as its name.
pub const SHOWN_LINE: usize = 80;

// ---------------------------------------------------------------------------
// Records
// ---------------------------------------------------------------------------

#[derive(Debug)]
pub struct InspectorEvent {
    pub kind: String,
    pub name: String,
    pub value: Option<Reading>,
    pub labels: Labels,
    pub ts_ms: i64,
}

/// What an `InspectorEvent` holds.
pub struct EventView {
    pub kind: Seq<char>,
    pub name: Seq<char>,
    pub value: Option<ReadingView>,
    pub labels: Map<Seq<char>, Seq<char>>,
    pub ts_ms: i64,
}

impl View for InspectorEvent {
    type V = EventView;

    open spec fn view(&self) -> EventView {
        EventView {
            kind: self.kind@,
            name: self.name@,
            value: match self.value {
                Some(v) => Some(v@),
                None => None,
            },
            labels: self.labels@,
            ts_ms: self.ts_ms,
        }
    }
}

impl Clone for InspectorEvent {
    fn clone(&self) -> (r: Self)
        ensures
            r@ == self@,
    {
        InspectorEvent {
            kind: self.kind.clone(),
            name: self.name.clone(),
            value: match &self.value {
                Some(v) => Some(v.clone()),
                None => None,
            },
            labels: self.labels.clone(),
            ts_ms: self.ts_ms,
        }
    }
}

/// Signals taken in by one source.
#[derive(Debug, Clone, Copy, PartialEq, Eq, Structural)]
pub struct SourceStat {
    pub metrics: u64,
    pub logs: u64,
    pub traces: u64,
}

impl Default for SourceStat {
    fn default() -> (r: Self)
        ensures
            r == no_source_stat(),
    {
        SourceStat { metrics: 0, logs: 0, traces: 0 }
    }
}

/// The count of a source that has taken in nothing.
pub open spec fn no_source_stat() -> SourceStat {
    SourceStat { metrics: 0, logs: 0, traces: 0 }
}

impl View for SourceStat {
    type V = SourceStat;

    open spec fn view(&self) -> SourceStat {
        *self
    }
}

impl Duplicate for SourceStat {
    fn duplicate(&self) -> (r: Self) {
        *self
    }
}

/// A signal that was dropped by a processor stage, with the reason: powers
/// the live debugger's "why isn't this metric showing up?" flow.
#[derive(Debug)]
pub struct DropEvent {
    pub kind: String,
    pub name: String,
    pub labels: Labels,
    pub stage: String,
    pub reason: String,
    pub ts_ms: i64,
}

/// What a `DropEvent` holds.
pub struct DropView {
    pub kind: Seq<char>,
    pub name: Seq<char>,
    pub labels: Map<Seq<char>, Seq<char>>,
    pub stage: Seq<char>,
    pub reason: Seq<char>,
    pub ts_ms: i64,
}

impl View for DropEvent {
    type V = DropView;

    open spec fn view(&self) -> DropView {
        DropView {
            kind: self.kind@,
            name: self.name@,
            labels: self.labels@,
            stage: self.stage@,
            reason: self.reason@,
            ts_ms: self.ts_ms,
        }
    }
}

impl Clone for DropEvent {
    fn clone(&self) -> (r: Self)
        ensures
            r@ == self@,
    {
        DropEvent {
            kind: self.kind.clone(),
            name: self.name.clone(),
            labels: self.labels.clone(),
            stage: self.stage.clone(),
            reason: self.reason.clone(),
            ts_ms: self.ts_ms,
        }
    }
}

/// Throughput counters for one pipeline stage.
#[derive(Debug, Clone, Copy, PartialEq, Eq, Structural)]
pub struct StageStat {
    pub passed: u64,
    pub dropped: u64,
}

impl Default for StageStat {
    fn default() -> (r: Self)
        ensures
            r == no_stage_stat(),
    {
        StageStat { passed: 0, dropped: 0 }
    }
}

/// The counters of a stage that no signal has reached.
pub open spec fn no_stage_stat() -> StageStat {
    StageStat { passed: 0, dropped: 0 }
}

impl View for StageStat {
    type V = StageStat;

    open spec fn view(&self) -> StageStat {
        *self
    }
}

impl Duplicate for StageStat {
    fn duplicate(&self) -> (r: Self) {
        *self
    }
}

#[derive(Debug)]
pub struct TopoNode {
    pub id: String,
    /// "source" | "processor" | "target"
    pub kind: String,
    pub label: String,
}

/// What a `TopoNode` holds.
pub struct NodeView {
    pub id: Seq<char>,
    pub kind: Seq<char>,
    pub label: Seq<char>,
}

impl View for TopoNode {
    type V = NodeView;

    open spec fn view(&self) -> NodeView {
        NodeView { id: self.id@, kind: self.kind@, label: self.label@ }
    }
}

impl Clone for TopoNode {
    fn clone(&self) -> (r: Self)
        ensures
            r@ == self@,
    {
        TopoNode { id: self.id.clone(), kind: self.kind.clone(), label: self.label.clone() }
    }
}

#[derive(Debug)]
pub struct TopoEdge {
    pub from: String,
    pub to: String,
}

/// What a `TopoEdge` holds.
pub struct EdgeView {
    pub from: Seq<char>,
    pub to: Seq<char>,
}

impl View for TopoEdge {
    type V = EdgeView;

    open spec fn view(&self) -> EdgeView {
        EdgeView { from: self.from@, to: self.to@ }
    }
}

impl Clone for TopoEdge {
    fn clone(&self) -> (r: Self)
        ensures
            r@ == self@,
    {
        TopoEdge { from: self.from.clone(), to: self.to.clone() }
    }
}

/// What the nodes of a row hold.
pub open spec fn node_views(nodes: Seq<TopoNode>) -> Seq<NodeView> {
    nodes.map_values(|n: TopoNode| n@)
}

/// What the edges of a row hold.
pub open spec fn edge_views(edges: Seq<TopoEdge>) -> Seq<EdgeView> {
    edges.map_values(|e: TopoEdge| e@)
}

#[derive(Debug)]
pub struct Topology {
    pub nodes: Vec<TopoNode>,
    pub edges: Vec<TopoEdge>,
}

/// What a `Topology` holds.
pub struct TopologyView {
    pub nodes: Seq<NodeView>,
    pub edges: Seq<EdgeView>,
}

impl View for Topology {
    type V = TopologyView;

    open spec fn view(&self) -> TopologyView {
        TopologyView { nodes: node_views(self.nodes@), edges: edge_views(self.edges@) }
    }
}

impl Default for Topology {
    fn default() -> (r: Self)
        ensures
            r@.nodes.len() == 0,
            r@.edges.len() == 0,
    {
        Topology { nodes: Vec::new(), edges: Vec::new() }
    }
}

impl Clone for Topology {
    fn clone(&self) -> (r: Self)
        ensures
            r@ == self@,
    {
        let mut nodes: Vec<TopoNode> = Vec::new();
        let mut i: usize = 0;
        while i < self.nodes.len()
            invariant
                i <= self.nodes@.len(),
                nodes@.len() == i,
                forall|j: int| 0 <= j < i ==> (#[trigger] nodes@[j])@ == self.nodes@[j]@,
            decreases self.nodes@.len() - i,
        {
            nodes.push(self.nodes[i].clone());
            i = i + 1;
        }
        let mut edges: Vec<TopoEdge> = Vec::new();
        let mut k: usize = 0;
        while k < self.edges.len()
            invariant
                k <= self.edges@.len(),
                edges@.len() == k,
                forall|j: int| 0 <= j < k ==> (#[trigger] edges@[j])@ == self.edges@[j]@,
            decreases self.edges@.len() - k,
        {
            edges.push(self.edges[k].clone());
            k = k + 1;
        }
        assert(node_views(nodes@) =~= node_views(self.nodes@));
        assert(edge_views(edges@) =~= edge_views(self.edges@));
        Topology { nodes, edges }
    }
}

/// Combined pipeline view returned to the debugger UI.
#[derive(Debug)]
pub struct PipelineView {
    pub nodes: Vec<TopoNode>,
    pub edges: Vec<TopoEdge>,
    pub stages: StrMap<StageStat>,
    pub sources: StrMap<SourceStat>,
}

// ---------------------------------------------------------------------------
// Model
// ---------------------------------------------------------------------------

/// What the inspector remembers.
pub struct InspectorView {
    pub events: Seq<EventView>,
    pub sources: Map<Seq<char>, SourceStat>,
    pub drops: Seq<DropView>,
    pub stages: Map<Seq<char>, StageStat>,
    pub topology: TopologyView,
    pub lint: Seq<FindingView>,
    /// Under each metric name, a sample of the fingerprints of its series.
    pub observed: Map<Seq<char>, Set<u64>>,
}

/// The inspector before anything was recorded.
pub open spec fn blank() -> InspectorView {
    InspectorView {
        events: Seq::empty(),
        sources: Map::empty(),
        drops: Seq::empty(),
        stages: Map::empty(),
        topology: TopologyView { nodes: Seq::empty(), edges: Seq::empty() },
        lint: Seq::empty(),
        observed: Map::empty(),
    }
}

/// What is remembered of a signal that went through.
pub open spec fn event_of(s: SignalView) -> EventView {
    match s {
        SignalView::Metric(m) => EventView {
            kind: "metric"@,
            name: m.name,
            value: Some(m.value),
            labels: m.labels,
            ts_ms: m.timestamp_ms,
        },
        SignalView::Log(l) => EventView {
            kind: "log"@,
            name: text::head(l.line, SHOWN_LINE as nat),
            value: None,
            labels: l.labels,
            ts_ms: signal::ns_to_ms(l.timestamp_ns) as i64,
        },
    }
}

/// What is remembered of a signal that was dropped.
pub open spec fn drop_of(s: SignalView, stage: Seq<char>, reason: Seq<char>) -> DropView {
    let e = event_of(s);
    DropView { kind: e.kind, name: e.name, labels: e.labels, stage, reason, ts_ms: e.ts_ms }
}

/// A row with one more item at its end; the first gives way where that makes
/// it longer than `cap`.
pub open spec fn ring_pushed<T>(ring: Seq<T>, item: T, cap: nat) -> Seq<T> {
    let all = ring.push(item);
    if all.len() > cap {
        all.skip(1)
    } else {
        all
    }
}

/// The series of a metric that are sampled.
pub open spec fn sampled(observed: Map<Seq<char>, Set<u64>>, name: Seq<char>) -> Set<u64> {
    if observed.contains_key(name) {
        observed[name]
    } else {
        Set::empty()
    }
}

/// The sample after a metric was seen with a label set.
pub open spec fn resampled(
    observed: Map<Seq<char>, Set<u64>>,
    name: Seq<char>,
    fp: u64,
) -> Map<Seq<char>, Set<u64>> {
    observed.insert(
        name,
        if sampled(observed, name).len() < CARDINALITY_SAMPLE_CAP {
            sampled(observed, name).insert(fp)
        } else {
            sampled(observed, name)
        },
    )
}

/// The counters of a stage.
pub open spec fn stage_stat(stages: Map<Seq<char>, StageStat>, stage: Seq<char>) -> StageStat {
    if stages.contains_key(stage) {
        stages[stage]
    } else {
        no_stage_stat()
    }
}

/// The count of a source.
pub open spec fn source_stat(sources: Map<Seq<char>, SourceStat>, source: Seq<char>) -> SourceStat {
    if sources.contains_key(source) {
        sources[source]
    } else {
        no_source_stat()
    }
}

/// One more signal of a kind.
pub open spec fn counted(stat: SourceStat, kind: Seq<char>) -> SourceStat {
    SourceStat {
        metrics: if kind == "metric"@ {
            (stat.metrics + 1) as u64
        } else {
            stat.metrics
        },
        logs: if kind == "log"@ {
            (stat.logs + 1) as u64
        } else {
            stat.logs
        },
        traces: if kind == "trace"@ {
            (stat.traces + 1) as u64
        } else {
            stat.traces
        },
    }
}

impl InspectorView {
    /// After a signal went through.
    pub open spec fn signal_recorded(self, s: SignalView) -> InspectorView {
        InspectorView {
            events: ring_pushed(self.events, event_of(s), MAX_EVENTS as nat),
            observed: match s {
                SignalView::Metric(m) => resampled(
                    self.observed,
                    m.name,
                    fingerprint::fingerprint_of(m.labels),
                ),
                SignalView::Log(_) => self.observed,
            },
            ..self
        }
    }

    /// After a source took in a signal of a kind.
    pub open spec fn source_recorded(self, source: Seq<char>, kind: Seq<char>) -> InspectorView {
        InspectorView {
            sources: self.sources.insert(source, counted(source_stat(self.sources, source), kind)),
            ..self
        }
    }

    /// After a signal passed a stage.
    pub open spec fn pass_recorded(self, stage: Seq<char>) -> InspectorView {
        let stat = stage_stat(self.stages, stage);
        InspectorView {
            stages: self.stages.insert(
                stage,
                StageStat { passed: (stat.passed + 1) as u64, ..stat },
            ),
            ..self
        }
    }

    /// After a stage dropped a signal.
    pub open spec fn drop_recorded(
        self,
        s: SignalView,
        stage: Seq<char>,
        reason: Seq<char>,
    ) -> InspectorView {
        let stat = stage_stat(self.stages, stage);
        InspectorView {
            stages: self.stages.insert(
                stage,
                StageStat { dropped: (stat.dropped + 1) as u64, ..stat },
            ),
            drops: ring_pushed(self.drops, drop_of(s, stage, reason), MAX_DROPS as nat),
            ..self
        }
    }

    /// Every counter can go up by `n`.
    pub open spec fn has_room(self, n: nat) -> bool {
        &&& forall|k: Seq<char>| #[trigger]
            self.stages.contains_key(k) ==> self.stages[k].passed + n <= u64::MAX
                && self.stages[k].dropped + n <= u64::MAX
        &&& forall|k: Seq<char>| #[trigger]
            self.sources.contains_key(k) ==> self.sources[k].metrics + n <= u64::MAX
                && self.sources[k].logs + n <= u64::MAX && self.sources[k].traces + n <= u64::MAX
    }

    /// No more is remembered than there is room for.
    pub open spec fn is_bounded(self) -> bool {
        &&& self.events.len() <= MAX_EVENTS
        &&& self.drops.len() <= MAX_DROPS
        &&& forall|k: Seq<char>| #[trigger]
            self.observed.contains_key(k) ==> self.observed[k].finite() && self.observed[k].len()
                <= CARDINALITY_SAMPLE_CAP
    }
}

/// The last items of a row, the newest first, no more than `n`.
pub open spec fn newest<T>(s: Seq<T>, n: nat) -> Seq<T> {
    Seq::new(
        if s.len() < n {
            s.len()
        } else {
            n
        },
        |i: int| s[s.len() - 1 - i],
    )
}

/// Whether a drop's name holds the text that is looked for, if one is.
pub open spec fn is_wanted(d: DropView, name_filter: Option<Seq<char>>) -> bool {
    match name_filter {
        Some(n) => text::contains(d.name, n),
        None => true,
    }
}

/// The drops that are looked for, the newest first.
pub open spec fn wanted(drops: Seq<DropView>, name_filter: Option<Seq<char>>) -> Seq<DropView>
    decreases drops.len(),
{
    if drops.len() == 0 {
        Seq::empty()
    } else if is_wanted(drops.last(), name_filter) {
        seq![drops.last()] + wanted(drops.drop_last(), name_filter)
    } else {
        wanted(drops.drop_last(), name_filter)
    }
}

/// The first items of a row, no more than `n`.
pub open spec fn first<T>(s: Seq<T>, n: nat) -> Seq<T> {
    if s.len() <= n {
        s
    } else {
        s.take(n as int)
    }
}

/// The warning about a metric with many series.
pub open spec fn hotspot(metric: Seq<char>, series: nat) -> FindingView {
    lint::warning_of(
        "metric:"@ + metric,
        "Observed "@ + number::dec(series) + " distinct series for "@ + metric
            + " in the live sample — this is a cardinality hotspot. Consider dropping a high-cardinality label with a relabel or transform rule."@,
    )
}

/// `metrics` are the metrics with many series, each once.
pub open spec fn are_hotspots(
    observed: Map<Seq<char>, Set<u64>>,
    metrics: Seq<Seq<char>>,
) -> bool {
    &&& metrics.no_duplicates()
    &&& forall|m: Seq<char>| #[trigger]
        metrics.contains(m) <==> observed.contains_key(m) && observed[m].len()
            >= CARDINALITY_WARN_THRESHOLD
}

/// The warnings about metrics with many series.
pub open spec fn hotspots(
    observed: Map<Seq<char>, Set<u64>>,
    metrics: Seq<Seq<char>>,
) -> Seq<FindingView> {
    metrics.map_values(|m: Seq<char>| hotspot(m, observed[m].len()))
}

// ---------------------------------------------------------------------------
// Laws
// ---------------------------------------------------------------------------

/// The inspector's memory is bounded: whatever is recorded, it remembers no
/// more signals, drops and sampled series than there is room for.
pub proof fn law_inspector_stays_bounded(
    v: InspectorView,
    s: SignalView,
    stage: Seq<char>,
    reason: Seq<char>,
    source: Seq<char>,
    kind: Seq<char>,
)
    requires
        v.is_bounded(),
    ensures
        v.signal_recorded(s).is_bounded(),
        v.drop_recorded(s, stage, reason).is_bounded(),
        v.pass_recorded(stage).is_bounded(),
        v.source_recorded(source, kind).is_bounded(),
        blank().is_bounded(),
{
    if let SignalView::Metric(m) = s {
        if v.observed.contains_key(m.name) {
            assert(v.observed[m.name].finite());
        }
        let after = v.signal_recorded(s);
        assert forall|k: Seq<char>| #[trigger] after.observed.contains_key(
            k,
        ) implies after.observed[k].finite() && after.observed[k].len()
            <= CARDINALITY_SAMPLE_CAP by {
            if k != m.name {
                assert(v.observed.contains_key(k));
            }
        }
    }
}

/// The newest signal is always remembered, and comes first.
pub proof fn law_newest_event_is_shown_first(v: InspectorView, s: SignalView)
    requires
        v.is_bounded(),
    ensures
        ({
            let shown = newest(v.signal_recorded(s).events, SHOWN_EVENTS as nat);
            shown.len() > 0 && shown[0] == event_of(s)
        }),
{
}

/// A drop is always remembered with its stage and reason, and found by any
/// part of its name.
pub proof fn law_newest_drop_is_explained(
    v: InspectorView,
    s: SignalView,
    stage: Seq<char>,
    reason: Seq<char>,
    part: Seq<char>,
)
    requires
        v.is_bounded(),
        text::contains(drop_of(s, stage, reason).name, part),
    ensures
        ({
            let shown = first(
                wanted(v.drop_recorded(s, stage, reason).drops, Some(part)),
                SHOWN_DROPS as nat,
            );
            shown.len() > 0 && shown[0] == drop_of(s, stage, reason)
        }),
{
    let drops = v.drop_recorded(s, stage, reason).drops;
    assert(drops.last() == drop_of(s, stage, reason));
    assert(wanted(drops, Some(part))[0] == drops.last());
}

/// A metric that was seen with many series is among the findings, with the
/// number of its series.
pub proof fn law_hotspots_are_reported(
    v: InspectorView,
    metrics: Seq<Seq<char>>,
    metric: Seq<char>,
)
    requires
        are_hotspots(v.observed, metrics),
        v.observed.contains_key(metric),
        v.observed[metric].len() >= CARDINALITY_WARN_THRESHOLD,
    ensures
        (v.lint + hotspots(v.observed, metrics)).contains(
            hotspot(metric, v.observed[metric].len()),
        ),
{
    let findings = v.lint + hotspots(v.observed, metrics);
    assert(metrics.contains(metric));
    let at = choose|j: int| 0 <= j < metrics.len() && metrics[j] == metric;
    assert(findings[v.lint.len() + at] == hotspot(metric, v.observed[metric].len()));
}

/// Recording one signal takes one off the room of the counters, at most.
pub proof fn law_room_shrinks_by_one(
    v: InspectorView,
    s: SignalView,
    stage: Seq<char>,
    reason: Seq<char>,
    source: Seq<char>,
    kind: Seq<char>,
    n: nat,
)
    requires
        v.has_room(n + 1),
        n + 1 <= u64::MAX,
    ensures
        v.signal_recorded(s).has_room(n),
        v.drop_recorded(s, stage, reason).has_room(n),
        v.pass_recorded(stage).has_room(n),
        v.source_recorded(source, kind).has_room(n),
{
    assert forall|k: Seq<char>| #[trigger] v.stages.contains_key(k) implies v.stages[k].passed + n
        < u64::MAX && v.stages[k].dropped + n < u64::MAX by {}
    assert forall|k: Seq<char>| #[trigger] v.sources.contains_key(k) implies v.sources[k].metrics
        + n < u64::MAX && v.sources[k].logs + n < u64::MAX && v.sources[k].traces + n
        < u64::MAX by {}
    let a = v.drop_recorded(s, stage, reason);
    assert forall|k: Seq<char>| #[trigger] a.stages.contains_key(k) implies a.stages[k].passed + n
        <= u64::MAX && a.stages[k].dropped + n <= u64::MAX by {
        if k != stage {
            assert(v.stages.contains_key(k));
        }
    }
    let b = v.pass_recorded(stage);
    assert forall|k: Seq<char>| #[trigger] b.stages.contains_key(k) implies b.stages[k].passed + n
        <= u64::MAX && b.stages[k].dropped + n <= u64::MAX by {
        if k != stage {
            assert(v.stages.contains_key(k));
        }
    }
    let c = v.source_recorded(source, kind);
    assert forall|k: Seq<char>| #[trigger] c.sources.contains_key(k) implies c.sources[k].metrics
        + n <= u64::MAX && c.sources[k].logs + n <= u64::MAX && c.sources[k].traces + n
        <= u64::MAX by {
        if k != source {
            assert(v.sources.contains_key(k));
        }
    }
}

/// What is remembered of a metric is its name, its value, its labels and its
/// time, and of a log the beginning of its line, its labels and its time in
/// milliseconds. Of a drop it is the same, with the stage and the reason.
pub proof fn law_events_say_what_went_through(
    m: MetricView,
    l: LogView,
    stage: Seq<char>,
    reason: Seq<char>,
)
    ensures
        ({
            let e = event_of(SignalView::Metric(m));
            &&& e.kind == "metric"@
            &&& e.name == m.name
            &&& e.value == Some(m.value)
            &&& e.labels == m.labels
            &&& e.ts_ms == m.timestamp_ms
        }),
        ({
            let e = event_of(SignalView::Log(l));
            &&& e.kind == "log"@
            &&& l.line.len() <= 80 ==> e.name == l.line
            &&& l.line.len() > 80 ==> e.name == l.line.take(80)
            &&& e.value is None
            &&& e.labels == l.labels
            &&& e.ts_ms == number::trunc_div(l.timestamp_ns as int, 1_000_000) as i64
        }),
        forall|s: SignalView|
            {
                let d = #[trigger] drop_of(s, stage, reason);
                &&& d.kind == event_of(s).kind
                &&& d.name == event_of(s).name
                &&& d.labels == event_of(s).labels
                &&& d.ts_ms == event_of(s).ts_ms
                &&& d.stage == stage
                &&& d.reason == reason
            },
{
}

/// Of a row with one more item the newest are kept, in their order, as many as
/// there is room for; none gives way while there is room.
pub proof fn law_the_newest_are_kept<T>(ring: Seq<T>, item: T, cap: nat)
    requires
        ring.len() <= cap,
        cap > 0,
    ensures
        ring.len() < cap ==> ring_pushed(ring, item, cap) == ring.push(item),
        ring.len() == cap ==> ring_pushed(ring, item, cap) == ring.skip(1).push(item),
{
    if ring.len() > 0 {
        assert(ring.push(item).skip(1) =~= ring.skip(1).push(item));
    }
}

/// How much is remembered and shown.
pub proof fn law_so_much_is_remembered(v: InspectorView, s: SignalView)
    ensures
        v.events.len() < 500 ==> v.signal_recorded(s).events == v.events.push(event_of(s)),
        v.events.len() == 500 ==> v.signal_recorded(s).events.len() == 500,
        forall|stage: Seq<char>, reason: Seq<char>|
            v.drops.len() < 300 ==> #[trigger] v.drop_recorded(s, stage, reason).drops
                == v.drops.push(drop_of(s, stage, reason)),
        forall|stage: Seq<char>, reason: Seq<char>|
            v.drops.len() == 300 ==> (#[trigger] v.drop_recorded(s, stage, reason)).drops.len()
                == 300,
        SHOWN_EVENTS == 200,
        SHOWN_DROPS == 100,
{
}

/// Each series that a metric is seen with is sampled, as long as there is room
/// for it; the samples of other metrics stay as they were, and logs are not
/// sampled.
pub proof fn law_series_are_sampled(
    v: InspectorView,
    m: MetricView,
    l: LogView,
    other: Seq<char>,
)
    ensures
        ({
            let after = v.signal_recorded(SignalView::Metric(m)).observed;
            let fp = fingerprint::fingerprint_of(m.labels);
            &&& after.contains_key(m.name)
            &&& sampled(v.observed, m.name).len() < 5000 ==> after[m.name] == sampled(
                v.observed,
                m.name,
            ).insert(fp)
            &&& sampled(v.observed, m.name).len() >= 5000 ==> after[m.name] == sampled(
                v.observed,
                m.name,
            )
            &&& other != m.name ==> (after.contains_key(other) <==> v.observed.contains_key(other))
            &&& other != m.name && v.observed.contains_key(other) ==> after[other]
                == v.observed[other]
        }),
        v.signal_recorded(SignalView::Log(l)).observed == v.observed,
        v.observed.contains_key(other) ==> sampled(v.observed, other) == v.observed[other],
        !v.observed.contains_key(other) ==> sampled(v.observed, other) == Set::<u64>::empty(),
{
}

/// A source counts its signals by their kind, and each source for itself.
pub proof fn law_sources_count_by_kind(
    v: InspectorView,
    source: Seq<char>,
    kind: Seq<char>,
    other: Seq<char>,
)
    ensures
        ({
            let before = source_stat(v.sources, source);
            let after = source_stat(v.source_recorded(source, kind).sources, source);
            &&& kind == "metric"@ && before.metrics < u64::MAX ==> after == (SourceStat {
                metrics: (before.metrics + 1) as u64,
                ..before
            })
            &&& kind == "log"@ && before.logs < u64::MAX ==> after == (SourceStat {
                logs: (before.logs + 1) as u64,
                ..before
            })
            &&& kind == "trace"@ && before.traces < u64::MAX ==> after == (SourceStat {
                traces: (before.traces + 1) as u64,
                ..before
            })
            &&& other != source ==> source_stat(v.source_recorded(source, kind).sources, other)
                == source_stat(v.sources, other)
            &&& !v.sources.contains_key(other) ==> source_stat(v.sources, other) == (SourceStat {
                metrics: 0,
                logs: 0,
                traces: 0,
            })
            &&& v.sources.contains_key(other) ==> source_stat(v.sources, other) == v.sources[other]
        }),
        v.source_recorded(source, kind) == (InspectorView {
            sources: v.source_recorded(source, kind).sources,
            ..v
        }),
{
    reveal_strlit("metric");
    reveal_strlit("log");
    reveal_strlit("trace");
    assert("metric"@.len() == 6 && "log"@.len() == 3 && "trace"@.len() == 5);
}

/// A stage counts what passes it and what it drops, each stage for itself.
pub proof fn law_stages_count_passes_and_drops(
    v: InspectorView,
    s: SignalView,
    stage: Seq<char>,
    reason: Seq<char>,
    other: Seq<char>,
)
    ensures
        ({
            let before = stage_stat(v.stages, stage);
            let passed = v.pass_recorded(stage);
            let dropped = v.drop_recorded(s, stage, reason);
            &&& before.passed < u64::MAX ==> stage_stat(passed.stages, stage) == (StageStat {
                passed: (before.passed + 1) as u64,
                dropped: before.dropped,
            })
            &&& before.dropped < u64::MAX ==> stage_stat(dropped.stages, stage) == (StageStat {
                passed: before.passed,
                dropped: (before.dropped + 1) as u64,
            })
            &&& other != stage ==> stage_stat(passed.stages, other) == stage_stat(v.stages, other)
            &&& other != stage ==> stage_stat(dropped.stages, other) == stage_stat(v.stages, other)
            &&& passed == (InspectorView { stages: passed.stages, ..v })
            &&& dropped == (InspectorView { stages: dropped.stages, drops: dropped.drops, ..v })
            &&& !v.stages.contains_key(other) ==> stage_stat(v.stages, other) == (StageStat {
                passed: 0,
                dropped: 0,
            })
            &&& v.stages.contains_key(other) ==> stage_stat(v.stages, other) == v.stages[other]
        }),
        v.signal_recorded(s) == (InspectorView {
            events: v.signal_recorded(s).events,
            observed: v.signal_recorded(s).observed,
            ..v
        }),
{
}

/// The newest items are shown in turn, the newest first, up to the limit; and the
/// first items of a row are its beginning.
pub proof fn law_the_newest_are_shown_first<T>(s: Seq<T>, n: nat)
    ensures
        newest(s, n).len() == (if s.len() < n {
            s.len()
        } else {
            n
        }),
        forall|i: int|
            0 <= i < newest(s, n).len() ==> #[trigger] newest(s, n)[i] == s[s.len() - 1 - i],
        first(s, n).len() == (if s.len() < n {
            s.len()
        } else {
            n
        }),
        forall|i: int| 0 <= i < first(s, n).len() ==> #[trigger] first(s, n)[i] == s[i],
{
}

/// The drops that are looked for are all those whose name holds the text, or all
/// of them, the newest first.
pub proof fn law_every_wanted_drop_is_found(
    drops: Seq<DropView>,
    name_filter: Option<Seq<char>>,
)
    ensures
        name_filter is None ==> wanted(drops, name_filter) == drops.reverse(),
        name_filter matches Some(part) ==> wanted(drops, name_filter) == drops.filter(
            |d: DropView| text::contains(d.name, part),
        ).reverse(),
    decreases drops.len(),
{
    reveal(Seq::filter);
    if drops.len() > 0 {
        let front = drops.drop_last();
        law_every_wanted_drop_is_found(front, name_filter);
        if name_filter is None {
            assert(wanted(drops, name_filter) =~= drops.reverse());
        } else {
            let part = name_filter->0;
            let keep = |d: DropView| text::contains(d.name, part);
            assert(wanted(drops, name_filter) =~= drops.filter(keep).reverse());
        }
    } else {
        assert(wanted(drops, name_filter) =~= drops.reverse());
        if let Some(part) = name_filter {
            let keep = |d: DropView| text::contains(d.name, part);
            assert(wanted(drops, name_filter) =~= drops.filter(keep).reverse());
        }
    }
}

/// The metrics that are warned of are just those with two hundred series or more
/// in the sample, each once, with the number of their series.
pub proof fn law_hotspots_are_the_metrics_with_many_series(
    observed: Map<Seq<char>, Set<u64>>,
    metrics: Seq<Seq<char>>,
)
    requires
        are_hotspots(observed, metrics),
    ensures
        metrics.no_duplicates(),
        forall|m: Seq<char>| #[trigger]
            metrics.contains(m) <==> observed.contains_key(m) && observed[m].len() >= 200,
        hotspots(observed, metrics).len() == metrics.len(),
        forall|i: int|
            0 <= i < metrics.len() ==> {
                let f = #[trigger] hotspots(observed, metrics)[i];
                &&& f.severity == "warning"@
                &&& f.component == "metric:"@ + metrics[i]
                &&& f.message == "Observed "@ + number::dec(observed[metrics[i]].len())
                    + " distinct series for "@ + metrics[i]
                    + " in the live sample — this is a cardinality hotspot. Consider dropping a high-cardinality label with a relabel or transform rule."@
            },
{
}

// ---------------------------------------------------------------------------
// Inspector
// ---------------------------------------------------------------------------

/// The inspector's state.
#[derive(Debug)]
pub struct Inspector {
    events: VecDeque<InspectorEvent>,
    source_stats: StrMap<SourceStat>,
    drops: VecDeque<DropEvent>,
    stage_stats: StrMap<StageStat>,
    topology: Topology,
    lint: Vec<LintFinding>,
    /// metric name to sampled set of label fingerprints (live cardinality)
    observed: StrMap<HashSet<u64>>,
}

/// What the events of a row hold.
pub open spec fn event_views(events: Seq<InspectorEvent>) -> Seq<EventView> {
    events.map_values(|e: InspectorEvent| e@)
}

/// What the drops of a row hold.
pub open spec fn drop_views(drops: Seq<DropEvent>) -> Seq<DropView> {
    drops.map_values(|d: DropEvent| d@)
}

impl View for Inspector {
    type V = InspectorView;

    closed spec fn view(&self) -> InspectorView {
        InspectorView {
            events: event_views(self.events@),
            sources: self.source_stats@,
            drops: drop_views(self.drops@),
            stages: self.stage_stats@,
            topology: self.topology@,
            lint: lint::finding_views(self.lint@),
            observed: self.observed@,
        }
    }
}

fn event_for(s: &Signal) -> (r: InspectorEvent)
    ensures
        r@ == event_of(s@),
{
    match s {
        Signal::Metric(m) => InspectorEvent {
            kind: "metric".to_owned(),
            name: m.name.clone(),
            value: Some(m.value.clone()),
            labels: m.labels.clone(),
            ts_ms: m.timestamp_ms,
        },
        Signal::Log(l) => InspectorEvent {
            kind: "log".to_owned(),
            name: text::head_of(l.line.as_str(), SHOWN_LINE),
            value: None,
            labels: l.labels.clone(),
            ts_ms: number::div_toward_zero(l.timestamp_ns, 1_000_000),
        },
    }
}

impl Inspector {
    pub fn new() -> (r: Self)
        ensures
            r@ == blank(),
    {
        let r = Inspector {
            events: VecDeque::new(),
            source_stats: StrMap::new(),
            drops: VecDeque::new(),
            stage_stats: StrMap::new(),
            topology: Topology::default(),
            lint: Vec::new(),
            observed: StrMap::new(),
        };
        assert(r@.events =~= blank().events);
        assert(r@.drops =~= blank().drops);
        assert(r@.lint =~= blank().lint);
        assert(r@.topology.nodes =~= blank().topology.nodes);
        assert(r@.topology.edges =~= blank().topology.edges);
        r
    }

    fn push_event(&mut self, event: InspectorEvent)
        ensures
            final(self)@ == (InspectorView {
                events: ring_pushed(old(self)@.events, event@, MAX_EVENTS as nat),
                ..old(self)@
            }),
    {
        let ghost before = self@.events;
        self.events.push_back(event);
        assert(event_views(self.events@) =~= before.push(event@));
        if self.events.len() > MAX_EVENTS {
            let _ = self.events.pop_front();
            assert(event_views(self.events@) =~= before.push(event@).skip(1));
        }
    }

    fn push_drop(&mut self, drop: DropEvent)
        ensures
            final(self)@ == (InspectorView {
                drops: ring_pushed(old(self)@.drops, drop@, MAX_DROPS as nat),
                ..old(self)@
            }),
    {
        let ghost before = self@.drops;
        self.drops.push_back(drop);
        assert(drop_views(self.drops@) =~= before.push(drop@));
        if self.drops.len() > MAX_DROPS {
            let _ = self.drops.pop_front();
            assert(drop_views(self.drops@) =~= before.push(drop@).skip(1));
        }
    }

    fn sample(&mut self, name: &String, fp: u64)
        ensures
            final(self)@ == (InspectorView {
                observed: resampled(old(self)@.observed, name@, fp),
                ..old(self)@
            }),
    {
        let ghost before = self@.observed;
        let mut set: HashSet<u64> = match self.observed.remove(name.as_str()) {
            Some(s) => s,
            None => HashSet::new(),
        };
        assert(set@ == sampled(before, name@));
        if set.len() < CARDINALITY_SAMPLE_CAP {
            let _ = set.insert(fp);
        }
        let _ = self.observed.insert(name.clone(), set);
        assert(self.observed@ =~= resampled(before, name@, fp));
    }

    /// Records a signal that went through the pipeline.
    pub fn record_signal(&mut self, signal: &Signal)
        ensures
            final(self)@ == old(self)@.signal_recorded(signal@),
    {
        if let Signal::Metric(m) = signal {
            let fp: u64 = fingerprint::fingerprint(&m.labels);
            self.sample(&m.name, fp);
        }
        self.push_event(event_for(signal));
    }

    /// Records that a source took in a signal of a kind: "metric", "log" or
    /// "trace".
    pub fn record_source(&mut self, source: &str, kind: &str)
        requires
            ({
                let stat = source_stat(old(self)@.sources, source@);
                &&& kind@ == "metric"@ ==> stat.metrics < u64::MAX
                &&& kind@ == "log"@ ==> stat.logs < u64::MAX
                &&& kind@ == "trace"@ ==> stat.traces < u64::MAX
            }),
        ensures
            final(self)@ == old(self)@.source_recorded(source@, kind@),
    {
        let mut stat = match self.source_stats.get(source) {
            Some(s) => *s,
            None => SourceStat::default(),
        };
        assert(stat == source_stat(old(self)@.sources, source@));
        if text::str_eq(kind, "metric") {
            stat.metrics = stat.metrics + 1;
        }
        if text::str_eq(kind, "log") {
            stat.logs = stat.logs + 1;
        }
        if text::str_eq(kind, "trace") {
            stat.traces = stat.traces + 1;
        }
        let _ = self.source_stats.insert(source.to_owned(), stat);
    }

    /// Record that a signal passed a given pipeline stage.
    pub fn record_stage_pass(&mut self, stage: &str)
        requires
            stage_stat(old(self)@.stages, stage@).passed < u64::MAX,
        ensures
            final(self)@ == old(self)@.pass_recorded(stage@),
    {
        let mut stat = match self.stage_stats.get(stage) {
            Some(s) => *s,
            None => StageStat::default(),
        };
        stat.passed = stat.passed + 1;
        let _ = self.stage_stats.insert(stage.to_owned(), stat);
    }

    /// Record that a signal was dropped at `stage` for `reason`.
    pub fn record_drop(&mut self, signal: &Signal, stage: &str, reason: &str)
        requires
            stage_stat(old(self)@.stages, stage@).dropped < u64::MAX,
        ensures
            final(self)@ == old(self)@.drop_recorded(signal@, stage@, reason@),
    {
        let mut stat = match self.stage_stats.get(stage) {
            Some(s) => *s,
            None => StageStat::default(),
        };
        stat.dropped = stat.dropped + 1;
        let _ = self.stage_stats.insert(stage.to_owned(), stat);
        let e = event_for(signal);
        self.push_drop(
            DropEvent {
                kind: e.kind,
                name: e.name,
                labels: e.labels,
                stage: stage.to_owned(),
                reason: reason.to_owned(),
                ts_ms: e.ts_ms,
            },
        );
    }

    /// Whether every counter can go up by `n`.
    pub fn can_count(&self, n: u64) -> (r: bool)
        ensures
            r == self@.has_room(n as nat),
    {
        let most: u64 = u64::MAX - n;
        let stages: usize = self.stage_stats.len();
        let ghost pairs = self.stage_stats.pairs();
        proof {
            strmap::lemma_pairs_map(pairs);
        }
        let mut i: usize = 0;
        while i < stages
            invariant
                i <= stages,
                stages == pairs.len(),
                pairs == self.stage_stats.pairs(),
                most == u64::MAX - n,
                forall|j: int|
                    #![trigger pairs[j]]
                    0 <= j < i ==> pairs[j].1.passed <= most && pairs[j].1.dropped <= most,
            decreases stages - i,
        {
            let (k, stat) = self.stage_stats.entry_at(i);
            if stat.passed > most || stat.dropped > most {
                assert(self@.stages.contains_key(k@));
                return false;
            }
            i = i + 1;
        }
        assert forall|k: Seq<char>| #[trigger] self@.stages.contains_key(k) implies
            self@.stages[k].passed <= most && self@.stages[k].dropped <= most by {
            let j = choose|j: int| 0 <= j < pairs.len() && (#[trigger] pairs[j]).0@ == k;
            assert(pairs[j].1.passed <= most);
        }
        let sources: usize = self.source_stats.len();
        let ghost rows = self.source_stats.pairs();
        proof {
            strmap::lemma_pairs_map(rows);
        }
        let mut i: usize = 0;
        while i < sources
            invariant
                i <= sources,
                sources == rows.len(),
                rows == self.source_stats.pairs(),
                most == u64::MAX - n,
                forall|j: int|
                    #![trigger rows[j]]
                    0 <= j < i ==> rows[j].1.metrics <= most && rows[j].1.logs <= most
                        && rows[j].1.traces <= most,
            decreases sources - i,
        {
            let (k, stat) = self.source_stats.entry_at(i);
            if stat.metrics > most || stat.logs > most || stat.traces > most {
                assert(self@.sources.contains_key(k@));
                return false;
            }
            i = i + 1;
        }
        assert forall|k: Seq<char>| #[trigger] self@.sources.contains_key(k) implies
            self@.sources[k].metrics <= most && self@.sources[k].logs <= most
            && self@.sources[k].traces <= most by {
            let j = choose|j: int| 0 <= j < rows.len() && (#[trigger] rows[j]).0@ == k;
            assert(rows[j].1.metrics <= most);
        }
        true
    }

    pub fn set_topology(&mut self, topology: Topology)
        ensures
            final(self)@ == (InspectorView { topology: topology@, ..old(self)@ }),
    {
        self.topology = topology;
    }

    pub fn set_lint(&mut self, findings: Vec<LintFinding>)
        ensures
            final(self)@ == (InspectorView {
                lint: lint::finding_views(findings@),
                ..old(self)@
            }),
    {
        self.lint = findings;
    }

    /// The last signals, the newest first.
    pub fn get_events(&self) -> (r: Vec<InspectorEvent>)
        ensures
            event_views(r@) == newest(self@.events, SHOWN_EVENTS as nat),
    {
        let n: usize = self.events.len();
        let shown: usize = if n < SHOWN_EVENTS {
            n
        } else {
            SHOWN_EVENTS
        };
        let mut out: Vec<InspectorEvent> = Vec::new();
        let mut i: usize = 0;
        while i < shown
            invariant
                i <= shown,
                shown <= n,
                n == self.events@.len(),
                out@.len() == i,
                forall|j: int|
                    0 <= j < i ==> (#[trigger] out@[j])@ == self.events@[n - 1 - j]@,
            decreases shown - i,
        {
            out.push(self.events[n - 1 - i].clone());
            i = i + 1;
        }
        assert(event_views(out@) =~= newest(self@.events, SHOWN_EVENTS as nat));
        out
    }

    /// What each source took in.
    pub fn get_source_stats(&self) -> (r: StrMap<SourceStat>)
        ensures
            r@ == self@.sources,
    {
        self.source_stats.clone()
    }

    /// The pipeline graph, annotated.
    pub fn get_pipeline(&self) -> (r: PipelineView)
        ensures
            node_views(r.nodes@) == self@.topology.nodes,
            edge_views(r.edges@) == self@.topology.edges,
            r.stages@ == self@.stages,
            r.sources@ == self@.sources,
    {
        let t = self.topology.clone();
        PipelineView {
            nodes: t.nodes,
            edges: t.edges,
            stages: self.stage_stats.clone(),
            sources: self.source_stats.clone(),
        }
    }

    /// Drop events, optionally filtered to a metric name / log substring.
    pub fn get_drops(&self, name_filter: Option<&str>) -> (r: Vec<DropEvent>)
        ensures
            drop_views(r@) == first(
                wanted(
                    self@.drops,
                    match name_filter {
                        Some(n) => Some(n@),
                        None => None,
                    },
                ),
                SHOWN_DROPS as nat,
            ),
    {
        let ghost filter = match name_filter {
            Some(n) => Some(n@),
            None => None,
        };
        let ghost all = self@.drops;
        let mut out: Vec<DropEvent> = Vec::new();
        let mut left: usize = self.drops.len();
        assert(all.take(left as int) =~= all);
        assert(drop_views(out@) + wanted(all, filter) =~= wanted(all, filter));
        while left > 0 && out.len() < SHOWN_DROPS
            invariant
                all == drop_views(self.drops@),
                left <= self.drops@.len(),
                out@.len() <= SHOWN_DROPS,
                filter == (match name_filter {
                    Some(n) => Some(n@),
                    None => None,
                }),
                drop_views(out@) + wanted(all.take(left as int), filter) == wanted(all, filter),
            decreases left,
        {
            let d = &self.drops[left - 1];
            let ghost so_far = all.take(left as int);
            assert(so_far.last() == d@);
            assert(so_far.drop_last() =~= all.take(left - 1));
            let hit = match name_filter {
                Some(n) => text::holds(d.name.as_str(), n),
                None => true,
            };
            if hit {
                let ghost before = drop_views(out@);
                out.push(d.clone());
                assert(drop_views(out@) =~= before.push(d@));
                assert(before.push(d@) + wanted(all.take(left - 1), filter) =~= before + (seq![d@]
                    + wanted(all.take(left - 1), filter)));
            }
            left = left - 1;
        }
        proof {
            let rest = wanted(all.take(left as int), filter);
            if left == 0 {
                assert(all.take(0).len() == 0);
                assert(drop_views(out@) + rest =~= drop_views(out@));
                assert(drop_views(out@) =~= first(wanted(all, filter), SHOWN_DROPS as nat));
            } else {
                assert(drop_views(out@) =~= (drop_views(out@) + rest).take(SHOWN_DROPS as int));
                assert(drop_views(out@) =~= first(wanted(all, filter), SHOWN_DROPS as nat));
            }
        }
        out
    }

    /// Static lint findings merged with live cardinality warnings. The order
    /// of the warnings is left open.
    pub fn get_lint(&self) -> (r: Vec<LintFinding>)
        ensures
            exists|metrics: Seq<Seq<char>>| #[trigger]
                are_hotspots(self@.observed, metrics) && lint::finding_views(r@) == self@.lint
                    + hotspots(self@.observed, metrics),
    {
        let mut out: Vec<LintFinding> = Vec::new();
        let mut i: usize = 0;
        while i < self.lint.len()
            invariant
                i <= self.lint@.len(),
                out@.len() == i,
                forall|j: int| 0 <= j < i ==> (#[trigger] out@[j])@ == self.lint@[j]@,
            decreases self.lint@.len() - i,
        {
            out.push(self.lint[i].clone());
            i = i + 1;
        }
        assert(lint::finding_views(out@) =~= self@.lint);
        let n: usize = self.observed.len();
        let ghost pairs = self.observed.pairs();
        let ghost observed = self@.observed;
        let ghost mut metrics: Seq<Seq<char>> = Seq::empty();
        proof {
            strmap::lemma_pairs_map(pairs);
            assert(self@.lint + hotspots(observed, metrics) =~= self@.lint);
        }
        let mut k: usize = 0;
        while k < n
            invariant
                k <= n,
                n == pairs.len(),
                pairs == self.observed.pairs(),
                observed == self@.observed,
                strmap::distinct_keys(pairs),
                forall|j: int|
                    #![trigger pairs[j]]
                    0 <= j < pairs.len() ==> observed.contains_key(pairs[j].0@)
                        && observed[pairs[j].0@] == pairs[j].1@,
                metrics.no_duplicates(),
                forall|m: Seq<char>| #[trigger]
                    metrics.contains(m) <==> (exists|j: int|
                        0 <= j < k && (#[trigger] pairs[j]).0@ == m && pairs[j].1@.len()
                            >= CARDINALITY_WARN_THRESHOLD),
                lint::finding_views(out@) == self@.lint + hotspots(observed, metrics),
            decreases n - k,
        {
            let (metric, series) = self.observed.entry_at(k);
            let ghost before = lint::finding_views(out@);
            let ghost old_metrics = metrics;
            let count: usize = series.len();
            assert(pairs[k as int].0@ == metric@);
            if count >= CARDINALITY_WARN_THRESHOLD {
                let lead = text::cat3(
                    "Observed ",
                    number::dec_u64(count as u64).as_str(),
                    " distinct series for ",
                );
                let message = text::cat3(
                    lead.as_str(),
                    metric.as_str(),
                    " in the live sample — this is a cardinality hotspot. Consider dropping a high-cardinality label with a relabel or transform rule.",
                );
                let f = LintFinding::warn(text::cat2("metric:", metric.as_str()), message);
                out.push(f);
                proof {
                    metrics = metrics.push(metric@);
                    assert(lint::finding_views(out@) =~= before.push(f@));
                    assert(hotspots(observed, metrics) =~= hotspots(observed, old_metrics).push(
                        f@,
                    ));
                    assert(before.push(f@) =~= self@.lint + hotspots(observed, metrics));
                    assert(!old_metrics.contains(metric@)) by {
                        if old_metrics.contains(metric@) {
                            let j = choose|j: int|
                                0 <= j < k && (#[trigger] pairs[j]).0@ == metric@
                                    && pairs[j].1@.len() >= CARDINALITY_WARN_THRESHOLD;
                            assert(pairs[j].0@ != pairs[k as int].0@);
                        }
                    }
                    assert forall|a: int, b: int|
                        0 <= a < metrics.len() && 0 <= b < metrics.len() && a
                            != b implies metrics[a] != metrics[b] by {
                        if a == metrics.len() - 1 {
                            assert(old_metrics.contains(metrics[b]));
                        } else if b == metrics.len() - 1 {
                            assert(old_metrics.contains(metrics[a]));
                        } else {
                            assert(old_metrics[a] != old_metrics[b]);
                        }
                    }
                }
            }
            proof {
                assert forall|m: Seq<char>| #[trigger] metrics.contains(m) <==> (exists|j: int|
                    0 <= j < k + 1 && (#[trigger] pairs[j]).0@ == m && pairs[j].1@.len()
                        >= CARDINALITY_WARN_THRESHOLD) by {
                    if metrics.contains(m) {
                        let at = choose|at: int| 0 <= at < metrics.len() && metrics[at] == m;
                        if at < old_metrics.len() {
                            assert(old_metrics[at] == m);
                            assert(old_metrics.contains(m));
                        } else {
                            assert(pairs[k as int].0@ == m);
                        }
                    }
                    if exists|j: int|
                        0 <= j < k + 1 && (#[trigger] pairs[j]).0@ == m && pairs[j].1@.len()
                            >= CARDINALITY_WARN_THRESHOLD {
                        let j = choose|j: int|
                            0 <= j < k + 1 && (#[trigger] pairs[j]).0@ == m && pairs[j].1@.len()
                                >= CARDINALITY_WARN_THRESHOLD;
                        if j < k {
                            assert(old_metrics.contains(m));
                            let at = choose|at: int|
                                0 <= at < old_metrics.len() && old_metrics[at] == m;
                            assert(metrics[at] == m);
                        } else {
                            assert(metrics[metrics.len() - 1] == m);
                        }
                    }
                }
            }
            k = k + 1;
        }
        proof {
            assert forall|m: Seq<char>| #[trigger] metrics.contains(m) <==> observed.contains_key(m)
                && observed[m].len() >= CARDINALITY_WARN_THRESHOLD by {
                if observed.contains_key(m) {
                    let j = choose|j: int| 0 <= j < pairs.len() && (#[trigger] pairs[j]).0@ == m;
                    assert(pairs[j].0@ == m);
                }
            }
            assert(are_hotspots(observed, metrics));
        }
        out
    }
}

/// The text that is looked for: an empty one is none.
pub fn drop_filter(name: Option<String>) -> (r: Option<String>)
    ensures
        match name {
            Some(n) => n@.len() > 0 ==> r is Some && r->0@ == n@,
            None => r is None,
        },
        r is Some ==> name is Some && name->0@.len() > 0,
{
    match name {
        Some(n) => {
            if n.as_str().is_empty() {
                None
            } else {
                Some(n)
            }
        },
        None => None,
    }
}

/// What is recorded holds all of its parts, and a row what stands in it, one by
/// one.
pub proof fn law_records_hold_all_of_their_parts(
    e: InspectorEvent,
    d: DropEvent,
    n: TopoNode,
    edge: TopoEdge,
    t: Topology,
)
    ensures
        e@.kind == e.kind@,
        e@.name == e.name@,
        e.value matches Some(v) ==> e@.value == Some(v@),
        e.value is None ==> e@.value is None,
        e@.labels == e.labels@,
        e@.ts_ms == e.ts_ms,
        d@.kind == d.kind@,
        d@.name == d.name@,
        d@.labels == d.labels@,
        d@.stage == d.stage@,
        d@.reason == d.reason@,
        d@.ts_ms == d.ts_ms,
        n@.id == n.id@,
        n@.kind == n.kind@,
        n@.label == n.label@,
        edge@.from == edge.from@,
        edge@.to == edge.to@,
        t@.nodes == node_views(t.nodes@),
        t@.edges == edge_views(t.edges@),
{
}

/// A row of records holds them one by one.
pub proof fn law_rows_hold_every_record(
    events: Seq<InspectorEvent>,
    drops: Seq<DropEvent>,
    nodes: Seq<TopoNode>,
    edges: Seq<TopoEdge>,
)
    ensures
        event_views(events).len() == events.len(),
        forall|i: int| 0 <= i < events.len() ==> #[trigger] event_views(events)[i] == events[i]@,
        drop_views(drops).len() == drops.len(),
        forall|i: int| 0 <= i < drops.len() ==> #[trigger] drop_views(drops)[i] == drops[i]@,
        node_views(nodes).len() == nodes.len(),
        forall|i: int| 0 <= i < nodes.len() ==> #[trigger] node_views(nodes)[i] == nodes[i]@,
        edge_views(edges).len() == edges.len(),
        forall|i: int| 0 <= i < edges.len() ==> #[trigger] edge_views(edges)[i] == edges[i]@,
{
}

/// Before anything was recorded there is nothing to show, and there is room
/// exactly as long as no counter is full.
pub proof fn law_there_is_room_until_a_counter_is_full(v: InspectorView, n: nat)
    ensures
        blank().events.len() == 0,
        blank().drops.len() == 0,
        blank().lint.len() == 0,
        blank().sources == Map::<Seq<char>, SourceStat>::empty(),
        blank().stages == Map::<Seq<char>, StageStat>::empty(),
        blank().observed == Map::<Seq<char>, Set<u64>>::empty(),
        blank().has_room(n),
        v.has_room(n) <==> (forall|k: Seq<char>| #[trigger]
            v.stages.contains_key(k) ==> v.stages[k].passed + n <= u64::MAX && v.stages[k].dropped
                + n <= u64::MAX) && (forall|k: Seq<char>| #[trigger]
            v.sources.contains_key(k) ==> v.sources[k].metrics + n <= u64::MAX && v.sources[k].logs
                + n <= u64::MAX && v.sources[k].traces + n <= u64::MAX),
{
}

} // verus!
