//! The path of a signal from its source through the processors into a batch.

use vstd::prelude::*;

use crate::config;
use crate::config::Config;
use crate::config::FileLogsConfig;
use crate::config::PromScrapeConfig;
use crate::config::WindowsEventLogConfig;
use crate::fingerprint;
use crate::number;
use crate::processors::batch;
use crate::processors::batch::BatchProcessor;
use crate::processors::cardinality_guard;
use crate::processors::cardinality_guard::CardinalityGuard;
use crate::processors::cardinality_guard::Verdict;
use crate::processors::redact_pii;
use crate::processors::redact_pii::PiiRedactor;
use crate::processors::redact_pii::PiiRuleView;
use crate::processors::relabel;
use crate::processors::relabel::Relabeler;
use crate::processors::relabel::RuleView;
use crate::processors::transform;
use crate::processors::transform::OpView;
use crate::processors::transform::Transformer;
use crate::signal;
use crate::signal::Signal;
use crate::signal::SignalView;
use crate::text;
use crate::web;
use crate::web::EdgeView;
use crate::web::Inspector;
use crate::web::InspectorView;
use crate::web::NodeView;
use crate::web::TopoEdge;
use crate::web::TopoNode;
use crate::web::Topology;
use crate::web::TopologyView;

verus! {

/// The number of signals that may wait between the sources and the pipeline.
pub const CHANNEL_CAPACITY: usize = 8192;

// ---------------------------------------------------------------------------
// Graph
// ---------------------------------------------------------------------------

/// A node of the graph.
pub open spec fn node_of(id: Seq<char>, kind: Seq<char>, label: Seq<char>) -> NodeView {
    NodeView { id, kind, label }
}

/// The node of a source that there is at most one of.
pub open spec fn single_source(enabled: bool, name: Seq<char>) -> Seq<NodeView> {
    if enabled {
        seq![node_of("source:"@ + name, "source"@, name)]
    } else {
        Seq::empty()
    }
}

/// The node of a named source.
pub open spec fn named_source(lead: Seq<char>, name: Seq<char>) -> NodeView {
    node_of("source:"@ + name, "source"@, lead + name)
}

pub open spec fn file_logs_nodes(s: Seq<FileLogsConfig>) -> Seq<NodeView> {
    s.map_values(|c: FileLogsConfig| named_source("file_logs · "@, c.name@))
}

pub open spec fn prom_scrape_nodes(s: Seq<PromScrapeConfig>) -> Seq<NodeView> {
    s.map_values(|c: PromScrapeConfig| named_source("prom_scrape · "@, c.name@))
}

pub open spec fn windows_event_log_nodes(s: Seq<WindowsEventLogConfig>) -> Seq<NodeView> {
    s.map_values(|c: WindowsEventLogConfig| named_source("win_event · "@, c.name@))
}

/// The nodes of the enabled sources.
pub open spec fn source_nodes_of(cfg: Config) -> Seq<NodeView> {
    let s = cfg.sources;
    single_source(s.host_metrics is Some, "host_metrics"@) + file_logs_nodes(s.file_logs@)
        + prom_scrape_nodes(s.prom_scrape@) + single_source(s.journald is Some, "journald"@)
        + windows_event_log_nodes(s.windows_event_log@) + single_source(
        s.docker_logs is Some,
        "docker_logs"@,
    ) + single_source(s.docker_stats is Some, "docker_stats"@) + single_source(
        s.kubernetes_pods is Some,
        "kubernetes_pods"@,
    ) + single_source(s.otlp is Some, "otlp_receiver"@)
}

/// The node of a processor stage, if it is enabled.
pub open spec fn stage_node(enabled: bool, name: Seq<char>) -> Seq<NodeView> {
    if enabled {
        seq![node_of(name, "processor"@, name)]
    } else {
        Seq::empty()
    }
}

/// The nodes of the enabled processor stages; batching is always one.
pub open spec fn stage_nodes(
    has_relabel: bool,
    has_transform: bool,
    has_cardinality: bool,
    has_redact: bool,
) -> Seq<NodeView> {
    stage_node(has_relabel, "relabel"@) + stage_node(has_transform, "transform"@) + stage_node(
        has_cardinality,
        "cardinality_guard"@,
    ) + stage_node(has_redact, "redact_pii"@) + stage_node(true, "batch"@)
}

/// The graph: every source leads to the first stage, every stage to the next,
/// and the last to the target.
pub open spec fn topology_of(
    sources: Seq<NodeView>,
    stages: Seq<NodeView>,
    target: NodeView,
) -> TopologyView {
    TopologyView {
        nodes: sources + stages + seq![target],
        edges: sources.map_values(|s: NodeView| EdgeView { from: s.id, to: stages[0].id })
            + Seq::new(
            (stages.len() - 1) as nat,
            |i: int| EdgeView { from: stages[i].id, to: stages[i + 1].id },
        ) + seq![EdgeView { from: stages.last().id, to: target.id }],
    }
}

/// Every node but the target has exactly one way on, to a node that comes
/// after it: from every source the graph leads through all stages to the
/// target.
pub proof fn law_every_node_leads_on(
    sources: Seq<NodeView>,
    stages: Seq<NodeView>,
    target: NodeView,
)
    requires
        stages.len() > 0,
    ensures
        ({
            let t = topology_of(sources, stages, target);
            &&& t.edges.len() + 1 == t.nodes.len()
            &&& t.nodes.last() == target
            &&& forall|i: int|
                #![trigger t.edges[i]]
                0 <= i < t.edges.len() ==> t.edges[i].from == t.nodes[i].id && t.edges[i].to
                    == t.nodes[if i < sources.len() {
                    sources.len() as int
                } else {
                    i + 1
                }].id
        }),
{
    let t = topology_of(sources, stages, target);
    assert forall|i: int| #![trigger t.edges[i]] 0 <= i < t.edges.len() implies t.edges[i].from
        == t.nodes[i].id && t.edges[i].to == t.nodes[if i < sources.len() {
        sources.len() as int
    } else {
        i + 1
    }].id by {
        let n = sources.len() as int;
        if i < n {
            assert(t.nodes[n] == stages[0]);
        } else {
            assert(t.nodes[i] == stages[i - n]);
            if i < n + stages.len() - 1 {
                assert(t.nodes[i + 1] == stages[i - n + 1]);
            }
        }
    }
}

/// There is always a stage.
pub proof fn law_there_is_always_a_stage(a: bool, b: bool, c: bool, d: bool)
    ensures
        stage_nodes(a, b, c, d).len() > 0,
        stage_nodes(a, b, c, d).last().id == "batch"@,
{
}

fn node(id: &str, kind: &str, label: &str) -> (r: TopoNode)
    ensures
        r@ == node_of(id@, kind@, label@),
{
    TopoNode { id: id.to_owned(), kind: kind.to_owned(), label: label.to_owned() }
}

fn push_node(out: &mut Vec<TopoNode>, n: TopoNode)
    ensures
        web::node_views(final(out)@) == web::node_views(old(out)@).push(n@),
{
    out.push(n);
    assert(web::node_views(out@) =~= web::node_views(old(out)@).push(n@));
}

fn push_single(out: &mut Vec<TopoNode>, enabled: bool, name: &str)
    ensures
        web::node_views(final(out)@) == web::node_views(old(out)@) + single_source(enabled, name@),
{
    if enabled {
        push_node(out, node(text::cat2("source:", name).as_str(), "source", name));
    }
    assert(web::node_views(out@) =~= web::node_views(old(out)@) + single_source(enabled, name@));
}

fn push_named(out: &mut Vec<TopoNode>, lead: &str, name: &str)
    ensures
        web::node_views(final(out)@) == web::node_views(old(out)@).push(named_source(lead@, name@)),
{
    push_node(
        out,
        node(text::cat2("source:", name).as_str(), "source", text::cat2(lead, name).as_str()),
    );
}

fn push_file_logs(out: &mut Vec<TopoNode>, s: &Vec<FileLogsConfig>)
    ensures
        web::node_views(final(out)@) == web::node_views(old(out)@) + file_logs_nodes(s@),
{
    let ghost start = web::node_views(out@);
    let mut i: usize = 0;
    assert(start + file_logs_nodes(s@.take(0)) =~= start);
    while i < s.len()
        invariant
            i <= s@.len(),
            web::node_views(out@) == start + file_logs_nodes(s@.take(i as int)),
        decreases s@.len() - i,
    {
        push_named(out, "file_logs · ", s[i].name.as_str());
        assert(web::node_views(out@) =~= start + file_logs_nodes(s@.take(i + 1)));
        i = i + 1;
    }
    assert(s@.take(i as int) =~= s@);
}

fn push_prom_scrape(out: &mut Vec<TopoNode>, s: &Vec<PromScrapeConfig>)
    ensures
        web::node_views(final(out)@) == web::node_views(old(out)@) + prom_scrape_nodes(s@),
{
    let ghost start = web::node_views(out@);
    let mut i: usize = 0;
    assert(start + prom_scrape_nodes(s@.take(0)) =~= start);
    while i < s.len()
        invariant
            i <= s@.len(),
            web::node_views(out@) == start + prom_scrape_nodes(s@.take(i as int)),
        decreases s@.len() - i,
    {
        push_named(out, "prom_scrape · ", s[i].name.as_str());
        assert(web::node_views(out@) =~= start + prom_scrape_nodes(s@.take(i + 1)));
        i = i + 1;
    }
    assert(s@.take(i as int) =~= s@);
}

fn push_windows_event_log(out: &mut Vec<TopoNode>, s: &Vec<WindowsEventLogConfig>)
    ensures
        web::node_views(final(out)@) == web::node_views(old(out)@) + windows_event_log_nodes(s@),
{
    let ghost start = web::node_views(out@);
    let mut i: usize = 0;
    assert(start + windows_event_log_nodes(s@.take(0)) =~= start);
    while i < s.len()
        invariant
            i <= s@.len(),
            web::node_views(out@) == start + windows_event_log_nodes(s@.take(i as int)),
        decreases s@.len() - i,
    {
        push_named(out, "win_event · ", s[i].name.as_str());
        assert(web::node_views(out@) =~= start + windows_event_log_nodes(s@.take(i + 1)));
        i = i + 1;
    }
    assert(s@.take(i as int) =~= s@);
}

/// The nodes of the enabled sources.
pub fn source_nodes(cfg: &Config) -> (r: Vec<TopoNode>)
    ensures
        web::node_views(r@) == source_nodes_of(*cfg),
{
    let s = &cfg.sources;
    let mut out: Vec<TopoNode> = Vec::new();
    assert(web::node_views(out@) =~= Seq::empty());
    push_single(&mut out, s.host_metrics.is_some(), "host_metrics");
    assert(web::node_views(out@) =~= single_source(s.host_metrics is Some, "host_metrics"@));
    push_file_logs(&mut out, &s.file_logs);
    push_prom_scrape(&mut out, &s.prom_scrape);
    push_single(&mut out, s.journald.is_some(), "journald");
    push_windows_event_log(&mut out, &s.windows_event_log);
    push_single(&mut out, s.docker_logs.is_some(), "docker_logs");
    push_single(&mut out, s.docker_stats.is_some(), "docker_stats");
    push_single(&mut out, s.kubernetes_pods.is_some(), "kubernetes_pods");
    push_single(&mut out, s.otlp.is_some(), "otlp_receiver");
    out
}

/// The node of the target.
pub fn target_node() -> (r: TopoNode)
    ensures
        r@ == node_of("target:pulseboard"@, "target"@, "pulseboard"@),
{
    node("target:pulseboard", "target", "pulseboard")
}

fn push_stage(out: &mut Vec<TopoNode>, enabled: bool, name: &str)
    ensures
        web::node_views(final(out)@) == web::node_views(old(out)@) + stage_node(enabled, name@),
{
    if enabled {
        push_node(out, node(name, "processor", name));
    }
    assert(web::node_views(out@) =~= web::node_views(old(out)@) + stage_node(enabled, name@));
}

fn push_edge(out: &mut Vec<TopoEdge>, from: &str, to: &str)
    ensures
        web::edge_views(final(out)@) == web::edge_views(old(out)@).push(
            EdgeView { from: from@, to: to@ },
        ),
{
    out.push(TopoEdge { from: from.to_owned(), to: to.to_owned() });
    assert(web::edge_views(out@) =~= web::edge_views(old(out)@).push(
        EdgeView { from: from@, to: to@ },
    ));
}

/// Build the linear source to processors to target graph for the debugger,
/// including only the processor stages that are actually enabled.
pub fn build_topology(
    sources: &Vec<TopoNode>,
    has_relabel: bool,
    has_transform: bool,
    has_cardinality: bool,
    has_redact: bool,
    target: TopoNode,
) -> (r: Topology)
    ensures
        r@ == topology_of(
            web::node_views(sources@),
            stage_nodes(has_relabel, has_transform, has_cardinality, has_redact),
            target@,
        ),
{
    let ghost srcs = web::node_views(sources@);
    let ghost stages = stage_nodes(has_relabel, has_transform, has_cardinality, has_redact);
    let mut processors: Vec<TopoNode> = Vec::new();
    assert(web::node_views(processors@) =~= Seq::empty());
    push_stage(&mut processors, has_relabel, "relabel");
    assert(web::node_views(processors@) =~= stage_node(has_relabel, "relabel"@));
    push_stage(&mut processors, has_transform, "transform");
    push_stage(&mut processors, has_cardinality, "cardinality_guard");
    push_stage(&mut processors, has_redact, "redact_pii");
    push_stage(&mut processors, true, "batch");
    assert(web::node_views(processors@) == stages);
    let n: usize = processors.len();
    assert(n > 0);

    let mut edges: Vec<TopoEdge> = Vec::new();
    let mut nodes: Vec<TopoNode> = Vec::new();
    let ghost up = srcs.map_values(|s: NodeView| EdgeView { from: s.id, to: stages[0].id });
    let mut i: usize = 0;
    while i < sources.len()
        invariant
            i <= sources@.len(),
            n == processors@.len(),
            n > 0,
            web::node_views(processors@) == stages,
            srcs == web::node_views(sources@),
            up == srcs.map_values(|s: NodeView| EdgeView { from: s.id, to: stages[0].id }),
            web::edge_views(edges@) =~= up.take(i as int),
            web::node_views(nodes@) =~= srcs.take(i as int),
        decreases sources@.len() - i,
    {
        assert(stages[0] == processors@[0]@);
        push_edge(&mut edges, sources[i].id.as_str(), processors[0].id.as_str());
        push_node(&mut nodes, sources[i].clone());
        i = i + 1;
    }
    let ghost across = Seq::new(
        (stages.len() - 1) as nat,
        |i: int| EdgeView { from: stages[i].id, to: stages[i + 1].id },
    );
    let mut j: usize = 0;
    while j < n
        invariant
            j <= n,
            n == processors@.len(),
            n > 0,
            web::node_views(processors@) == stages,
            across.len() == n - 1,
            forall|k: int|
                0 <= k < across.len() ==> #[trigger] across[k] == (EdgeView {
                    from: stages[k].id,
                    to: stages[k + 1].id,
                }),
            web::node_views(nodes@) =~= srcs + stages.take(j as int),
            j < n ==> web::edge_views(edges@) =~= up + across.take(j as int),
            j == n ==> web::edge_views(edges@) =~= up + across + seq![
                EdgeView { from: stages.last().id, to: target@.id },
            ],
        decreases n - j,
    {
        assert(stages[j as int] == processors@[j as int]@);
        push_node(&mut nodes, processors[j].clone());
        if j + 1 < n {
            assert(stages[j + 1] == processors@[j + 1]@);
            push_edge(&mut edges, processors[j].id.as_str(), processors[j + 1].id.as_str());
        } else {
            assert(across.take(j as int) =~= across);
            push_edge(&mut edges, processors[j].id.as_str(), target.id.as_str());
        }
        j = j + 1;
    }
    push_node(&mut nodes, target);
    assert(stages.take(n as int) =~= stages);
    assert(web::node_views(nodes@) =~= srcs + stages + seq![target@]);
    Topology { nodes, edges }
}

// ---------------------------------------------------------------------------
// Stages
// ---------------------------------------------------------------------------

/// The enabled processors.
pub struct StagesView {
    pub relabel: Option<Seq<RuleView>>,
    pub transform: Option<Seq<OpView>>,
    /// The budget of series per metric, and the series on record.
    pub guard: Option<(nat, Map<Seq<char>, Set<u64>>)>,
    pub redact: Option<Seq<PiiRuleView>>,
}

/// The processors that a configuration enables, before any signal.
pub open spec fn stages_of(cfg: Config) -> StagesView {
    let p = cfg.processors;
    StagesView {
        relabel: if p.relabel@.len() == 0 {
            None
        } else {
            Some(relabel::rules_of(p.relabel@))
        },
        transform: if p.transform@.len() == 0 {
            None
        } else {
            Some(transform::op_views(p.transform@))
        },
        guard: match p.cardinality_guard {
            Some(c) => Some((c.max_series_per_metric as nat, cardinality_guard::no_series())),
            None => None,
        },
        redact: if p.redact_pii@.len() == 0 {
            None
        } else {
            Some(redact_pii::rules_of(p.redact_pii@))
        },
    }
}

/// What becomes of a signal: the processors and the inspector afterwards, and
/// the signal that goes on, if it does.
pub struct Flow {
    pub stages: StagesView,
    pub inspector: InspectorView,
    pub signal: Option<SignalView>,
}

/// `end` is what relabelling may make of a signal.
pub open spec fn relabel_stage(
    stages: StagesView,
    inspector: InspectorView,
    s: SignalView,
    end: Flow,
) -> bool {
    match stages.relabel {
        None => end == (Flow { stages, inspector, signal: Some(s) }),
        Some(rules) => {
            ||| exists|t: SignalView| #[trigger]
                relabel::may_pass(rules, s, t) && end == (Flow {
                    stages,
                    inspector: inspector.pass_recorded("relabel"@),
                    signal: Some(t),
                })
            ||| exists|at: int, t: SignalView|
                {
                    &&& 0 <= at < rules.len()
                    &&& #[trigger] relabel::may_drop(rules, s, at, t)
                    &&& end == (Flow {
                        stages,
                        inspector: inspector.drop_recorded(
                            t,
                            "relabel"@,
                            relabel::drop_reason(at, rules[at].action),
                        ),
                        signal: None,
                    })
                }
        },
    }
}

/// What the transform operations make of a signal.
pub open spec fn transform_stage(
    stages: StagesView,
    inspector: InspectorView,
    s: SignalView,
) -> Flow {
    match stages.transform {
        None => Flow { stages, inspector, signal: Some(s) },
        Some(ops) => Flow {
            stages,
            inspector: inspector.pass_recorded("transform"@),
            signal: Some(transform::applied(ops, s)),
        },
    }
}

/// Why the guard dropped a metric.
pub open spec fn budget_reason(name: Seq<char>, max: nat) -> Seq<char> {
    "metric "@ + name + " exceeded the configured series budget ("@ + number::dec(max)
        + " max) — new series dropped"@
}

/// What the cardinality guard makes of a signal: logs go on unseen.
pub open spec fn guard_stage(stages: StagesView, inspector: InspectorView, s: SignalView) -> Flow {
    match s {
        SignalView::Log(_) => Flow { stages, inspector, signal: Some(s) },
        SignalView::Metric(m) => match stages.guard {
            None => Flow { stages, inspector, signal: Some(s) },
            Some((max, series)) => {
                let fp = fingerprint::fingerprint_of(m.labels);
                let after = StagesView {
                    guard: Some((max, cardinality_guard::recorded(series, max, m.name, fp))),
                    ..stages
                };
                if cardinality_guard::verdict(series, max, m.name, fp) == Verdict::Drop {
                    Flow {
                        stages: after,
                        inspector: inspector.drop_recorded(
                            s,
                            "cardinality_guard"@,
                            budget_reason(m.name, max),
                        ),
                        signal: None,
                    }
                } else {
                    Flow {
                        stages: after,
                        inspector: inspector.pass_recorded("cardinality_guard"@),
                        signal: Some(s),
                    }
                }
            },
        },
    }
}

/// What redaction makes of a signal.
pub open spec fn redact_stage(stages: StagesView, inspector: InspectorView, s: SignalView) -> Flow {
    match stages.redact {
        None => Flow { stages, inspector, signal: Some(s) },
        Some(rules) => Flow {
            stages,
            inspector: inspector.pass_recorded("redact_pii"@),
            signal: Some(redact_pii::applied(rules, s)),
        },
    }
}

/// A signal that has passed every stage is shown to the inspector and goes
/// into the batch.
pub open spec fn batch_stage(stages: StagesView, inspector: InspectorView, s: SignalView) -> Flow {
    Flow {
        stages,
        inspector: inspector.signal_recorded(s).pass_recorded("batch"@),
        signal: Some(s),
    }
}

/// What the stages after relabelling make of a signal.
pub open spec fn later_stages(
    stages: StagesView,
    inspector: InspectorView,
    s: SignalView,
) -> Flow {
    let a = transform_stage(stages, inspector, s);
    let b = guard_stage(a.stages, a.inspector, a.signal->0);
    match b.signal {
        None => b,
        Some(t) => {
            let c = redact_stage(b.stages, b.inspector, t);
            batch_stage(c.stages, c.inspector, c.signal->0)
        },
    }
}

/// `end` is what the pipeline may make of a signal.
pub open spec fn flows(
    stages: StagesView,
    inspector: InspectorView,
    s: SignalView,
    end: Flow,
) -> bool {
    exists|mid: Flow| #[trigger]
        relabel_stage(stages, inspector, s, mid) && (match mid.signal {
            None => end == mid,
            Some(t) => end == later_stages(mid.stages, mid.inspector, t),
        })
}

// ---------------------------------------------------------------------------
// Laws
// ---------------------------------------------------------------------------

/// Without processors every signal goes on as it is.
pub proof fn law_bare_pipeline_passes_everything(
    inspector: InspectorView,
    s: SignalView,
    stages: StagesView,
    end: Flow,
)
    requires
        stages.relabel is None,
        stages.transform is None,
        stages.guard is None,
        stages.redact is None,
        flows(stages, inspector, s, end),
    ensures
        end.signal == Some(s),
{
}

/// What the debugger shows is what is shipped: the newest event is the signal
/// as it goes into the batch, after redaction.
pub proof fn law_inspector_sees_what_is_shipped(
    stages: StagesView,
    inspector: InspectorView,
    s: SignalView,
    end: Flow,
)
    requires
        flows(stages, inspector, s, end),
        end.signal is Some,
    ensures
        end.inspector.events.len() > 0,
        end.inspector.events.last() == web::event_of(end.signal->0),
{
}

/// Every signal that is not shipped is explained: the newest drop names the
/// stage that dropped it, and says which rule did, or which budget.
pub proof fn law_every_drop_is_explained(
    stages: StagesView,
    inspector: InspectorView,
    s: SignalView,
    end: Flow,
)
    requires
        flows(stages, inspector, s, end),
        end.signal is None,
    ensures
        end.inspector.drops.len() > 0,
        ({
            let d = end.inspector.drops.last();
            ||| d.stage == "relabel"@ && exists|at: int|
                {
                    &&& 0 <= at < stages.relabel->0.len()
                    &&& #[trigger] relabel::drop_reason(at, stages.relabel->0[at].action)
                        == d.reason
                    &&& stages.relabel is Some
                }
            ||| d.stage == "cardinality_guard"@ && s is Metric && (stages.guard matches Some(
                (max, _),
            ) && d.reason == budget_reason(d.name, max))
        }),
        end.inspector.events == inspector.events,
{
    let mid = choose|mid: Flow| #[trigger]
        relabel_stage(stages, inspector, s, mid) && (match mid.signal {
            None => end == mid,
            Some(t) => end == later_stages(mid.stages, mid.inspector, t),
        });
    match mid.signal {
        Some(t) => {
            assert(t is Metric <==> s is Metric);
            if let Some(ops) = stages.transform {
                transform::law_transform_touches_labels_only(ops, t);
            }
        },
        None => {
            let rules = stages.relabel->0;
            let (at, t) = choose|at: int, t: SignalView|
                {
                    &&& 0 <= at < rules.len()
                    &&& #[trigger] relabel::may_drop(rules, s, at, t)
                    &&& mid == (Flow {
                        stages,
                        inspector: inspector.drop_recorded(
                            t,
                            "relabel"@,
                            relabel::drop_reason(at, rules[at].action),
                        ),
                        signal: None,
                    })
                };
            assert(relabel::drop_reason(at, rules[at].action)
                == end.inspector.drops.last().reason);
        },
    }
}

/// Logs are dropped by relabelling only.
pub proof fn law_logs_are_dropped_by_relabelling_only(
    stages: StagesView,
    inspector: InspectorView,
    s: SignalView,
    end: Flow,
)
    requires
        s is Log,
        stages.relabel is None,
        flows(stages, inspector, s, end),
    ensures
        end.signal is Some,
{
    if let Some(ops) = stages.transform {
        transform::law_transform_touches_labels_only(ops, s);
    }
}

/// The guard's budget holds at all times.
pub proof fn law_pipeline_keeps_the_budget(
    stages: StagesView,
    inspector: InspectorView,
    s: SignalView,
    end: Flow,
)
    requires
        flows(stages, inspector, s, end),
        stages.guard matches Some((max, series)) ==> cardinality_guard::within_budget(series, max),
    ensures
        end.stages.guard matches Some((max, series)) ==> cardinality_guard::within_budget(
            series,
            max,
        ),
{
    let mid = choose|mid: Flow| #[trigger]
        relabel_stage(stages, inspector, s, mid) && (match mid.signal {
            None => end == mid,
            Some(t) => end == later_stages(mid.stages, mid.inspector, t),
        });
    if let Some(t) = mid.signal {
        let a = transform_stage(mid.stages, mid.inspector, t);
        if let Some((max, series)) = stages.guard {
            if let SignalView::Metric(m) = a.signal->0 {
                cardinality_guard::law_budget_is_kept(
                    series,
                    max,
                    m.name,
                    fingerprint::fingerprint_of(m.labels),
                );
            }
        }
    }
}

// ---------------------------------------------------------------------------
// Pipeline
// ---------------------------------------------------------------------------

/// How many signals came in, were shipped and were dropped.
#[derive(Debug, Clone, Copy, PartialEq, Eq, Structural)]
pub struct Tally {
    pub signals_in: u64,
    pub signals_out: u64,
    pub signals_drop: u64,
}

/// The processors of a running agent.
#[derive(Debug)]
pub struct Pipeline {
    relabeler: Option<Relabeler>,
    transformer: Option<Transformer>,
    guard: Option<CardinalityGuard>,
    redactor: Option<PiiRedactor>,
    batcher: BatchProcessor,
    tally: Tally,
}

impl Pipeline {
    /// The enabled processors.
    pub closed spec fn stages(&self) -> StagesView {
        StagesView {
            relabel: match self.relabeler {
                Some(r) => Some(r.rules()),
                None => None,
            },
            transform: match self.transformer {
                Some(t) => Some(t.ops()),
                None => None,
            },
            guard: match self.guard {
                Some(g) => Some((g.max() as nat, g.series())),
                None => None,
            },
            redact: match self.redactor {
                Some(r) => Some(r.rules()),
                None => None,
            },
        }
    }

    /// The signals that wait for their batch to be flushed.
    pub closed spec fn held(&self) -> Seq<SignalView> {
        self.batcher.held()
    }

    /// The number of signals at which a batch is flushed, and the seconds
    /// since the last flush at which it is.
    pub closed spec fn limits(&self) -> (usize, u64) {
        (self.batcher.max_size(), self.batcher.max_delay_secs())
    }

    /// The time of the last flush, in nanoseconds since the pipeline was made.
    pub closed spec fn last_flush_ns(&self) -> u64 {
        self.batcher.last_flush_ns()
    }

    /// The counts so far.
    pub closed spec fn counts(&self) -> Tally {
        self.tally
    }

    /// The processors that a configuration enables. A batch delay that is no
    /// duration counts as five seconds.
    pub fn new(cfg: &Config) -> (r: Self)
        ensures
            r.stages() == stages_of(*cfg),
            r.held() == Seq::<SignalView>::empty(),
            r.limits().0 == cfg.processors.batch.max_size,
            match config::duration(cfg.processors.batch.max_delay@) {
                Some(n) => r.limits().1 == n,
                None => r.limits().1 == 5,
            },
            r.last_flush_ns() == 0,
            r.counts() == (Tally { signals_in: 0, signals_out: 0, signals_drop: 0 }),
    {
        let p = &cfg.processors;
        let relabeler = if p.relabel.len() == 0 {
            None
        } else {
            Some(Relabeler::new(p.relabel.as_slice()))
        };
        let transformer = if p.transform.len() == 0 {
            None
        } else {
            Some(Transformer::new(p.transform.as_slice()))
        };
        let guard = match &p.cardinality_guard {
            Some(c) => Some(CardinalityGuard::new(c.max_series_per_metric)),
            None => None,
        };
        let redactor = if p.redact_pii.len() == 0 {
            None
        } else {
            Some(PiiRedactor::new(p.redact_pii.as_slice()))
        };
        let delay: u64 = config::duration_or(p.batch.max_delay.as_str(), 5);
        Pipeline {
            relabeler,
            transformer,
            guard,
            redactor,
            batcher: BatchProcessor::new(p.batch.max_size, delay),
            tally: Tally { signals_in: 0, signals_out: 0, signals_drop: 0 },
        }
    }

    /// The graph of the sources, the enabled processors and the target.
    pub fn topology(&self, cfg: &Config) -> (r: Topology)
        ensures
            r@ == topology_of(
                source_nodes_of(*cfg),
                stage_nodes(
                    self.stages().relabel is Some,
                    self.stages().transform is Some,
                    self.stages().guard is Some,
                    self.stages().redact is Some,
                ),
                node_of("target:pulseboard"@, "target"@, "pulseboard"@),
            ),
    {
        let sources = source_nodes(cfg);
        build_topology(
            &sources,
            self.relabeler.is_some(),
            self.transformer.is_some(),
            self.guard.is_some(),
            self.redactor.is_some(),
            target_node(),
        )
    }

    /// The counts so far.
    pub fn tally(&self) -> (r: Tally)
        ensures
            r == self.counts(),
    {
        self.tally
    }

    /// Whether one more signal can be counted, here and by the inspector.
    pub fn is_ready(&self, inspector: &Inspector) -> (r: bool)
        ensures
            r == (self.counts().signals_in < u64::MAX && self.counts().signals_drop < u64::MAX
                && inspector@.has_room(5)),
    {
        self.tally.signals_in < u64::MAX && self.tally.signals_drop < u64::MAX
            && inspector.can_count(5)
    }

    /// Takes a signal through relabelling.
    fn relabel(&self, signal: Signal, inspector: &mut Inspector) -> (r: Option<Signal>)
        requires
            old(inspector)@.has_room(5),
        ensures
            relabel_stage(
                self.stages(),
                old(inspector)@,
                signal@,
                Flow {
                    stages: self.stages(),
                    inspector: final(inspector)@,
                    signal: signal::opt_signal(r),
                },
            ),
            final(inspector)@.has_room(4),
    {
        let ghost reason_text = Seq::<char>::empty();
        match &self.relabeler {
            None => {
                assert(inspector@.has_room(4));
                Some(signal)
            },
            Some(r) => match r.apply_traced(signal) {
                Ok(s) => {
                    proof {
                        web::law_room_shrinks_by_one(
                            inspector@,
                            s@,
                            "relabel"@,
                            reason_text,
                            reason_text,
                            reason_text,
                            4,
                        );
                    }
                    inspector.record_stage_pass("relabel");
                    Some(s)
                },
                Err((s, reason)) => {
                    proof {
                        web::law_room_shrinks_by_one(
                            inspector@,
                            s@,
                            "relabel"@,
                            reason@,
                            reason_text,
                            reason_text,
                            4,
                        );
                    }
                    inspector.record_drop(&s, "relabel", reason.as_str());
                    None
                },
            },
        }
    }

    /// Takes a metric past the guard. `false` says that it is dropped.
    fn check_budget(&mut self, signal: &Signal, inspector: &mut Inspector) -> (r: bool)
        requires
            old(inspector)@.has_room(3),
        ensures
            ({
                let end = guard_stage(old(self).stages(), old(inspector)@, signal@);
                &&& final(self).stages() == end.stages
                &&& final(inspector)@ == end.inspector
                &&& r == (end.signal is Some)
                &&& end.signal matches Some(t) ==> t == signal@
            }),
            final(inspector)@.has_room(2),
            final(self).held() == old(self).held(),
            final(self).limits() == old(self).limits(),
            final(self).last_flush_ns() == old(self).last_flush_ns(),
            final(self).counts() == old(self).counts(),
    {
        let ghost none = Seq::<char>::empty();
        if let Signal::Metric(m) = signal {
            if let Some(g) = &mut self.guard {
                let verdict = g.check_and_record(m.name.as_str(), &m.labels);
                let max: usize = g.max_series();
                if verdict == Verdict::Drop {
                    let lead = text::cat3(
                        "metric ",
                        m.name.as_str(),
                        " exceeded the configured series budget (",
                    );
                    let reason = text::cat3(
                        lead.as_str(),
                        number::dec_u64(max as u64).as_str(),
                        " max) — new series dropped",
                    );
                    proof {
                        web::law_room_shrinks_by_one(
                            inspector@,
                            signal@,
                            "cardinality_guard"@,
                            reason@,
                            none,
                            none,
                            2,
                        );
                    }
                    inspector.record_drop(signal, "cardinality_guard", reason.as_str());
                    return false;
                }
                proof {
                    web::law_room_shrinks_by_one(
                        inspector@,
                        signal@,
                        "cardinality_guard"@,
                        none,
                        none,
                        none,
                        2,
                    );
                }
                inspector.record_stage_pass("cardinality_guard");
            }
        }
        true
    }

    /// Takes a signal through the enabled processors. What comes back has
    /// passed all of them.
    fn run_stages(&mut self, signal: Signal, inspector: &mut Inspector) -> (r: Option<Signal>)
        requires
            old(inspector)@.has_room(5),
        ensures
            flows(
                old(self).stages(),
                old(inspector)@,
                signal@,
                Flow {
                    stages: final(self).stages(),
                    inspector: final(inspector)@,
                    signal: signal::opt_signal(r),
                },
            ),
            final(self).held() == old(self).held(),
            final(self).limits() == old(self).limits(),
            final(self).last_flush_ns() == old(self).last_flush_ns(),
            final(self).counts() == old(self).counts(),
    {
        let ghost start = self.stages();
        let ghost none = Seq::<char>::empty();
        let relabelled = self.relabel(signal, inspector);
        let ghost mid = Flow {
            stages: start,
            inspector: inspector@,
            signal: signal::opt_signal(relabelled),
        };
        assert(relabel_stage(start, old(inspector)@, signal@, mid));
        let signal = match relabelled {
            Some(s) => s,
            None => {
                return None;
            },
        };
        let ghost first = transform_stage(start, inspector@, signal@);
        let signal = match &self.transformer {
            Some(t) => {
                proof {
                    web::law_room_shrinks_by_one(
                        inspector@,
                        signal@,
                        "transform"@,
                        none,
                        none,
                        none,
                        3,
                    );
                }
                let s = t.apply(signal);
                inspector.record_stage_pass("transform");
                s
            },
            None => signal,
        };
        assert(first.signal == Some(signal@) && first.inspector == inspector@);
        assert(inspector@.has_room(3));
        if !self.check_budget(&signal, inspector) {
            return None;
        }
        let signal = match &self.redactor {
            Some(red) => {
                proof {
                    web::law_room_shrinks_by_one(
                        inspector@,
                        signal@,
                        "redact_pii"@,
                        none,
                        none,
                        none,
                        1,
                    );
                }
                let s = red.apply(signal);
                inspector.record_stage_pass("redact_pii");
                s
            },
            None => signal,
        };
        assert(inspector@.has_room(1));
        inspector.record_signal(&signal);
        inspector.record_stage_pass("batch");
        Some(signal)
    }

    /// Takes a signal through the pipeline, at a time given in nanoseconds
    /// since the pipeline was made. What comes back is to be flushed.
    pub fn process_at(
        &mut self,
        signal: Signal,
        inspector: &mut Inspector,
        now_ns: u64,
    ) -> (r: Option<Vec<Signal>>)
        requires
            old(self).counts().signals_in < u64::MAX,
            old(self).counts().signals_drop < u64::MAX,
            old(inspector)@.has_room(5),
            now_ns >= old(self).last_flush_ns(),
        ensures
            exists|end: Flow|
                {
                    &&& #[trigger] flows(old(self).stages(), old(inspector)@, signal@, end)
                    &&& final(self).stages() == end.stages
                    &&& final(inspector)@ == end.inspector
                    &&& final(self).counts() == taken_in(old(self).counts(), end.signal is None)
                    &&& match end.signal {
                        Some(s) => batch::handed_out(r) + final(self).held()
                            == old(self).held().push(s) && (r is Some <==> batch::is_due(
                            old(self).held().len(),
                            old(self).limits().0,
                            old(self).last_flush_ns(),
                            now_ns,
                            old(self).limits().1,
                        )) && (r is Some ==> final(self).held().len() == 0),
                        None => r is None && final(self).held() == old(self).held(),
                    }
                },
            final(self).last_flush_ns() == (if r is Some {
                now_ns
            } else {
                old(self).last_flush_ns()
            }),
            final(self).limits() == old(self).limits(),
    {
        self.tally.signals_in = self.tally.signals_in + 1;
        match self.run_stages(signal, inspector) {
            Some(s) => self.batcher.push_at(s, now_ns),
            None => {
                self.tally.signals_drop = self.tally.signals_drop + 1;
                None
            },
        }
    }

    /// Takes a signal through the pipeline. What comes back is to be flushed:
    /// a batch that is full, or one whose time has come.
    pub fn process(&mut self, signal: Signal, inspector: &mut Inspector) -> (r: Option<Vec<Signal>>)
        requires
            old(self).counts().signals_in < u64::MAX,
            old(self).counts().signals_drop < u64::MAX,
            old(inspector)@.has_room(5),
        ensures
            exists|end: Flow, now_ns: u64|
                {
                    &&& #[trigger] flows(old(self).stages(), old(inspector)@, signal@, end)
                    &&& final(self).stages() == end.stages
                    &&& final(inspector)@ == end.inspector
                    &&& final(self).counts() == taken_in(old(self).counts(), end.signal is None)
                    &&& now_ns >= old(self).last_flush_ns()
                    &&& match end.signal {
                        Some(s) => batch::handed_out(r) + final(self).held()
                            == old(self).held().push(s) && (r is Some
                            <==> #[trigger] batch::is_due(
                            old(self).held().len(),
                            old(self).limits().0,
                            old(self).last_flush_ns(),
                            now_ns,
                            old(self).limits().1,
                        )) && (r is Some ==> final(self).held().len() == 0),
                        None => r is None && final(self).held() == old(self).held(),
                    }
                    &&& final(self).last_flush_ns() == (if r is Some {
                        now_ns
                    } else {
                        old(self).last_flush_ns()
                    })
                },
            final(self).limits() == old(self).limits(),
    {
        let now_ns: u64 = self.batcher.now_ns();
        let r = self.process_at(signal, inspector, now_ns);
        proof {
            let due = batch::is_due(
                old(self).held().len(),
                old(self).limits().0,
                old(self).last_flush_ns(),
                now_ns,
                old(self).limits().1,
            );
        }
        r
    }

    /// Hands out what is held, at the end.
    pub fn drain(&mut self) -> (r: Option<Vec<Signal>>)
        ensures
            batch::handed_out(r) == old(self).held(),
            r is Some <==> old(self).held().len() > 0,
            final(self).held().len() == 0,
            final(self).last_flush_ns() >= old(self).last_flush_ns(),
            r is None ==> final(self).last_flush_ns() == old(self).last_flush_ns(),
            final(self).stages() == old(self).stages(),
            final(self).limits() == old(self).limits(),
            final(self).counts() == old(self).counts(),
    {
        self.batcher.drain()
    }

    /// Counts `n` signals as shipped.
    pub fn record_shipped(&mut self, n: usize)
        requires
            old(self).counts().signals_out + n <= u64::MAX,
        ensures
            final(self).counts() == (Tally {
                signals_out: (old(self).counts().signals_out + n) as u64,
                ..old(self).counts()
            }),
            final(self).stages() == old(self).stages(),
            final(self).held() == old(self).held(),
            final(self).limits() == old(self).limits(),
            final(self).last_flush_ns() == old(self).last_flush_ns(),
    {
        self.tally.signals_out = self.tally.signals_out + n as u64;
    }
}

/// The counts after one more signal came in.
pub open spec fn taken_in(t: Tally, dropped: bool) -> Tally {
    Tally {
        signals_in: (t.signals_in + 1) as u64,
        signals_drop: if dropped {
            (t.signals_drop + 1) as u64
        } else {
            t.signals_drop
        },
        ..t
    }
}

/// No signal is lost: one that came in was dropped, was handed out, or is
/// held. What came in and was not dropped grows by what was handed out and
/// what is held more than before.
pub proof fn law_no_signal_is_lost(
    counts: Tally,
    dropped: bool,
    s: SignalView,
    held: Seq<SignalView>,
    out: Seq<SignalView>,
    held_after: Seq<SignalView>,
)
    requires
        counts.signals_in < u64::MAX,
        counts.signals_drop < u64::MAX,
        dropped ==> out.len() == 0 && held_after == held,
        !dropped ==> out + held_after == held.push(s),
    ensures
        ({
            let after = taken_in(counts, dropped);
            (after.signals_in - after.signals_drop) - (counts.signals_in - counts.signals_drop)
                == out.len() + held_after.len() - held.len()
        }),
{
    if !dropped {
        assert((out + held_after).len() == held.push(s).len());
    }
}

// ---------------------------------------------------------------------------
// Target
// ---------------------------------------------------------------------------

/// What is done with a batch.
#[derive(Debug, Clone, Copy, PartialEq, Eq, Structural)]
pub enum Delivery {
    /// It is printed.
    Print,
    /// It is shipped to the workspace.
    Ship,
    /// It is discarded.
    Discard,
}

/// What is done with batches: a dry run prints them, and without a workspace
/// URL there is nowhere to ship them to.
pub open spec fn delivery_of(dry_run: bool, base_url: Seq<char>) -> Delivery {
    if dry_run {
        Delivery::Print
    } else if base_url.len() > 0 {
        Delivery::Ship
    } else {
        Delivery::Discard
    }
}

/// What is done with batches.
pub fn delivery(dry_run: bool, base_url: &str) -> (r: Delivery)
    ensures
        r == delivery_of(dry_run, base_url@),
{
    if dry_run {
        Delivery::Print
    } else if !base_url.is_empty() {
        Delivery::Ship
    } else {
        Delivery::Discard
    }
}

// ---------------------------------------------------------------------------
// What the stages come to
// ---------------------------------------------------------------------------

/// The node of a source is among the nodes.
pub open spec fn has_source(nodes: Seq<NodeView>, name: Seq<char>, label: Seq<char>) -> bool {
    nodes.contains(NodeView { id: "source:"@ + name, kind: "source"@, label })
}

/// Every source that is enabled is a node of the graph, and there are no other
/// sources in it.
pub proof fn law_every_source_is_a_node(cfg: Config)
    ensures
        ({
            let nodes = source_nodes_of(cfg);
            let s = cfg.sources;
            &&& s.host_metrics is Some ==> has_source(nodes, "host_metrics"@, "host_metrics"@)
            &&& s.journald is Some ==> has_source(nodes, "journald"@, "journald"@)
            &&& s.docker_logs is Some ==> has_source(nodes, "docker_logs"@, "docker_logs"@)
            &&& s.docker_stats is Some ==> has_source(nodes, "docker_stats"@, "docker_stats"@)
            &&& s.kubernetes_pods is Some ==> has_source(
                nodes,
                "kubernetes_pods"@,
                "kubernetes_pods"@,
            )
            &&& s.otlp is Some ==> has_source(nodes, "otlp_receiver"@, "otlp_receiver"@)
            &&& forall|i: int|
                0 <= i < s.file_logs@.len() ==> has_source(
                    nodes,
                    (#[trigger] s.file_logs@[i]).name@,
                    "file_logs · "@ + s.file_logs@[i].name@,
                )
            &&& forall|i: int|
                0 <= i < s.prom_scrape@.len() ==> has_source(
                    nodes,
                    (#[trigger] s.prom_scrape@[i]).name@,
                    "prom_scrape · "@ + s.prom_scrape@[i].name@,
                )
            &&& forall|i: int|
                0 <= i < s.windows_event_log@.len() ==> has_source(
                    nodes,
                    (#[trigger] s.windows_event_log@[i]).name@,
                    "win_event · "@ + s.windows_event_log@[i].name@,
                )
            &&& nodes.len() == s.file_logs@.len() + s.prom_scrape@.len()
                + s.windows_event_log@.len() + one_if(s.host_metrics is Some) + one_if(
                s.journald is Some,
            ) + one_if(s.docker_logs is Some) + one_if(s.docker_stats is Some) + one_if(
                s.kubernetes_pods is Some,
            ) + one_if(s.otlp is Some)
        }),
{
    let s = cfg.sources;
    let a = single_source(s.host_metrics is Some, "host_metrics"@);
    let b = file_logs_nodes(s.file_logs@);
    let c = prom_scrape_nodes(s.prom_scrape@);
    let d = single_source(s.journald is Some, "journald"@);
    let e = windows_event_log_nodes(s.windows_event_log@);
    let f = single_source(s.docker_logs is Some, "docker_logs"@);
    let g = single_source(s.docker_stats is Some, "docker_stats"@);
    let h = single_source(s.kubernetes_pods is Some, "kubernetes_pods"@);
    let k = single_source(s.otlp is Some, "otlp_receiver"@);
    let nodes = source_nodes_of(cfg);
    assert(nodes == a + b + c + d + e + f + g + h + k);
    lemma_both_are_held(a, b);
    lemma_both_are_held(a + b, c);
    lemma_both_are_held(a + b + c, d);
    lemma_both_are_held(a + b + c + d, e);
    lemma_both_are_held(a + b + c + d + e, f);
    lemma_both_are_held(a + b + c + d + e + f, g);
    lemma_both_are_held(a + b + c + d + e + f + g, h);
    lemma_both_are_held(a + b + c + d + e + f + g + h, k);
    lemma_single_is_held(s.host_metrics is Some, "host_metrics"@);
    lemma_single_is_held(s.journald is Some, "journald"@);
    lemma_single_is_held(s.docker_logs is Some, "docker_logs"@);
    lemma_single_is_held(s.docker_stats is Some, "docker_stats"@);
    lemma_single_is_held(s.kubernetes_pods is Some, "kubernetes_pods"@);
    lemma_single_is_held(s.otlp is Some, "otlp_receiver"@);
    assert forall|i: int| 0 <= i < s.file_logs@.len() implies has_source(
        nodes,
        (#[trigger] s.file_logs@[i]).name@,
        "file_logs · "@ + s.file_logs@[i].name@,
    ) by {
        assert(b[i] == named_source("file_logs · "@, s.file_logs@[i].name@));
        assert(b.contains(b[i]));
    }
    assert forall|i: int| 0 <= i < s.prom_scrape@.len() implies has_source(
        nodes,
        (#[trigger] s.prom_scrape@[i]).name@,
        "prom_scrape · "@ + s.prom_scrape@[i].name@,
    ) by {
        assert(c[i] == named_source("prom_scrape · "@, s.prom_scrape@[i].name@));
        assert(c.contains(c[i]));
    }
    assert forall|i: int| 0 <= i < s.windows_event_log@.len() implies has_source(
        nodes,
        (#[trigger] s.windows_event_log@[i]).name@,
        "win_event · "@ + s.windows_event_log@[i].name@,
    ) by {
        assert(e[i] == named_source("win_event · "@, s.windows_event_log@[i].name@));
        assert(e.contains(e[i]));
    }
}

/// One, or none.
pub open spec fn one_if(there: bool) -> int {
    if there {
        1
    } else {
        0
    }
}

proof fn lemma_both_are_held(a: Seq<NodeView>, b: Seq<NodeView>)
    ensures
        forall|n: NodeView| #[trigger] a.contains(n) ==> (a + b).contains(n),
        forall|n: NodeView| #[trigger] b.contains(n) ==> (a + b).contains(n),
{
    assert forall|n: NodeView| #[trigger] a.contains(n) implies (a + b).contains(n) by {
        let j = choose|j: int| 0 <= j < a.len() && a[j] == n;
        assert((a + b)[j] == n);
    }
    assert forall|n: NodeView| #[trigger] b.contains(n) implies (a + b).contains(n) by {
        let j = choose|j: int| 0 <= j < b.len() && b[j] == n;
        assert((a + b)[a.len() + j] == n);
    }
}

proof fn lemma_single_is_held(enabled: bool, name: Seq<char>)
    ensures
        enabled ==> single_source(enabled, name).contains(
            NodeView { id: "source:"@ + name, kind: "source"@, label: name },
        ),
        single_source(enabled, name).len() == one_if(enabled),
{
    if enabled {
        assert(single_source(enabled, name)[0] == node_of("source:"@ + name, "source"@, name));
    }
}

/// The enabled stages are nodes of the graph, in the order in which signals pass
/// them, and batching is the last.
pub proof fn law_stages_stand_in_order(a: bool, b: bool, c: bool, d: bool)
    ensures
        ({
            let nodes = stage_nodes(a, b, c, d);
            let second = one_if(a);
            let third = second + one_if(b);
            let fourth = third + one_if(c);
            let last = fourth + one_if(d);
            &&& nodes.len() == last + 1
            &&& a ==> nodes[0].id == "relabel"@
            &&& b ==> nodes[second].id == "transform"@
            &&& c ==> nodes[third].id == "cardinality_guard"@
            &&& d ==> nodes[fourth].id == "redact_pii"@
            &&& nodes[last].id == "batch"@
            &&& forall|i: int|
                0 <= i < nodes.len() ==> (#[trigger] nodes[i]).kind == "processor"@
                    && nodes[i].label == nodes[i].id
        }),
{
}

/// A processor is enabled exactly when it is configured, with all that is
/// configured for it; the guard begins with an empty record.
pub proof fn law_configured_processors_are_enabled(cfg: Config)
    ensures
        ({
            let stages = stages_of(cfg);
            let p = cfg.processors;
            &&& p.relabel@.len() == 0 ==> stages.relabel is None
            &&& p.relabel@.len() > 0 ==> stages.relabel == Some(relabel::rules_of(p.relabel@))
            &&& p.transform@.len() == 0 ==> stages.transform is None
            &&& p.transform@.len() > 0 ==> stages.transform == Some(
                transform::op_views(p.transform@),
            )
            &&& p.redact_pii@.len() == 0 ==> stages.redact is None
            &&& p.redact_pii@.len() > 0 ==> stages.redact == Some(
                redact_pii::rules_of(p.redact_pii@),
            )
            &&& p.cardinality_guard is None ==> stages.guard is None
            &&& p.cardinality_guard matches Some(c) ==> (stages.guard matches Some((max, series))
                && max == c.max_series_per_metric && series == Map::<
                Seq<char>,
                Set<u64>,
            >::empty())
        }),
        transform::op_views(cfg.processors.transform@).len() == cfg.processors.transform@.len(),
        forall|i: int|
            0 <= i < cfg.processors.transform@.len() ==> #[trigger] transform::op_views(
                cfg.processors.transform@,
            )[i] == cfg.processors.transform@[i]@,
{
}


/// A signal that relabelling lets pass is transformed; what comes of it is held
/// against the budget of its metric, by the name and the labels that it has then;
/// and what is within the budget is redacted and goes into the batch. A log is
/// held against no budget.
pub proof fn law_signals_pass_the_stages_in_order(
    stages: StagesView,
    inspector: InspectorView,
    s: SignalView,
    t: SignalView,
)
    requires
        t == (match stages.transform {
            Some(ops) => transform::applied(ops, s),
            None => s,
        }),
    ensures
        ({
            let end = later_stages(stages, inspector, s);
            let made = match stages.redact {
                Some(rules) => redact_pii::applied(rules, t),
                None => t,
            };
            let over = match (t, stages.guard) {
                (SignalView::Metric(m), Some((max, series))) => cardinality_guard::verdict(
                    series,
                    max,
                    m.name,
                    fingerprint::fingerprint_of(m.labels),
                ) == Verdict::Drop,
                _ => false,
            };
            &&& over ==> end.signal is None
            &&& !over ==> end.signal == Some(made)
            &&& end.stages.relabel == stages.relabel
            &&& end.stages.transform == stages.transform
            &&& end.stages.redact == stages.redact
            &&& match (t, stages.guard) {
                (SignalView::Metric(m), Some((max, series))) => end.stages.guard == Some(
                    (
                        max,
                        cardinality_guard::recorded(
                            series,
                            max,
                            m.name,
                            fingerprint::fingerprint_of(m.labels),
                        ),
                    ),
                ),
                _ => end.stages.guard == stages.guard,
            }
        }),
{
}

/// The pipeline makes of a signal what relabelling makes of it and then the other
/// stages; a signal that relabelling drops goes no further, and without
/// relabelling the others see it as it is.
pub proof fn law_relabelling_comes_first(
    stages: StagesView,
    inspector: InspectorView,
    s: SignalView,
    end: Flow,
)
    requires
        flows(stages, inspector, s, end),
    ensures
        stages.relabel is None ==> end == later_stages(stages, inspector, s),
        stages.relabel matches Some(rules) ==> {
            ||| exists|t: SignalView| #[trigger]
                relabel::may_pass(rules, s, t) && end == later_stages(
                    stages,
                    inspector.pass_recorded("relabel"@),
                    t,
                )
            ||| end.signal is None && exists|at: int, t: SignalView|
                0 <= at < rules.len() && #[trigger] relabel::may_drop(rules, s, at, t)
                    && end.inspector == inspector.drop_recorded(
                    t,
                    "relabel"@,
                    relabel::drop_reason(at, rules[at].action),
                ) && end.stages == stages
        },
{
}

/// Every enabled stage that a shipped signal passes counts it, and no stage counts
/// it as dropped.
pub proof fn law_every_stage_counts_what_passes(
    stages: StagesView,
    inspector: InspectorView,
    s: SignalView,
    stage: Seq<char>,
)
    requires
        later_stages(stages, inspector, s).signal is Some,
        inspector.has_room(5),
    ensures
        ({
            let before = web::stage_stat(inspector.stages, stage);
            let after = web::stage_stat(later_stages(stages, inspector, s).inspector.stages, stage);
            let passes = stage == "batch"@ || (stage == "transform"@ && stages.transform is Some)
                || (stage == "redact_pii"@ && stages.redact is Some) || (stage
                == "cardinality_guard"@ && stages.guard is Some && s is Metric);
            &&& passes ==> after.passed == before.passed + 1
            &&& !passes ==> after.passed == before.passed
            &&& after.dropped == before.dropped
        }),
        later_stages(stages, inspector, s).inspector.drops == inspector.drops,
{
    reveal_strlit("batch");
    reveal_strlit("transform");
    reveal_strlit("redact_pii");
    reveal_strlit("cardinality_guard");
    assert("batch"@.len() == 5 && "transform"@.len() == 9);
    assert("redact_pii"@.len() == 10 && "cardinality_guard"@.len() == 17);
    if let Some(ops) = stages.transform {
        transform::law_transform_touches_labels_only(ops, s);
    }
    if inspector.stages.contains_key(stage) {
        assert(inspector.stages[stage].passed + 5 <= u64::MAX);
    }
}

/// A drop by the guard names the metric and the budget.
pub proof fn law_the_guard_says_why(name: Seq<char>, max: nat)
    ensures
        budget_reason(name, max) == "metric "@ + name
            + " exceeded the configured series budget ("@ + number::dec(max)
            + " max) — new series dropped"@,
{
}

/// Every signal that comes in is counted, and those that are dropped as such.
pub proof fn law_every_signal_is_counted(t: Tally, dropped: bool)
    requires
        t.signals_in < u64::MAX,
        t.signals_drop < u64::MAX,
    ensures
        taken_in(t, dropped).signals_in == t.signals_in + 1,
        taken_in(t, dropped).signals_drop == t.signals_drop + one_if(dropped),
        taken_in(t, dropped).signals_out == t.signals_out,
{
}

/// A dry run prints, and ships nothing; otherwise batches are shipped if there is
/// a workspace to ship them to.
pub proof fn law_a_dry_run_ships_nothing(base_url: Seq<char>)
    ensures
        delivery_of(true, base_url) == Delivery::Print,
        base_url.len() > 0 ==> delivery_of(false, base_url) == Delivery::Ship,
        base_url.len() == 0 ==> delivery_of(false, base_url) == Delivery::Discard,
{
}

/// The graph holds every source, every stage and the target, in this order.
pub proof fn law_the_graph_holds_every_node(
    sources: Seq<NodeView>,
    stages: Seq<NodeView>,
    target: NodeView,
)
    ensures
        ({
            let nodes = topology_of(sources, stages, target).nodes;
            &&& nodes.len() == sources.len() + stages.len() + 1
            &&& forall|i: int| 0 <= i < sources.len() ==> #[trigger] nodes[i] == sources[i]
            &&& forall|i: int|
                sources.len() <= i < sources.len() + stages.len() ==> #[trigger] nodes[i]
                    == stages[i - sources.len()]
            &&& nodes.last() == target
        }),
{
}

} // verus!
