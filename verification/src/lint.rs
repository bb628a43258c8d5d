//! Static checks of a configuration, for the live debugger's Linter tab.

use vstd::prelude::*;

use crate::config;
use crate::config::Config;
use crate::config::RedactPiiRule;
use crate::config::RelabelAction;
use crate::config::RelabelRule;
use crate::config::SourcesConfig;
use crate::config::TransformOp;
use crate::number;
use crate::pattern;
use crate::text;

verus! {

/// A single configuration lint result surfaced in the live debugger.
#[derive(Debug)]
pub struct LintFinding {
    /// "error" | "warning" | "info"
    pub severity: String,
    /// The component the finding relates to, e.g. "processors.relabel[2]".
    pub component: String,
    pub message: String,
}

/// What a `LintFinding` holds.
pub struct FindingView {
    pub severity: Seq<char>,
    pub component: Seq<char>,
    pub message: Seq<char>,
}

impl View for LintFinding {
    type V = FindingView;

    open spec fn view(&self) -> FindingView {
        FindingView {
            severity: self.severity@,
            component: self.component@,
            message: self.message@,
        }
    }
}

impl Clone for LintFinding {
    fn clone(&self) -> (r: Self)
        ensures
            r@ == self@,
    {
        LintFinding {
            severity: self.severity.clone(),
            component: self.component.clone(),
            message: self.message.clone(),
        }
    }
}

/// What the findings of a row hold.
pub open spec fn finding_views(findings: Seq<LintFinding>) -> Seq<FindingView> {
    findings.map_values(|f: LintFinding| f@)
}

/// An error in a component.
pub open spec fn error_of(component: Seq<char>, message: Seq<char>) -> FindingView {
    FindingView { severity: "error"@, component, message }
}

/// A warning about a component.
pub open spec fn warning_of(component: Seq<char>, message: Seq<char>) -> FindingView {
    FindingView { severity: "warning"@, component, message }
}

/// A remark on a component.
pub open spec fn info_of(component: Seq<char>, message: Seq<char>) -> FindingView {
    FindingView { severity: "info"@, component, message }
}

impl LintFinding {
    pub(crate) fn err(component: String, message: String) -> (r: Self)
        ensures
            r@ == error_of(component@, message@),
    {
        LintFinding { severity: "error".to_owned(), component, message }
    }

    pub(crate) fn warn(component: String, message: String) -> (r: Self)
        ensures
            r@ == warning_of(component@, message@),
    {
        LintFinding { severity: "warning".to_owned(), component, message }
    }

    pub(crate) fn info(component: String, message: String) -> (r: Self)
        ensures
            r@ == info_of(component@, message@),
    {
        LintFinding { severity: "info".to_owned(), component, message }
    }
}

// ---------------------------------------------------------------------------
// Model
// ---------------------------------------------------------------------------

/// Label names, in lower case, that frequently cause cardinality explosions
/// when used as a metric label. Used to warn before a config ships rather than
/// after the bill.
pub open spec fn is_high_cardinality_name(l: Seq<char>) -> bool {
    ||| l == "id"@
    ||| l == "uuid"@
    ||| l == "user_id"@
    ||| l == "userid"@
    ||| l == "request_id"@
    ||| l == "requestid"@
    ||| l == "trace_id"@
    ||| l == "traceid"@
    ||| l == "span_id"@
    ||| l == "session"@
    ||| l == "session_id"@
    ||| l == "email"@
    ||| l == "ip"@
    ||| l == "remote_addr"@
    ||| l == "path"@
    ||| l == "url"@
    ||| l == "token"@
}

/// A label with such a name, in any case.
pub open spec fn high_cardinality(label: Seq<char>) -> bool {
    is_high_cardinality_name(number::lower_all(label))
}

/// A source that takes in metrics from elsewhere is enabled.
pub open spec fn takes_foreign_metrics(s: SourcesConfig) -> bool {
    s.prom_scrape@.len() > 0 || s.otlp is Some || s.docker_stats is Some
}

/// The finding, where `found`; none otherwise.
pub open spec fn finding_if(found: bool, f: FindingView) -> Seq<FindingView> {
    if found {
        seq![f]
    } else {
        Seq::empty()
    }
}

pub open spec fn no_target_finding() -> FindingView {
    warning_of(
        "targets.pulseboard"@,
        "No target configured — signals will be processed but never shipped."@,
    )
}

pub open spec fn no_source_finding() -> FindingView {
    warning_of("sources"@, "No sources are enabled — the agent will collect nothing."@)
}

pub open spec fn no_guard_finding() -> FindingView {
    warning_of(
        "processors.cardinality_guard"@,
        "Metric sources are enabled without a cardinality_guard. A label explosion from a scraped exporter could inflate your bill — consider adding [processors.cardinality_guard]."@,
    )
}

/// What is said of the configuration as a whole.
pub open spec fn overall_findings(cfg: Config) -> Seq<FindingView> {
    finding_if(config::targetless(cfg), no_target_finding()) + finding_if(
        cfg.sources.is_empty(),
        no_source_finding(),
    ) + finding_if(
        takes_foreign_metrics(cfg.sources) && cfg.processors.cardinality_guard is None,
        no_guard_finding(),
    )
}

/// The name of the entry at position `i` of a list.
pub open spec fn entry_name(list: Seq<char>, i: nat) -> Seq<char> {
    list + number::dec(i) + "]"@
}

/// An expression that does not compile.
pub open spec fn regex_findings(component: Seq<char>, source: Seq<char>) -> Seq<FindingView> {
    match pattern::regex_error(source) {
        Some(e) => seq![
            error_of(component, "invalid regex "@ + text::quoted(source) + ": "@ + e),
        ],
        None => Seq::empty(),
    }
}

/// What is said of a relabel rule.
pub open spec fn relabel_rule_findings(i: nat, r: RelabelRule) -> Seq<FindingView> {
    let component = entry_name("processors.relabel["@, i);
    (match r.regex {
        Some(source) => regex_findings(component, source@),
        None => Seq::empty(),
    }) + (match r.target_label {
        Some(target) => finding_if(
            r.action == RelabelAction::Replace && high_cardinality(target@),
            warning_of(
                component,
                "relabel writes label "@ + text::quoted(target@)
                    + ", which often has very high cardinality. This may explode series counts."@,
            ),
        ),
        None => Seq::empty(),
    })
}

pub open spec fn relabel_findings(rules: Seq<RelabelRule>) -> Seq<FindingView>
    decreases rules.len(),
{
    if rules.len() == 0 {
        Seq::empty()
    } else {
        relabel_findings(rules.drop_last()) + relabel_rule_findings(
            (rules.len() - 1) as nat,
            rules.last(),
        )
    }
}

pub open spec fn redact_findings(rules: Seq<RedactPiiRule>) -> Seq<FindingView>
    decreases rules.len(),
{
    if rules.len() == 0 {
        Seq::empty()
    } else {
        redact_findings(rules.drop_last()) + regex_findings(
            entry_name("processors.redact_pii["@, (rules.len() - 1) as nat),
            rules.last().pattern@,
        )
    }
}

/// What is said of a transform operation.
pub open spec fn transform_op_findings(i: nat, op: TransformOp) -> Seq<FindingView> {
    match op {
        TransformOp::SetLabel { label, value } => finding_if(
            high_cardinality(label@),
            warning_of(
                entry_name("processors.transform["@, i),
                "transform sets label "@ + text::quoted(label@)
                    + ", which often has very high cardinality. This may explode series counts."@,
            ),
        ),
        _ => Seq::empty(),
    }
}

pub open spec fn transform_findings(ops: Seq<TransformOp>) -> Seq<FindingView>
    decreases ops.len(),
{
    if ops.len() == 0 {
        Seq::empty()
    } else {
        transform_findings(ops.drop_last()) + transform_op_findings(
            (ops.len() - 1) as nat,
            ops.last(),
        )
    }
}

/// All problems of a configuration, in the order in which they are reported.
pub open spec fn problems(cfg: Config) -> Seq<FindingView> {
    overall_findings(cfg) + relabel_findings(cfg.processors.relabel@) + redact_findings(
        cfg.processors.redact_pii@,
    ) + transform_findings(cfg.processors.transform@)
}

/// The problems of a configuration, or the remark that there are none.
pub open spec fn findings(cfg: Config) -> Seq<FindingView> {
    if problems(cfg).len() == 0 {
        seq![info_of("config"@, "No issues found."@)]
    } else {
        problems(cfg)
    }
}

// ---------------------------------------------------------------------------
// Laws
// ---------------------------------------------------------------------------

/// The linter always has something to say, and says that all is well exactly
/// where it has found nothing.
pub proof fn law_linter_is_never_silent(cfg: Config)
    ensures
        findings(cfg).len() > 0,
        findings(cfg).contains(info_of("config"@, "No issues found."@)) <==> problems(cfg).len()
            == 0,
{
    if problems(cfg).len() == 0 {
        assert(findings(cfg)[0] == info_of("config"@, "No issues found."@));
    } else {
        lemma_problems_are_no_remarks(cfg);
        reveal_strlit("info");
        reveal_strlit("error");
        reveal_strlit("warning");
        assert("info"@.len() == 4 && "error"@.len() == 5 && "warning"@.len() == 7);
    }
}

/// A relabel rule whose expression does not compile is reported as an error in
/// that rule.
pub proof fn law_invalid_relabel_regex_is_reported(cfg: Config, i: int)
    requires
        0 <= i < cfg.processors.relabel@.len(),
        cfg.processors.relabel@[i].regex is Some,
        pattern::regex_error(cfg.processors.relabel@[i].regex->0@) is Some,
    ensures
        exists|f: FindingView| #[trigger]
            findings(cfg).contains(f) && f.severity == "error"@ && f.component == entry_name(
                "processors.relabel["@,
                i as nat,
            ),
{
    let rules = cfg.processors.relabel@;
    lemma_relabel_error(rules, i);
    let f = choose|f: FindingView| #[trigger]
        relabel_findings(rules).contains(f) && f.severity == "error"@ && f.component == entry_name(
            "processors.relabel["@,
            i as nat,
        );
    let k = choose|k: int| 0 <= k < relabel_findings(rules).len() && relabel_findings(rules)[k] == f;
    let at = overall_findings(cfg).len() + k;
    assert(problems(cfg)[at] == f);
    assert(findings(cfg).contains(f));
}

proof fn lemma_relabel_error(rules: Seq<RelabelRule>, i: int)
    requires
        0 <= i < rules.len(),
        rules[i].regex is Some,
        pattern::regex_error(rules[i].regex->0@) is Some,
    ensures
        exists|f: FindingView| #[trigger]
            relabel_findings(rules).contains(f) && f.severity == "error"@ && f.component
                == entry_name("processors.relabel["@, i as nat),
    decreases rules.len(),
{
    let init = relabel_findings(rules.drop_last());
    let last = relabel_rule_findings((rules.len() - 1) as nat, rules.last());
    if i == rules.len() - 1 {
        let f = last[0];
        assert(relabel_findings(rules)[init.len() as int] == f);
        assert(relabel_findings(rules).contains(f));
    } else {
        lemma_relabel_error(rules.drop_last(), i);
        let f = choose|f: FindingView| #[trigger]
            init.contains(f) && f.severity == "error"@ && f.component == entry_name(
                "processors.relabel["@,
                i as nat,
            );
        let k = choose|k: int| 0 <= k < init.len() && init[k] == f;
        assert(relabel_findings(rules)[k] == f);
        assert(relabel_findings(rules).contains(f));
    }
}

/// Every finding is an error or a warning.
pub open spec fn no_remarks(s: Seq<FindingView>) -> bool {
    forall|k: int|
        0 <= k < s.len() ==> (#[trigger] s[k]).severity == "error"@ || s[k].severity == "warning"@
}

proof fn lemma_problems_are_no_remarks(cfg: Config)
    ensures
        no_remarks(problems(cfg)),
{
    lemma_relabel_severity(cfg.processors.relabel@);
    lemma_redact_severity(cfg.processors.redact_pii@);
    lemma_transform_severity(cfg.processors.transform@);
    assert(no_remarks(overall_findings(cfg)));
    assert forall|k: int| 0 <= k < problems(cfg).len() implies (#[trigger] problems(
        cfg,
    )[k]).severity == "error"@ || problems(cfg)[k].severity == "warning"@ by {
        let a = overall_findings(cfg);
        let b = relabel_findings(cfg.processors.relabel@);
        let c = redact_findings(cfg.processors.redact_pii@);
        let d = transform_findings(cfg.processors.transform@);
        if k < a.len() {
            assert(problems(cfg)[k] == a[k]);
        } else if k < a.len() + b.len() {
            assert(problems(cfg)[k] == b[k - a.len()]);
        } else if k < a.len() + b.len() + c.len() {
            assert(problems(cfg)[k] == c[k - a.len() - b.len()]);
        } else {
            assert(problems(cfg)[k] == d[k - a.len() - b.len() - c.len()]);
        }
    }
}

proof fn lemma_no_remarks_joined(a: Seq<FindingView>, b: Seq<FindingView>)
    requires
        no_remarks(a),
        no_remarks(b),
    ensures
        no_remarks(a + b),
{
    assert forall|k: int| 0 <= k < (a + b).len() implies (#[trigger] (a + b)[k]).severity
        == "error"@ || (a + b)[k].severity == "warning"@ by {
        if k < a.len() {
            assert((a + b)[k] == a[k]);
        } else {
            assert((a + b)[k] == b[k - a.len()]);
        }
    }
}

proof fn lemma_relabel_severity(rules: Seq<RelabelRule>)
    ensures
        no_remarks(relabel_findings(rules)),
    decreases rules.len(),
{
    if rules.len() > 0 {
        lemma_relabel_severity(rules.drop_last());
        let last = relabel_rule_findings((rules.len() - 1) as nat, rules.last());
        lemma_no_remarks_joined(relabel_findings(rules.drop_last()), last);
    }
}

proof fn lemma_redact_severity(rules: Seq<RedactPiiRule>)
    ensures
        no_remarks(redact_findings(rules)),
    decreases rules.len(),
{
    if rules.len() > 0 {
        lemma_redact_severity(rules.drop_last());
        let last = regex_findings(
            entry_name("processors.redact_pii["@, (rules.len() - 1) as nat),
            rules.last().pattern@,
        );
        lemma_no_remarks_joined(redact_findings(rules.drop_last()), last);
    }
}

proof fn lemma_transform_severity(ops: Seq<TransformOp>)
    ensures
        no_remarks(transform_findings(ops)),
    decreases ops.len(),
{
    if ops.len() > 0 {
        lemma_transform_severity(ops.drop_last());
        let last = transform_op_findings((ops.len() - 1) as nat, ops.last());
        lemma_no_remarks_joined(transform_findings(ops.drop_last()), last);
    }
}

// ---------------------------------------------------------------------------
// Linter
// ---------------------------------------------------------------------------

/// Whether a label with this name often has very many values.
pub fn looks_high_cardinality(label: &str) -> (r: bool)
    ensures
        r == high_cardinality(label@),
{
    let chars = text::chars_of(label);
    let lower = number::ascii_lower(chars.as_slice());
    let l = text::string_of(lower.as_slice());
    let s = l.as_str();
    text::str_eq(s, "id") || text::str_eq(s, "uuid") || text::str_eq(s, "user_id") || text::str_eq(
        s,
        "userid",
    ) || text::str_eq(s, "request_id") || text::str_eq(s, "requestid") || text::str_eq(
        s,
        "trace_id",
    ) || text::str_eq(s, "traceid") || text::str_eq(s, "span_id") || text::str_eq(s, "session")
        || text::str_eq(s, "session_id") || text::str_eq(s, "email") || text::str_eq(s, "ip")
        || text::str_eq(s, "remote_addr") || text::str_eq(s, "path") || text::str_eq(s, "url")
        || text::str_eq(s, "token")
}

/// Whether no source is enabled.
pub fn has_no_source(s: &SourcesConfig) -> (r: bool)
    ensures
        r == s.is_empty(),
{
    s.host_metrics.is_none() && s.file_logs.len() == 0 && s.prom_scrape.len() == 0
        && s.otlp.is_none() && s.journald.is_none() && s.windows_event_log.len() == 0
        && s.docker_logs.is_none() && s.docker_stats.is_none() && s.kubernetes_pods.is_none()
}

fn push(out: &mut Vec<LintFinding>, f: LintFinding)
    ensures
        finding_views(final(out)@) == finding_views(old(out)@).push(f@),
{
    out.push(f);
    assert(finding_views(out@) =~= finding_views(old(out)@).push(f@));
}

fn name_entry(list: &str, i: usize) -> (r: String)
    ensures
        r@ == entry_name(list@, i as nat),
{
    text::cat3(list, number::dec_u64(i as u64).as_str(), "]")
}

/// Reports an expression that does not compile, given the message that says
/// why.
pub fn lint_regex_result(
    out: &mut Vec<LintFinding>,
    component: &str,
    source: &str,
    error: Option<String>,
)
    ensures
        finding_views(final(out)@) == finding_views(old(out)@) + (match error {
            Some(e) => seq![
                error_of(component@, "invalid regex "@ + text::quoted(source@) + ": "@ + e@),
            ],
            None => Seq::empty(),
        }),
{
    if let Some(e) = error {
        let message = text::cat4(
            "invalid regex ",
            text::quote(source).as_str(),
            ": ",
            e.as_str(),
        );
        push(out, LintFinding::err(component.to_owned(), message));
    }
    proof {
        assert(finding_views(old(out)@) + Seq::empty() =~= finding_views(old(out)@));
        if error is Some {
            assert(finding_views(out@) =~= finding_views(old(out)@) + seq![
                error_of(component@, "invalid regex "@ + text::quoted(source@) + ": "@ + error->0@),
            ]);
        }
    }
}

fn lint_regex(out: &mut Vec<LintFinding>, component: &str, source: &str)
    ensures
        finding_views(final(out)@) == finding_views(old(out)@) + regex_findings(
            component@,
            source@,
        ),
{
    let error = match pattern::compile(source) {
        Ok(_) => None,
        Err(e) => Some(e),
    };
    lint_regex_result(out, component, source, error);
}

fn lint_label(
    out: &mut Vec<LintFinding>,
    component: &str,
    lead: &str,
    label: &str,
    concerned: bool,
)
    ensures
        finding_views(final(out)@) == finding_views(old(out)@) + finding_if(
            concerned && high_cardinality(label@),
            warning_of(
                component@,
                lead@ + text::quoted(label@)
                    + ", which often has very high cardinality. This may explode series counts."@,
            ),
        ),
{
    if concerned && looks_high_cardinality(label) {
        let message = text::cat3(
            lead,
            text::quote(label).as_str(),
            ", which often has very high cardinality. This may explode series counts.",
        );
        push(out, LintFinding::warn(component.to_owned(), message));
        assert(finding_views(out@) =~= finding_views(old(out)@) + seq![
            finding_views(out@).last(),
        ]);
    } else {
        assert(finding_views(out@) =~= finding_views(old(out)@) + Seq::empty());
    }
}

fn lint_overall(cfg: &Config) -> (out: Vec<LintFinding>)
    ensures
        finding_views(out@) == overall_findings(*cfg),
{
    let mut out: Vec<LintFinding> = Vec::new();
    assert(finding_views(out@) =~= Seq::empty());
    if config::has_no_target(cfg) {
        push(
            &mut out,
            LintFinding::warn(
                "targets.pulseboard".to_owned(),
                "No target configured — signals will be processed but never shipped.".to_owned(),
            ),
        );
    }
    assert(finding_views(out@) =~= finding_if(config::targetless(*cfg), no_target_finding()));
    let ghost first = finding_views(out@);
    if has_no_source(&cfg.sources) {
        push(
            &mut out,
            LintFinding::warn(
                "sources".to_owned(),
                "No sources are enabled — the agent will collect nothing.".to_owned(),
            ),
        );
    }
    assert(finding_views(out@) =~= first + finding_if(cfg.sources.is_empty(), no_source_finding()));
    let ghost second = finding_views(out@);
    let s = &cfg.sources;
    let foreign = s.prom_scrape.len() > 0 || s.otlp.is_some() || s.docker_stats.is_some();
    if foreign && cfg.processors.cardinality_guard.is_none() {
        push(
            &mut out,
            LintFinding::warn(
                "processors.cardinality_guard".to_owned(),
                "Metric sources are enabled without a cardinality_guard. A label explosion from a scraped exporter could inflate your bill — consider adding [processors.cardinality_guard].".to_owned(),
            ),
        );
    }
    assert(finding_views(out@) =~= second + finding_if(
        takes_foreign_metrics(cfg.sources) && cfg.processors.cardinality_guard is None,
        no_guard_finding(),
    ));
    out
}

fn lint_relabel(out: &mut Vec<LintFinding>, rules: &Vec<RelabelRule>)
    ensures
        finding_views(final(out)@) == finding_views(old(out)@) + relabel_findings(rules@),
{
    let ghost start = finding_views(out@);
    let mut i: usize = 0;
    assert(start + relabel_findings(rules@.take(0)) =~= start);
    while i < rules.len()
        invariant
            i <= rules@.len(),
            finding_views(out@) == start + relabel_findings(rules@.take(i as int)),
        decreases rules@.len() - i,
    {
        let ghost next = rules@.take(i + 1);
        assert(next.drop_last() =~= rules@.take(i as int));
        assert(next.last() == rules@[i as int]);
        let component = name_entry("processors.relabel[", i);
        let ghost before = finding_views(out@);
        let ghost first = match rules@[i as int].regex {
            Some(source) => regex_findings(component@, source@),
            None => Seq::empty(),
        };
        if let Some(source) = &rules[i].regex {
            lint_regex(out, component.as_str(), source.as_str());
        } else {
            assert(finding_views(out@) =~= before + first);
        }
        let ghost middle = finding_views(out@);
        assert(middle == before + first);
        if let Some(target) = &rules[i].target_label {
            lint_label(
                out,
                component.as_str(),
                "relabel writes label ",
                target.as_str(),
                rules[i].action == RelabelAction::Replace,
            );
        } else {
            assert(finding_views(out@) =~= middle + Seq::empty());
        }
        assert(finding_views(out@) =~= start + relabel_findings(next));
        i = i + 1;
    }
    assert(rules@.take(i as int) =~= rules@);
}

fn lint_redact(out: &mut Vec<LintFinding>, rules: &Vec<RedactPiiRule>)
    ensures
        finding_views(final(out)@) == finding_views(old(out)@) + redact_findings(rules@),
{
    let ghost start = finding_views(out@);
    let mut i: usize = 0;
    assert(start + redact_findings(rules@.take(0)) =~= start);
    while i < rules.len()
        invariant
            i <= rules@.len(),
            finding_views(out@) == start + redact_findings(rules@.take(i as int)),
        decreases rules@.len() - i,
    {
        let ghost next = rules@.take(i + 1);
        assert(next.drop_last() =~= rules@.take(i as int));
        assert(next.last() == rules@[i as int]);
        let component = name_entry("processors.redact_pii[", i);
        lint_regex(out, component.as_str(), rules[i].pattern.as_str());
        assert(finding_views(out@) =~= start + redact_findings(next));
        i = i + 1;
    }
    assert(rules@.take(i as int) =~= rules@);
}

fn lint_transform(out: &mut Vec<LintFinding>, ops: &Vec<TransformOp>)
    ensures
        finding_views(final(out)@) == finding_views(old(out)@) + transform_findings(ops@),
{
    let ghost start = finding_views(out@);
    let mut i: usize = 0;
    assert(start + transform_findings(ops@.take(0)) =~= start);
    while i < ops.len()
        invariant
            i <= ops@.len(),
            finding_views(out@) == start + transform_findings(ops@.take(i as int)),
        decreases ops@.len() - i,
    {
        let ghost next = ops@.take(i + 1);
        let ghost before = finding_views(out@);
        assert(next.drop_last() =~= ops@.take(i as int));
        assert(next.last() == ops@[i as int]);
        if let TransformOp::SetLabel { label, value: _ } = &ops[i] {
            let component = name_entry("processors.transform[", i);
            lint_label(out, component.as_str(), "transform sets label ", label.as_str(), true);
        } else {
            assert(finding_views(out@) =~= before + Seq::empty());
        }
        assert(finding_views(out@) =~= start + transform_findings(next));
        i = i + 1;
    }
    assert(ops@.take(i as int) =~= ops@);
}

/// Statically lint a resolved configuration.
pub fn lint(cfg: &Config) -> (r: Vec<LintFinding>)
    ensures
        finding_views(r@) == findings(*cfg),
{
    let mut out = lint_overall(cfg);
    lint_relabel(&mut out, &cfg.processors.relabel);
    lint_redact(&mut out, &cfg.processors.redact_pii);
    lint_transform(&mut out, &cfg.processors.transform);
    if out.len() == 0 {
        assert(finding_views(out@).len() == 0);
        push(&mut out, LintFinding::info("config".to_owned(), "No issues found.".to_owned()));
        assert(finding_views(out@) =~= findings(*cfg));
    } else {
        assert(finding_views(out@).len() > 0);
    }
    out
}

/// What is wrong with a configuration as a whole is reported: that it has no
/// target, that it has no source, and that metrics are taken in from elsewhere
/// without a guard.
pub proof fn law_overall_problems_are_reported(cfg: Config)
    ensures
        config::targetless(cfg) ==> findings(cfg).contains(
            FindingView {
                severity: "warning"@,
                component: "targets.pulseboard"@,
                message: "No target configured — signals will be processed but never shipped."@,
            },
        ),
        cfg.sources.is_empty() ==> findings(cfg).contains(
            FindingView {
                severity: "warning"@,
                component: "sources"@,
                message: "No sources are enabled — the agent will collect nothing."@,
            },
        ),
        (cfg.sources.prom_scrape@.len() > 0 || cfg.sources.otlp is Some
            || cfg.sources.docker_stats is Some) && cfg.processors.cardinality_guard is None
            ==> findings(cfg).contains(
            FindingView {
                severity: "warning"@,
                component: "processors.cardinality_guard"@,
                message: "Metric sources are enabled without a cardinality_guard. A label explosion from a scraped exporter could inflate your bill — consider adding [processors.cardinality_guard]."@,
            },
        ),
{
    let a = finding_if(config::targetless(cfg), no_target_finding());
    let b = finding_if(cfg.sources.is_empty(), no_source_finding());
    let guard = takes_foreign_metrics(cfg.sources) && cfg.processors.cardinality_guard is None;
    let c = finding_if(guard, no_guard_finding());
    let rest = relabel_findings(cfg.processors.relabel@) + redact_findings(
        cfg.processors.redact_pii@,
    ) + transform_findings(cfg.processors.transform@);
    assert(problems(cfg) =~= a + b + c + rest);
    if config::targetless(cfg) {
        assert(problems(cfg)[0] == no_target_finding());
    }
    if cfg.sources.is_empty() {
        assert(problems(cfg)[a.len() as int] == b[0]);
    }
    if guard {
        assert(problems(cfg)[a.len() as int + b.len()] == c[0]);
        assert(findings(cfg).contains(no_guard_finding()));
    }
}

/// Every processor that is wrong is reported, wherever in its list it stands: an
/// expression that does not compile as an error, and a label that often has very
/// many values as a warning.
pub proof fn law_every_wrong_processor_is_reported(cfg: Config, i: int)
    ensures
        0 <= i < cfg.processors.redact_pii@.len() ==> (pattern::regex_error(
            cfg.processors.redact_pii@[i].pattern@,
        ) matches Some(e) ==> findings(cfg).contains(
            FindingView {
                severity: "error"@,
                component: "processors.redact_pii["@ + number::dec(i as nat) + "]"@,
                message: "invalid regex "@ + text::quoted(cfg.processors.redact_pii@[i].pattern@)
                    + ": "@ + e,
            },
        )),
        0 <= i < cfg.processors.relabel@.len() ==> {
            let r = cfg.processors.relabel@[i];
            let component = "processors.relabel["@ + number::dec(i as nat) + "]"@;
            &&& r.regex matches Some(source) ==> (pattern::regex_error(source@) matches Some(e)
                ==> findings(cfg).contains(
                FindingView {
                    severity: "error"@,
                    component,
                    message: "invalid regex "@ + text::quoted(source@) + ": "@ + e,
                },
            ))
            &&& r.action == RelabelAction::Replace ==> (r.target_label matches Some(target) ==> (
            high_cardinality(target@) ==> findings(cfg).contains(
                FindingView {
                    severity: "warning"@,
                    component,
                    message: "relabel writes label "@ + text::quoted(target@)
                        + ", which often has very high cardinality. This may explode series counts."@,
                },
            )))
        },
        0 <= i < cfg.processors.transform@.len() ==> (cfg.processors.transform@[i] matches
            TransformOp::SetLabel { label, value } ==> (high_cardinality(label@) ==> findings(
            cfg,
        ).contains(
            FindingView {
                severity: "warning"@,
                component: "processors.transform["@ + number::dec(i as nat) + "]"@,
                message: "transform sets label "@ + text::quoted(label@)
                    + ", which often has very high cardinality. This may explode series counts."@,
            },
        ))),
{
    let a = overall_findings(cfg);
    let relabel = cfg.processors.relabel@;
    let redact = cfg.processors.redact_pii@;
    let transform = cfg.processors.transform@;
    let b = relabel_findings(relabel);
    let c = redact_findings(redact);
    let d = transform_findings(transform);
    assert(problems(cfg) == a + b + c + d);
    assert forall|f: FindingView| b.contains(f) || c.contains(f) || d.contains(f) implies #[trigger]
        findings(cfg).contains(f) by {
        if b.contains(f) {
            let j = choose|j: int| 0 <= j < b.len() && b[j] == f;
            assert(problems(cfg)[a.len() + j] == f);
        } else if c.contains(f) {
            let j = choose|j: int| 0 <= j < c.len() && c[j] == f;
            assert(problems(cfg)[a.len() + b.len() + j] == f);
        } else {
            let j = choose|j: int| 0 <= j < d.len() && d[j] == f;
            assert(problems(cfg)[a.len() + b.len() + c.len() + j] == f);
        }
    }
    if 0 <= i < relabel.len() {
        lemma_relabel_findings_hold(relabel, i);
        let r = relabel[i];
        let component = entry_name("processors.relabel["@, i as nat);
        let own = relabel_rule_findings(i as nat, r);
        if let Some(source) = r.regex {
            if pattern::regex_error(source@) is Some {
                assert(own[0] == regex_findings(component, source@)[0]);
                assert(own.contains(own[0]));
            }
        }
        if let Some(target) = r.target_label {
            if r.action == RelabelAction::Replace && high_cardinality(target@) {
                assert(own.contains(own[own.len() - 1]));
            }
        }
    }
    if 0 <= i < redact.len() {
        lemma_redact_findings_hold(redact, i);
        let own = regex_findings(
            entry_name("processors.redact_pii["@, i as nat),
            redact[i].pattern@,
        );
        if own.len() > 0 {
            assert(own.contains(own[0]));
        }
    }
    if 0 <= i < transform.len() {
        lemma_transform_findings_hold(transform, i);
        let own = transform_op_findings(i as nat, transform[i]);
        if own.len() > 0 {
            assert(own.contains(own[0]));
        }
    }
}

proof fn lemma_held_by_the_sum(a: Seq<FindingView>, b: Seq<FindingView>)
    ensures
        forall|f: FindingView| #![trigger (a + b).contains(f)]
            a.contains(f) || b.contains(f) <==> (a + b).contains(f),
{
    assert forall|f: FindingView| #![trigger (a + b).contains(f)]
        a.contains(f) || b.contains(f) <==> (a + b).contains(f) by {
        if a.contains(f) {
            let j = choose|j: int| 0 <= j < a.len() && a[j] == f;
            assert((a + b)[j] == f);
        }
        if b.contains(f) {
            let j = choose|j: int| 0 <= j < b.len() && b[j] == f;
            assert((a + b)[a.len() + j] == f);
        }
        if (a + b).contains(f) {
            let j = choose|j: int| 0 <= j < (a + b).len() && (a + b)[j] == f;
            if j < a.len() {
                assert(a[j] == f);
            } else {
                assert(b[j - a.len()] == f);
            }
        }
    }
}

proof fn lemma_relabel_findings_hold(rules: Seq<RelabelRule>, i: int)
    requires
        0 <= i < rules.len(),
    ensures
        forall|f: FindingView| #[trigger]
            relabel_rule_findings(i as nat, rules[i]).contains(f) ==> relabel_findings(
                rules,
            ).contains(f),
    decreases rules.len(),
{
    let front = relabel_findings(rules.drop_last());
    let last = relabel_rule_findings((rules.len() - 1) as nat, rules.last());
    lemma_held_by_the_sum(front, last);
    assert(relabel_findings(rules) == front + last);
    if i < rules.len() - 1 {
        lemma_relabel_findings_hold(rules.drop_last(), i);
        assert(rules.drop_last()[i] == rules[i]);
    }
}

proof fn lemma_redact_findings_hold(rules: Seq<RedactPiiRule>, i: int)
    requires
        0 <= i < rules.len(),
    ensures
        forall|f: FindingView| #[trigger]
            regex_findings(
                entry_name("processors.redact_pii["@, i as nat),
                rules[i].pattern@,
            ).contains(f) ==> redact_findings(rules).contains(f),
    decreases rules.len(),
{
    let front = redact_findings(rules.drop_last());
    let last = regex_findings(
        entry_name("processors.redact_pii["@, (rules.len() - 1) as nat),
        rules.last().pattern@,
    );
    lemma_held_by_the_sum(front, last);
    assert(redact_findings(rules) == front + last);
    if i < rules.len() - 1 {
        lemma_redact_findings_hold(rules.drop_last(), i);
        assert(rules.drop_last()[i] == rules[i]);
    }
}

proof fn lemma_transform_findings_hold(ops: Seq<TransformOp>, i: int)
    requires
        0 <= i < ops.len(),
    ensures
        forall|f: FindingView| #[trigger]
            transform_op_findings(i as nat, ops[i]).contains(f) ==> transform_findings(
                ops,
            ).contains(f),
    decreases ops.len(),
{
    let front = transform_findings(ops.drop_last());
    let last = transform_op_findings((ops.len() - 1) as nat, ops.last());
    lemma_held_by_the_sum(front, last);
    assert(transform_findings(ops) == front + last);
    if i < ops.len() - 1 {
        lemma_transform_findings_hold(ops.drop_last(), i);
        assert(ops.drop_last()[i] == ops[i]);
    }
}

/// There are no false alarms: a configuration with a target and a source, whose
/// metrics are guarded, whose expressions compile and whose labels are not known
/// for their many values has no problems.
pub proof fn law_there_are_no_false_alarms(cfg: Config)
    requires
        !config::targetless(cfg),
        !cfg.sources.is_empty(),
        cfg.processors.cardinality_guard is Some || (cfg.sources.prom_scrape@.len() == 0
            && cfg.sources.otlp is None && cfg.sources.docker_stats is None),
        forall|i: int|
            0 <= i < cfg.processors.relabel@.len() ==> is_fine_rule(
                #[trigger] cfg.processors.relabel@[i],
            ),
        forall|i: int|
            0 <= i < cfg.processors.redact_pii@.len() ==> pattern::regex_error(
                (#[trigger] cfg.processors.redact_pii@[i]).pattern@,
            ) is None,
        forall|i: int|
            0 <= i < cfg.processors.transform@.len() ==> ((#[trigger] cfg.processors.transform@[i])
                matches TransformOp::SetLabel { label, value } ==> !high_cardinality(label@)),
    ensures
        problems(cfg).len() == 0,
{
    lemma_fine_rules(cfg.processors.relabel@);
    lemma_fine_patterns(cfg.processors.redact_pii@);
    lemma_fine_ops(cfg.processors.transform@);
}

/// A rule whose expression, if it has one, compiles, and that writes no label
/// known for its many values.
pub open spec fn is_fine_rule(r: RelabelRule) -> bool {
    &&& r.regex matches Some(source) ==> pattern::regex_error(source@) is None
    &&& r.action == RelabelAction::Replace ==> (r.target_label matches Some(target)
        ==> !high_cardinality(target@))
}

proof fn lemma_fine_rules(rules: Seq<RelabelRule>)
    requires
        forall|i: int| 0 <= i < rules.len() ==> is_fine_rule(#[trigger] rules[i]),
    ensures
        relabel_findings(rules).len() == 0,
    decreases rules.len(),
{
    if rules.len() > 0 {
        assert(is_fine_rule(rules[rules.len() - 1]));
        assert forall|i: int| 0 <= i < rules.drop_last().len() implies is_fine_rule(
            #[trigger] rules.drop_last()[i],
        ) by {
            assert(rules.drop_last()[i] == rules[i]);
        }
        lemma_fine_rules(rules.drop_last());
    }
}

proof fn lemma_fine_patterns(rules: Seq<RedactPiiRule>)
    requires
        forall|i: int|
            0 <= i < rules.len() ==> pattern::regex_error((#[trigger] rules[i]).pattern@) is None,
    ensures
        redact_findings(rules).len() == 0,
    decreases rules.len(),
{
    if rules.len() > 0 {
        assert(pattern::regex_error(rules[rules.len() - 1].pattern@) is None);
        assert forall|i: int| 0 <= i < rules.drop_last().len() implies pattern::regex_error(
            (#[trigger] rules.drop_last()[i]).pattern@,
        ) is None by {
            assert(rules.drop_last()[i] == rules[i]);
        }
        lemma_fine_patterns(rules.drop_last());
    }
}

proof fn lemma_fine_ops(ops: Seq<TransformOp>)
    requires
        forall|i: int|
            0 <= i < ops.len() ==> ((#[trigger] ops[i]) matches TransformOp::SetLabel {
                label,
                value,
            } ==> !high_cardinality(label@)),
    ensures
        transform_findings(ops).len() == 0,
    decreases ops.len(),
{
    if ops.len() > 0 {
        let front = ops.drop_last();
        assert(ops[ops.len() - 1] == ops.last());
        assert forall|i: int| 0 <= i < front.len() implies ((#[trigger] front[i]) matches
            TransformOp::SetLabel { label, value } ==> !high_cardinality(label@)) by {
            assert(front[i] == ops[i]);
        }
        lemma_fine_ops(front);
    }
}

/// The labels that are known for their many values are told by their names, in
/// any case.
pub proof fn law_high_cardinality_labels_are_known(a: Seq<char>, b: Seq<char>)
    ensures
        number::lower_all(a) == number::lower_all(b) ==> high_cardinality(a) == high_cardinality(b),
        is_high_cardinality_name("id"@),
        is_high_cardinality_name("uuid"@),
        is_high_cardinality_name("user_id"@),
        is_high_cardinality_name("userid"@),
        is_high_cardinality_name("request_id"@),
        is_high_cardinality_name("requestid"@),
        is_high_cardinality_name("trace_id"@),
        is_high_cardinality_name("traceid"@),
        is_high_cardinality_name("span_id"@),
        is_high_cardinality_name("session"@),
        is_high_cardinality_name("session_id"@),
        is_high_cardinality_name("email"@),
        is_high_cardinality_name("ip"@),
        is_high_cardinality_name("remote_addr"@),
        is_high_cardinality_name("path"@),
        is_high_cardinality_name("url"@),
        is_high_cardinality_name("token"@),
        high_cardinality(a) == is_high_cardinality_name(number::lower_all(a)),
{
}

/// A finding holds its severity, its component and its message.
pub proof fn law_findings_hold_all_of_their_parts(f: LintFinding, row: Seq<LintFinding>)
    ensures
        f@.severity == f.severity@,
        f@.component == f.component@,
        f@.message == f.message@,
        finding_views(row).len() == row.len(),
        forall|i: int| 0 <= i < row.len() ==> #[trigger] finding_views(row)[i] == row[i]@,
{
}

} // verus!
