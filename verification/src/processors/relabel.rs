//! Prometheus-style relabelling.

use vstd::prelude::*;

use crate::config::RelabelAction;
use crate::config::RelabelRule;
use crate::number;
use crate::pattern;
use crate::pattern::Pattern;
use crate::signal::MetricView;
use crate::signal::Signal;
use crate::signal::SignalView;
use crate::strmap;
use crate::strmap::Labels;
use crate::text;

verus! {

// ---------------------------------------------------------------------------
// Model
// ---------------------------------------------------------------------------

/// A rule, with its defaults filled in. The expression is the one given,
/// anchored at both ends: it matches a text only as a whole. It is absent where
/// none is given and where the one given does not compile.
pub struct RuleView {
    pub source_labels: Seq<Seq<char>>,
    pub separator: Seq<char>,
    pub target_label: Option<Seq<char>>,
    pub regex: Option<Seq<char>>,
    pub replacement: Seq<char>,
    pub action: RelabelAction,
}

/// The expression that matches what another one does, but only as a whole.
pub open spec fn whole(source: Seq<char>) -> Seq<char> {
    "^(?:"@ + source + ")$"@
}

/// The expression of a rule, anchored, where there is one that compiles.
pub open spec fn whole_compiled(s: Option<String>) -> Option<Seq<char>> {
    match s {
        Some(t) => if pattern::regex_error(t@) is None && pattern::regex_error(whole(t@)) is None {
            Some(whole(t@))
        } else {
            None
        },
        None => None,
    }
}

/// The rule that a configured rule stands for.
pub open spec fn rule_of(r: RelabelRule) -> RuleView {
    RuleView {
        source_labels: text::texts(r.source_labels@),
        separator: text::text_or(r.separator, ";"@),
        target_label: text::opt_text(r.target_label),
        regex: whole_compiled(r.regex),
        replacement: text::text_or(r.replacement, "$1"@),
        action: r.action,
    }
}

/// The rules that configured rules stand for.
pub open spec fn rules_of(rules: Seq<RelabelRule>) -> Seq<RuleView> {
    rules.map_values(|r: RelabelRule| rule_of(r))
}

/// What the rules work on: a label set and, of a metric, its name. Of a log
/// there is the label set only.
pub struct State {
    pub labels: Map<Seq<char>, Seq<char>>,
    pub name: Option<Seq<char>>,
}

/// The value of a label; empty where it is absent.
pub open spec fn label_value(labels: Map<Seq<char>, Seq<char>>, key: Seq<char>) -> Seq<char> {
    if labels.contains_key(key) {
        labels[key]
    } else {
        Seq::empty()
    }
}

/// The value of a source label: of a metric, `__name__` stands for its name.
pub open spec fn source_value(s: State, key: Seq<char>) -> Seq<char> {
    match s.name {
        Some(name) if key == "__name__"@ => name,
        _ => label_value(s.labels, key),
    }
}

/// The values of the source labels, with the separator between them.
pub open spec fn joined(sources: Seq<Seq<char>>, separator: Seq<char>, s: State) -> Seq<char>
    decreases sources.len(),
{
    if sources.len() == 0 {
        Seq::empty()
    } else if sources.len() == 1 {
        source_value(s, sources[0])
    } else {
        joined(sources.drop_last(), separator, s) + separator + source_value(s, sources.last())
    }
}

/// Whether the joined source labels match the expression; without one they do.
pub open spec fn rule_matches(rule: RuleView, s: State) -> bool {
    match rule.regex {
        Some(p) => pattern::regex_matches(p, joined(rule.source_labels, rule.separator, s)),
        None => true,
    }
}

/// Whether a signal goes on, given whether its source labels match.
pub open spec fn lets_pass(action: RelabelAction, matched: bool) -> bool {
    match action {
        RelabelAction::Drop => !matched,
        RelabelAction::Keep => matched,
        _ => true,
    }
}

/// Whether the rule drops the signal.
pub open spec fn rejects(rule: RuleView, s: State) -> bool {
    !lets_pass(rule.action, rule_matches(rule, s))
}

/// What a value does when written to a target label: of a metric, `__name__`
/// stands for its name, and an empty value removes the label.
pub open spec fn written(s: State, target: Option<Seq<char>>, value: Seq<char>) -> State {
    match target {
        None => s,
        Some(t) => if t == "__name__"@ && s.name is Some {
            State { name: Some(value), ..s }
        } else if value.len() == 0 {
            State { labels: s.labels.remove(t), ..s }
        } else {
            State { labels: s.labels.insert(t, value), ..s }
        },
    }
}

/// The expression that stands for any text, with all of it as its one group.
pub open spec fn any_text() -> Seq<char> {
    "(?s)(.*)"@
}

/// What a replacement comes to where a rule has no expression: its one group is
/// all of the input.
pub open spec fn replacement_for(input: Seq<char>, replacement: Seq<char>) -> Seq<char> {
    if replacement == "$1"@ {
        input
    } else if !replacement.contains('$') {
        replacement
    } else {
        match pattern::regex_error(any_text()) {
            None => match pattern::regex_expand(any_text(), input, replacement) {
                Some(value) => value,
                None => replacement,
            },
            Some(_) => replacement,
        }
    }
}

/// What a replace rule makes of its input. Without an expression every input
/// matches.
pub open spec fn replaced(rule: RuleView, s: State) -> State {
    let input = joined(rule.source_labels, rule.separator, s);
    match rule.regex {
        Some(p) => match pattern::regex_expand(p, input, rule.replacement) {
            Some(value) => written(s, rule.target_label, value),
            None => s,
        },
        None => written(s, rule.target_label, replacement_for(input, rule.replacement)),
    }
}

/// The labels whose names match the expression, or do not, as `wanted` says.
pub open spec fn selected(
    labels: Map<Seq<char>, Seq<char>>,
    source: Seq<char>,
    wanted: bool,
) -> Map<Seq<char>, Seq<char>> {
    Map::new(
        |k: Seq<char>| labels.contains_key(k) && pattern::regex_matches(source, k) == wanted,
        |k: Seq<char>| labels[k],
    )
}

/// `copies` holds, under each new name that the expression and the template
/// make of a label's name, the value of a label from which that name is made.
/// Where several labels make one name, which of them counts is left open.
pub open spec fn label_copies(
    labels: Map<Seq<char>, Seq<char>>,
    source: Seq<char>,
    template: Seq<char>,
    copies: Map<Seq<char>, Seq<char>>,
) -> bool {
    &&& forall|k: Seq<char>| #[trigger]
        labels.contains_key(k) ==> (pattern::regex_expand(source, k, template) matches Some(n)
            ==> copies.contains_key(n))
    &&& forall|n: Seq<char>| #[trigger]
        copies.contains_key(n) ==> exists|k: Seq<char>| #[trigger]
            labels.contains_key(k) && pattern::regex_expand(source, k, template) == Some(n)
                && copies[n] == labels[k]
}

/// `after` is what a rule that lets the signal pass may make of `before`.
pub open spec fn step(rule: RuleView, before: State, after: State) -> bool {
    match rule.action {
        RelabelAction::Drop | RelabelAction::Keep => after == before,
        RelabelAction::Replace => after == replaced(rule, before),
        RelabelAction::LabelDrop => match rule.regex {
            Some(p) => after == (State { labels: selected(before.labels, p, false), ..before }),
            None => after == before,
        },
        RelabelAction::LabelKeep => match rule.regex {
            Some(p) => after == (State { labels: selected(before.labels, p, true), ..before }),
            None => after == before,
        },
        RelabelAction::LabelMap => match rule.regex {
            Some(p) => exists|copies: Map<Seq<char>, Seq<char>>|
                {
                    &&& #[trigger] label_copies(before.labels, p, rule.replacement, copies)
                    &&& after == (State {
                        labels: before.labels.union_prefer_right(copies),
                        ..before
                    })
                },
            None => after == before,
        },
    }
}

/// What the rules come to: the signal goes on, or the rule at `at` drops it.
pub enum Relabelled {
    Kept(State),
    Dropped { at: int, state: State },
}

/// `end` is what the rules from position `from` on may make of `start`: each
/// is applied to what the one before left, up to the first that drops.
pub open spec fn relabels(rules: Seq<RuleView>, from: int, start: State, end: Relabelled) -> bool
    decreases rules.len() - from,
{
    if from < 0 || from >= rules.len() {
        end == Relabelled::Kept(start)
    } else if rejects(rules[from], start) {
        end == (Relabelled::Dropped { at: from, state: start })
    } else {
        exists|mid: State| #[trigger]
            step(rules[from], start, mid) && relabels(rules, from + 1, mid, end)
    }
}

/// What the rules see of a signal: of a log its labels only.
pub open spec fn state_of(s: SignalView) -> State {
    match s {
        SignalView::Metric(m) => State { labels: m.labels, name: Some(m.name) },
        SignalView::Log(l) => State { labels: l.labels, name: None },
    }
}

/// The signal with what the rules made of it.
pub open spec fn with_state(s: SignalView, state: State) -> SignalView {
    match s {
        SignalView::Metric(m) => SignalView::Metric(
            MetricView {
                labels: state.labels,
                name: match state.name {
                    Some(name) => name,
                    None => m.name,
                },
                ..m
            },
        ),
        SignalView::Log(_) => s.with_labels(state.labels),
    }
}

/// Why the rule at position `at` dropped a signal.
pub open spec fn drop_reason(at: int, action: RelabelAction) -> Seq<char> {
    "relabel rule "@ + number::dec(at as nat) + (if action == RelabelAction::Keep {
        " (keep): source labels did not match the regex"@
    } else {
        " (drop): source labels matched the regex"@
    })
}

/// The signal may go on as `after`.
pub open spec fn may_pass(rules: Seq<RuleView>, before: SignalView, after: SignalView) -> bool {
    exists|end: State| #[trigger]
        relabels(rules, 0, state_of(before), Relabelled::Kept(end)) && after == with_state(
            before,
            end,
        )
}

/// The signal may be dropped by the rule at position `at`, as `after`.
pub open spec fn may_drop(
    rules: Seq<RuleView>,
    before: SignalView,
    at: int,
    after: SignalView,
) -> bool {
    exists|state: State| #[trigger]
        relabels(rules, 0, state_of(before), Relabelled::Dropped { at, state }) && after
            == with_state(before, state)
}

// ---------------------------------------------------------------------------
// Laws
// ---------------------------------------------------------------------------

/// A rule that copies no labels leaves nothing open.
proof fn lemma_step_fixed(rule: RuleView, s: State, a: State, b: State)
    requires
        rule.action != RelabelAction::LabelMap,
        step(rule, s, a),
        step(rule, s, b),
    ensures
        a == b,
{
}

/// Rules without a `label_map` among them leave nothing open: what they make
/// of a signal is fixed.
pub proof fn law_relabel_is_deterministic(
    rules: Seq<RuleView>,
    from: int,
    start: State,
    a: Relabelled,
    b: Relabelled,
)
    requires
        0 <= from,
        forall|i: int|
            0 <= i < rules.len() ==> (#[trigger] rules[i]).action != RelabelAction::LabelMap,
        relabels(rules, from, start, a),
        relabels(rules, from, start, b),
    ensures
        a == b,
    decreases rules.len() - from,
{
    if from < rules.len() && !rejects(rules[from], start) {
        let ma = choose|mid: State| #[trigger]
            step(rules[from], start, mid) && relabels(rules, from + 1, mid, a);
        let mb = choose|mid: State| #[trigger]
            step(rules[from], start, mid) && relabels(rules, from + 1, mid, b);
        lemma_step_fixed(rules[from], start, ma, mb);
        law_relabel_is_deterministic(rules, from + 1, ma, a, b);
    }
}

/// Only a keep or a drop rule drops: without one, every signal goes on.
pub proof fn law_only_keep_and_drop_rules_drop(
    rules: Seq<RuleView>,
    from: int,
    start: State,
    end: Relabelled,
)
    requires
        0 <= from,
        relabels(rules, from, start, end),
        end is Dropped,
    ensures
        from <= end->at < rules.len(),
        rules[end->at].action == RelabelAction::Drop || rules[end->at].action
            == RelabelAction::Keep,
    decreases rules.len() - from,
{
    if from < rules.len() && !rejects(rules[from], start) {
        let mid = choose|mid: State| #[trigger]
            step(rules[from], start, mid) && relabels(rules, from + 1, mid, end);
        law_only_keep_and_drop_rules_drop(rules, from + 1, mid, end);
    }
}

/// Of two rules that differ in dropping and keeping labels only, the one leaves
/// just what the other takes away: together they leave every label with its
/// value, and no label is left by both. Neither touches the name.
pub proof fn law_label_drop_and_keep_part_the_labels(
    drop: RuleView,
    keep: RuleView,
    before: State,
    dropped: State,
    kept: State,
)
    requires
        drop.action == RelabelAction::LabelDrop,
        keep.action == RelabelAction::LabelKeep,
        drop.regex is Some,
        drop.regex == keep.regex,
        step(drop, before, dropped),
        step(keep, before, kept),
    ensures
        dropped.labels.dom().disjoint(kept.labels.dom()),
        dropped.labels.union_prefer_right(kept.labels) == before.labels,
        forall|k: Seq<char>| #[trigger]
            kept.labels.contains_key(k) <==> before.labels.contains_key(k)
                && pattern::regex_matches(keep.regex->0, k),
        dropped.name == before.name,
        kept.name == before.name,
{
    assert(dropped.labels.union_prefer_right(kept.labels) =~= before.labels);
}

/// Copying labels under new names loses none: a label keeps its value unless
/// its name is one of the new names, every name made from a label is there with
/// the value of a label it is made from, and nothing else is. The name is not
/// touched.
pub proof fn law_label_map_adds_to_the_labels(rule: RuleView, before: State, after: State)
    requires
        rule.action == RelabelAction::LabelMap,
        rule.regex is Some,
        step(rule, before, after),
    ensures
        forall|k: Seq<char>| #[trigger]
            before.labels.contains_key(k) ==> after.labels.contains_key(k),
        forall|k: Seq<char>| #[trigger]
            before.labels.contains_key(k) ==> (pattern::regex_expand(
                rule.regex->0,
                k,
                rule.replacement,
            ) matches Some(n) ==> after.labels.contains_key(n)),
        forall|n: Seq<char>| #[trigger]
            after.labels.contains_key(n) ==> {
                ||| before.labels.contains_key(n) && after.labels[n] == before.labels[n]
                ||| exists|k: Seq<char>| #[trigger]
                    before.labels.contains_key(k) && pattern::regex_expand(
                        rule.regex->0,
                        k,
                        rule.replacement,
                    ) == Some(n) && after.labels[n] == before.labels[k]
            },
        forall|n: Seq<char>| #[trigger]
            before.labels.contains_key(n) && after.labels[n] != before.labels[n] ==> exists|
                k: Seq<char>,
            | #[trigger]
                before.labels.contains_key(k) && pattern::regex_expand(
                    rule.regex->0,
                    k,
                    rule.replacement,
                ) == Some(n),
        after.name == before.name,
{
    let p = rule.regex->0;
    let copies = choose|copies: Map<Seq<char>, Seq<char>>|
        {
            &&& #[trigger] label_copies(before.labels, p, rule.replacement, copies)
            &&& after == (State { labels: before.labels.union_prefer_right(copies), ..before })
        };
    assert forall|n: Seq<char>| #[trigger] after.labels.contains_key(n) implies {
        ||| before.labels.contains_key(n) && after.labels[n] == before.labels[n]
        ||| exists|k: Seq<char>| #[trigger]
            before.labels.contains_key(k) && pattern::regex_expand(p, k, rule.replacement) == Some(
                n,
            ) && after.labels[n] == before.labels[k]
    } by {
        if copies.contains_key(n) {
            assert(after.labels[n] == copies[n]);
        }
    }
    assert forall|n: Seq<char>| #[trigger]
        before.labels.contains_key(n) && after.labels[n] != before.labels[n] implies exists|
        k: Seq<char>,
    | #[trigger]
        before.labels.contains_key(k) && pattern::regex_expand(p, k, rule.replacement) == Some(
            n,
        ) by {
        assert(copies.contains_key(n));
    }
}

/// The metric name can be read as the label `__name__`: a keep rule on it alone
/// keeps a metric exactly when its expression matches the name, and a drop rule
/// drops it exactly then.
pub proof fn law_rules_read_the_metric_name(
    rule: RuleView,
    labels: Map<Seq<char>, Seq<char>>,
    name: Seq<char>,
    source: Seq<char>,
)
    requires
        rule.source_labels == seq!["__name__"@],
        rule.regex == Some(source),
    ensures
        ({
            let s = State { labels, name: Some(name) };
            let matched = pattern::regex_matches(source, name);
            &&& rule.action == RelabelAction::Keep ==> (rejects(rule, s) <==> !matched)
            &&& rule.action == RelabelAction::Drop ==> (rejects(rule, s) <==> matched)
        }),
{
}

/// Of a log, rules read and write the labels only: `__name__` is a label like
/// any other.
pub proof fn law_of_a_log_the_name_is_a_label(
    labels: Map<Seq<char>, Seq<char>>,
    value: Seq<char>,
)
    ensures
        ({
            let s = State { labels, name: None };
            &&& source_value(s, "__name__"@) == label_value(labels, "__name__"@)
            &&& value.len() > 0 ==> written(s, Some("__name__"@), value) == (State {
                labels: labels.insert("__name__"@, value),
                name: None,
            })
        }),
{
}

/// A log's line and time, and a metric's value, time and kind, are never
/// touched.
pub proof fn law_relabel_keeps_the_payload(
    rules: Seq<RuleView>,
    before: SignalView,
    after: SignalView,
)
    requires
        may_pass(rules, before, after),
    ensures
        match before {
            SignalView::Metric(m) => after matches SignalView::Metric(n) && n.value == m.value
                && n.timestamp_ms == m.timestamp_ms && n.kind == m.kind,
            SignalView::Log(l) => after matches SignalView::Log(n) && n.line == l.line
                && n.timestamp_ns == l.timestamp_ns,
        },
{
}

/// A replace rule whose expression matches, and whose replacement comes to some
/// text, puts that text under the target label, whether or not the label was
/// there before. Every other label, and the name, are as they were.
pub proof fn law_replace_sets_the_target(
    rule: RuleView,
    before: State,
    after: State,
    target: Seq<char>,
    value: Seq<char>,
)
    requires
        rule.action == RelabelAction::Replace,
        rule.regex is Some,
        rule.target_label == Some(target),
        before.name is None || target != "__name__"@,
        pattern::regex_expand(
            rule.regex->0,
            joined(rule.source_labels, rule.separator, before),
            rule.replacement,
        ) == Some(value),
        value.len() > 0,
        step(rule, before, after),
    ensures
        after.labels.contains_key(target),
        after.labels[target] == value,
        forall|k: Seq<char>|
            k != target ==> (#[trigger] after.labels.contains_key(k) <==> before.labels.contains_key(
                k,
            )),
        forall|k: Seq<char>|
            k != target && before.labels.contains_key(k) ==> #[trigger] after.labels[k]
                == before.labels[k],
        after.name == before.name,
{
}

/// A replace rule whose replacement comes to nothing takes the target label
/// away, and nothing else.
pub proof fn law_empty_replacement_removes_the_target(
    rule: RuleView,
    before: State,
    after: State,
    target: Seq<char>,
)
    requires
        rule.action == RelabelAction::Replace,
        rule.regex is Some,
        rule.target_label == Some(target),
        before.name is None || target != "__name__"@,
        pattern::regex_expand(
            rule.regex->0,
            joined(rule.source_labels, rule.separator, before),
            rule.replacement,
        ) == Some(Seq::<char>::empty()),
        step(rule, before, after),
    ensures
        !after.labels.contains_key(target),
        forall|k: Seq<char>|
            k != target ==> (#[trigger] after.labels.contains_key(k) <==> before.labels.contains_key(
                k,
            )),
        forall|k: Seq<char>|
            k != target && before.labels.contains_key(k) ==> #[trigger] after.labels[k]
                == before.labels[k],
        after.name == before.name,
{
}

/// A replace rule on a metric whose target is `__name__` renames the metric to
/// what the replacement comes to, and leaves its labels as they were.
pub proof fn law_replace_renames_a_metric(
    rule: RuleView,
    before: State,
    after: State,
    value: Seq<char>,
)
    requires
        rule.action == RelabelAction::Replace,
        rule.regex is Some,
        rule.target_label == Some("__name__"@),
        before.name is Some,
        pattern::regex_expand(
            rule.regex->0,
            joined(rule.source_labels, rule.separator, before),
            rule.replacement,
        ) == Some(value),
        step(rule, before, after),
    ensures
        after.name == Some(value),
        after.labels == before.labels,
{
}

/// A replace rule whose expression does not match, or that has no target,
/// changes nothing.
pub proof fn law_replace_without_a_match_changes_nothing(
    rule: RuleView,
    before: State,
    after: State,
)
    requires
        rule.action == RelabelAction::Replace,
        rule.target_label is None || (rule.regex is Some && pattern::regex_expand(
            rule.regex->0,
            joined(rule.source_labels, rule.separator, before),
            rule.replacement,
        ) is None),
        step(rule, before, after),
    ensures
        after == before,
{
}

/// A replace rule without an expression writes its replacement, if there is
/// something in it, to the target label as it stands; where the replacement is
/// left at its default, it writes the source labels.
pub proof fn law_replace_without_an_expression_always_matches(
    rule: RuleView,
    before: State,
    after: State,
    target: Seq<char>,
)
    requires
        rule.action == RelabelAction::Replace,
        rule.regex is None,
        rule.target_label == Some(target),
        before.name is None || target != "__name__"@,
        rule.replacement.len() > 0,
        step(rule, before, after),
    ensures
        after.name == before.name,
        forall|k: Seq<char>|
            k != target ==> (#[trigger] after.labels.contains_key(k) <==> before.labels.contains_key(
                k,
            )),
        forall|k: Seq<char>|
            k != target && before.labels.contains_key(k) ==> #[trigger] after.labels[k]
                == before.labels[k],
        !rule.replacement.contains('$') ==> after.labels.contains_key(target)
            && after.labels[target] == rule.replacement,
        rule.replacement == "$1"@ ==> {
            let input = joined(rule.source_labels, rule.separator, before);
            if input.len() > 0 {
                after.labels.contains_key(target) && after.labels[target] == input
            } else {
                !after.labels.contains_key(target)
            }
        },
{
    reveal_strlit("$1");
    if rule.replacement == "$1"@ {
        assert(rule.replacement[0] == '$');
    }
}

/// One source label stands for its value: of a metric `__name__` stands for the
/// name, and a label that is not there stands for nothing.
pub proof fn law_one_source_label_is_its_value(key: Seq<char>, separator: Seq<char>, s: State)
    ensures
        s.name is Some && key == "__name__"@ ==> joined(seq![key], separator, s) == s.name->0,
        !(s.name is Some && key == "__name__"@) && s.labels.contains_key(key) ==> joined(
            seq![key],
            separator,
            s,
        ) == s.labels[key],
        !(s.name is Some && key == "__name__"@) && !s.labels.contains_key(key) ==> joined(
            seq![key],
            separator,
            s,
        ).len() == 0,
        joined(Seq::empty(), separator, s).len() == 0,
{
}

/// Source labels are read in the order in which they are listed, with the
/// separator between any two: what two lists stand for together is what the one
/// stands for, the separator, and what the other stands for.
pub proof fn law_source_labels_are_joined_in_order(
    a: Seq<Seq<char>>,
    b: Seq<Seq<char>>,
    separator: Seq<char>,
    s: State,
)
    requires
        a.len() > 0,
        b.len() > 0,
    ensures
        joined(a + b, separator, s) == joined(a, separator, s) + separator + joined(
            b,
            separator,
            s,
        ),
    decreases b.len(),
{
    assert((a + b).drop_last() =~= a + b.drop_last());
    assert((a + b).last() == b.last());
    if b.len() == 1 {
        assert(a + b.drop_last() =~= a);
    } else {
        law_source_labels_are_joined_in_order(a, b.drop_last(), separator, s);
        assert(joined(a + b, separator, s) =~= joined(a, separator, s) + separator + joined(
            b,
            separator,
            s,
        ));
    }
}

/// A keep rule lets a signal go on, unchanged, exactly when its expression
/// matches the source labels, and a drop rule exactly when it does not. Rules
/// of the other kinds drop nothing. Without an expression everything matches.
pub proof fn law_keep_and_drop_decide_by_the_match(rule: RuleView, before: State)
    ensures
        ({
            let matched = rule.regex matches Some(p) ==> pattern::regex_matches(
                p,
                joined(rule.source_labels, rule.separator, before),
            );
            &&& rule.action == RelabelAction::Keep ==> (rejects(rule, before) <==> !matched)
            &&& rule.action == RelabelAction::Drop ==> (rejects(rule, before) <==> matched)
            &&& rule.action != RelabelAction::Keep && rule.action != RelabelAction::Drop
                ==> !rejects(rule, before)
        }),
        rule.action == RelabelAction::Keep || rule.action == RelabelAction::Drop ==> forall|
            after: State,
        | #[trigger]
            step(rule, before, after) ==> after == before,
{
}

/// Without an expression that compiles, dropping, keeping and mapping labels
/// does nothing.
pub proof fn law_label_rules_need_an_expression(rule: RuleView, before: State, after: State)
    requires
        rule.action == RelabelAction::LabelDrop || rule.action == RelabelAction::LabelKeep
            || rule.action == RelabelAction::LabelMap,
        rule.regex is None,
        step(rule, before, after),
    ensures
        after == before,
{
}

/// What a configured rule leaves out is filled in: the separator is a semicolon
/// and the replacement the first group. Its expression is anchored at both ends,
/// and is left out where it does not compile.
pub proof fn law_rules_are_taken_as_configured(rules: Seq<RelabelRule>, i: int)
    requires
        0 <= i < rules.len(),
    ensures
        rules_of(rules).len() == rules.len(),
        ({
            let r = rules[i];
            let rule = rules_of(rules)[i];
            &&& rule.action == r.action
            &&& rule.source_labels.len() == r.source_labels@.len()
            &&& forall|j: int|
                0 <= j < r.source_labels@.len() ==> #[trigger] rule.source_labels[j]
                    == r.source_labels@[j]@
            &&& rule.separator == (match r.separator {
                Some(t) => t@,
                None => ";"@,
            })
            &&& rule.replacement == (match r.replacement {
                Some(t) => t@,
                None => "$1"@,
            })
            &&& match r.target_label {
                Some(t) => rule.target_label == Some(t@),
                None => rule.target_label is None,
            }
            &&& match r.regex {
                Some(t) => {
                    let anchored = "^(?:"@ + t@ + ")$"@;
                    if pattern::regex_error(t@) is None && pattern::regex_error(anchored) is None {
                        rule.regex == Some(anchored)
                    } else {
                        rule.regex is None
                    }
                },
                None => rule.regex is None,
            }
        }),
{
}

/// Rules are applied one after the other, none is left out: what two rows of
/// rules make of a signal is what the second makes of what the first makes of
/// it.
pub proof fn law_rules_are_applied_in_order(
    a: Seq<RuleView>,
    b: Seq<RuleView>,
    from: int,
    start: State,
    end: State,
)
    requires
        0 <= from <= a.len(),
    ensures
        relabels(a + b, from, start, Relabelled::Kept(end)) <==> exists|mid: State| #[trigger]
            relabels(a, from, start, Relabelled::Kept(mid)) && relabels(
                b,
                0,
                mid,
                Relabelled::Kept(end),
            ),
    decreases a.len() - from,
{
    let both = a + b;
    if from == a.len() {
        lemma_rest_of_the_rules(a, b, 0, start, Relabelled::Kept(end));
        assert(relabels(a, from, start, Relabelled::Kept(start)));
    } else {
        let rule = a[from];
        assert(both[from] == rule);
        if !rejects(rule, start) {
            if relabels(both, from, start, Relabelled::Kept(end)) {
                let next = choose|next: State| #[trigger]
                    step(rule, start, next) && relabels(
                        both,
                        from + 1,
                        next,
                        Relabelled::Kept(end),
                    );
                law_rules_are_applied_in_order(a, b, from + 1, next, end);
                let mid = choose|mid: State| #[trigger]
                    relabels(a, from + 1, next, Relabelled::Kept(mid)) && relabels(
                        b,
                        0,
                        mid,
                        Relabelled::Kept(end),
                    );
                assert(step(rule, start, next));
                assert(relabels(a, from, start, Relabelled::Kept(mid)));
            }
            if exists|mid: State| #[trigger]
                relabels(a, from, start, Relabelled::Kept(mid)) && relabels(
                    b,
                    0,
                    mid,
                    Relabelled::Kept(end),
                ) {
                let mid = choose|mid: State| #[trigger]
                    relabels(a, from, start, Relabelled::Kept(mid)) && relabels(
                        b,
                        0,
                        mid,
                        Relabelled::Kept(end),
                    );
                let next = choose|next: State| #[trigger]
                    step(rule, start, next) && relabels(a, from + 1, next, Relabelled::Kept(mid));
                law_rules_are_applied_in_order(a, b, from + 1, next, end);
                assert(step(rule, start, next));
            }
        }
    }
}

proof fn lemma_rest_of_the_rules(
    a: Seq<RuleView>,
    b: Seq<RuleView>,
    from: int,
    start: State,
    end: Relabelled,
)
    requires
        0 <= from <= b.len(),
        end is Kept,
    ensures
        relabels(a + b, a.len() + from, start, end) <==> relabels(b, from, start, end),
    decreases b.len() - from,
{
    let both = a + b;
    if from < b.len() {
        let rule = b[from];
        assert(both[a.len() + from] == rule);
        if !rejects(rule, start) {
            assert forall|mid: State|
                #![trigger step(rule, start, mid)]
                relabels(both, a.len() + from + 1, mid, end) <==> relabels(
                    b,
                    from + 1,
                    mid,
                    end,
                ) by {
                lemma_rest_of_the_rules(a, b, from + 1, mid, end);
            }
        }
    }
}

/// One rule alone drops a signal, as it is, or does its one step.
pub proof fn law_one_rule_is_one_step(rule: RuleView, start: State)
    ensures
        forall|end: State| #[trigger]
            relabels(seq![rule], 0, start, Relabelled::Kept(end)) <==> !rejects(rule, start)
                && step(rule, start, end),
        forall|at: int, state: State| #[trigger]
            relabels(seq![rule], 0, start, Relabelled::Dropped { at, state }) <==> rejects(
                rule,
                start,
            ) && at == 0 && state == start,
        forall|end: Relabelled| #[trigger]
            relabels(Seq::empty(), 0, start, end) <==> end == Relabelled::Kept(start),
{
    reveal_with_fuel(relabels, 2);
    let rules = seq![rule];
    assert(rules[0] == rule);
    assert forall|end: State| #[trigger]
        relabels(rules, 0, start, Relabelled::Kept(end)) <==> !rejects(rule, start) && step(
            rule,
            start,
            end,
        ) by {
        if !rejects(rule, start) && step(rule, start, end) {
            assert(relabels(rules, 1, end, Relabelled::Kept(end)));
        }
    }
}

/// A metric that goes on, or is dropped, carries the labels and the name that
/// the rules left it, and a log the labels: the rules start from what the signal
/// carries.
pub proof fn law_signals_carry_what_the_rules_left(rules: Seq<RuleView>, before: SignalView)
    ensures
        before matches SignalView::Metric(m) ==> {
            let start = State { labels: m.labels, name: Some(m.name) };
            forall|after: SignalView| #[trigger]
                may_pass(rules, before, after) ==> (after matches SignalView::Metric(n) && relabels(
                    rules,
                    0,
                    start,
                    Relabelled::Kept(State { labels: n.labels, name: Some(n.name) }),
                ))
        },
        before matches SignalView::Log(l) ==> {
            let start = State { labels: l.labels, name: None };
            forall|after: SignalView| #[trigger]
                may_pass(rules, before, after) ==> (after matches SignalView::Log(n) && relabels(
                    rules,
                    0,
                    start,
                    Relabelled::Kept(State { labels: n.labels, name: None }),
                ))
        },
        before matches SignalView::Metric(m) ==> {
            let start = State { labels: m.labels, name: Some(m.name) };
            forall|at: int, after: SignalView| #[trigger]
                may_drop(rules, before, at, after) ==> (after matches SignalView::Metric(n)
                    && relabels(
                    rules,
                    0,
                    start,
                    Relabelled::Dropped {
                        at,
                        state: State { labels: n.labels, name: Some(n.name) },
                    },
                ))
        },
        before matches SignalView::Log(l) ==> {
            let start = State { labels: l.labels, name: None };
            forall|at: int, after: SignalView| #[trigger]
                may_drop(rules, before, at, after) ==> (after matches SignalView::Log(n)
                    && relabels(
                    rules,
                    0,
                    start,
                    Relabelled::Dropped { at, state: State { labels: n.labels, name: None } },
                ))
        },
{
    let start = state_of(before);
    assert forall|after: SignalView| #[trigger] may_pass(rules, before, after) implies exists|
        end: State,
    | #[trigger]
        relabels(rules, 0, start, Relabelled::Kept(end)) && after == with_state(before, end)
        && (end.name is Some <==> start.name is Some) by {
        let end = choose|end: State| #[trigger]
            relabels(rules, 0, start, Relabelled::Kept(end)) && after == with_state(before, end);
        lemma_a_name_stays_a_name(rules, 0, start, Relabelled::Kept(end));
    }
    assert forall|at: int, after: SignalView| #[trigger]
        may_drop(rules, before, at, after) implies exists|state: State| #[trigger]
        relabels(rules, 0, start, Relabelled::Dropped { at, state }) && after == with_state(
            before,
            state,
        ) && (state.name is Some <==> start.name is Some) by {
        let state = choose|state: State| #[trigger]
            relabels(rules, 0, start, Relabelled::Dropped { at, state }) && after == with_state(
                before,
                state,
            );
        lemma_a_name_stays_a_name(rules, 0, start, Relabelled::Dropped { at, state });
    }
}

proof fn lemma_a_name_stays_a_name(
    rules: Seq<RuleView>,
    from: int,
    start: State,
    end: Relabelled,
)
    requires
        0 <= from,
        relabels(rules, from, start, end),
    ensures
        match end {
            Relabelled::Kept(s) => s.name is Some <==> start.name is Some,
            Relabelled::Dropped { state, .. } => state.name is Some <==> start.name is Some,
        },
    decreases rules.len() - from,
{
    if from < rules.len() && !rejects(rules[from], start) {
        let mid = choose|mid: State| #[trigger]
            step(rules[from], start, mid) && relabels(rules, from + 1, mid, end);
        lemma_a_name_stays_a_name(rules, from + 1, mid, end);
    }
}

/// Only the rule at the position that is reported drops the signal: the rules
/// before it let it pass, and it drops what they left.
pub proof fn law_the_reported_rule_drops(
    rules: Seq<RuleView>,
    from: int,
    start: State,
    at: int,
    state: State,
)
    requires
        0 <= from,
        relabels(rules, from, start, Relabelled::Dropped { at, state }),
    ensures
        from <= at < rules.len(),
        rejects(rules[at], state),
        relabels(rules.take(at), from, start, Relabelled::Kept(state)),
    decreases rules.len() - from,
{
    if from < rules.len() && !rejects(rules[from], start) {
        let end = Relabelled::Dropped { at, state };
        let mid = choose|mid: State| #[trigger]
            step(rules[from], start, mid) && relabels(rules, from + 1, mid, end);
        law_the_reported_rule_drops(rules, from + 1, mid, at, state);
        assert(rules.take(at)[from] == rules[from]);
        assert(step(rules.take(at)[from], start, mid));
    }
}

/// The reason for a drop says which rule dropped the signal and whether it was
/// for a match or for want of one.
pub proof fn law_drop_reason_names_the_rule(at: nat)
    ensures
        drop_reason(at as int, RelabelAction::Keep) == "relabel rule "@ + number::dec(at)
            + " (keep): source labels did not match the regex"@,
        drop_reason(at as int, RelabelAction::Drop) == "relabel rule "@ + number::dec(at)
            + " (drop): source labels matched the regex"@,
{
}

// ---------------------------------------------------------------------------
// Rules
// ---------------------------------------------------------------------------

/// A rule that is ready to be applied.
#[derive(Debug)]
pub struct CompiledRule {
    source_labels: Vec<String>,
    separator: String,
    target_label: Option<String>,
    regex: Option<Pattern>,
    replacement: String,
    action: RelabelAction,
}

impl CompiledRule {
    /// The rule.
    pub closed spec fn rule(self) -> RuleView {
        RuleView {
            source_labels: text::texts(self.source_labels@),
            separator: self.separator@,
            target_label: text::opt_text(self.target_label),
            regex: match self.regex {
                Some(p) => Some(p@),
                None => None,
            },
            replacement: self.replacement@,
            action: self.action,
        }
    }
}

fn compile_whole(source: &Option<String>) -> (r: Option<Pattern>)
    ensures
        match r {
            Some(p) => whole_compiled(*source) == Some(p@),
            None => whole_compiled(*source) is None,
        },
{
    match source {
        Some(s) => match pattern::compile(s.as_str()) {
            Ok(_) => match pattern::compile(text::cat3("^(?:", s.as_str(), ")$").as_str()) {
                Ok(p) => Some(p),
                Err(_) => None,
            },
            Err(_) => None,
        },
        None => None,
    }
}

/// Makes a configured rule ready to be applied.
pub fn compile_rule(r: &RelabelRule) -> (c: CompiledRule)
    ensures
        c.rule() == rule_of(*r),
{
    CompiledRule {
        source_labels: text::copy_texts(&r.source_labels),
        separator: text::copy_or(&r.separator, ";"),
        target_label: text::copy_option(&r.target_label),
        regex: compile_whole(&r.regex),
        replacement: text::copy_or(&r.replacement, "$1"),
        action: r.action,
    }
}

/// The state that a label set and, of a metric, its name make up.
pub open spec fn state_with(labels: Labels, metric_name: Option<String>) -> State {
    State { labels: labels@, name: text::opt_text(metric_name) }
}

/// The values of the source labels, with the separator between them. Of a
/// metric, the label `__name__` is its name; an absent label counts as empty.
pub fn join_source_labels(
    sources: &Vec<String>,
    sep: &str,
    labels: &Labels,
    metric_name: &Option<String>,
) -> (r: String)
    ensures
        r@ == joined(text::texts(sources@), sep@, state_with(*labels, *metric_name)),
{
    let ghost state = state_with(*labels, *metric_name);
    let mut out = String::new();
    let mut i: usize = 0;
    while i < sources.len()
        invariant
            i <= sources@.len(),
            state == state_with(*labels, *metric_name),
            out@ == joined(text::texts(sources@.take(i as int)), sep@, state),
        decreases sources@.len() - i,
    {
        let ghost so_far = text::texts(sources@.take(i as int));
        let ghost next = text::texts(sources@.take(i + 1));
        assert(next.len() == i + 1);
        assert(next.drop_last() =~= so_far);
        if i > 0 {
            out.append(sep);
        }
        let is_name = text::str_eq(sources[i].as_str(), "__name__");
        match metric_name {
            Some(name) if is_name => {
                out.append(name.as_str());
            },
            _ => {
                if let Some(v) = labels.get(sources[i].as_str()) {
                    out.append(v.as_str());
                }
            },
        }
        assert(out@ =~= joined(next, sep@, state));
        i = i + 1;
    }
    assert(sources@.take(i as int) =~= sources@);
    out
}

/// Whether a signal goes on, given whether its source labels match.
pub fn passes(action: RelabelAction, matched: bool) -> (r: bool)
    ensures
        r == lets_pass(action, matched),
{
    match action {
        RelabelAction::Drop => !matched,
        RelabelAction::Keep => matched,
        _ => true,
    }
}

/// What a replacement comes to where a rule has no expression: its one group is
/// all of the input.
pub fn expand_whole(input: &str, replacement: &str) -> (r: String)
    ensures
        r@ == replacement_for(input@, replacement@),
{
    if text::str_eq(replacement, "$1") {
        return input.to_owned();
    }
    let chars = text::chars_of(replacement);
    proof {
        text::lemma_find_char_from(replacement@, '$', 0);
    }
    if text::find_char_at(chars.as_slice(), '$', 0).is_none() {
        return replacement.to_owned();
    }
    match pattern::compile("(?s)(.*)") {
        Ok(re) => match re.expand(input, replacement) {
            Some(value) => value,
            None => replacement.to_owned(),
        },
        Err(_) => replacement.to_owned(),
    }
}

/// Writes `value` to the target label: of a metric, `__name__` stands for its
/// name, and an empty value removes the label.
pub fn write_target(
    labels: &mut Labels,
    metric_name: &mut Option<String>,
    target: &Option<String>,
    value: String,
)
    ensures
        state_with(*final(labels), *final(metric_name)) == written(
            state_with(*old(labels), *old(metric_name)),
            text::opt_text(*target),
            value@,
        ),
{
    if let Some(t) = target {
        if text::str_eq(t.as_str(), "__name__") && metric_name.is_some() {
            *metric_name = Some(value);
        } else if value.as_str().is_empty() {
            let _ = labels.remove(t.as_str());
        } else {
            let _ = labels.insert(t.clone(), value);
        }
    }
}

fn select_labels(labels: &mut Labels, re: &Pattern, wanted: bool)
    ensures
        final(labels)@ == selected(old(labels)@, re@, wanted),
{
    let mut kept = Labels::new();
    let n: usize = labels.len();
    let ghost pairs = labels.pairs();
    let mut i: usize = 0;
    assert(kept@ =~= selected(strmap::pairs_map(pairs.take(0)), re@, wanted));
    while i < n
        invariant
            i <= n,
            n == pairs.len(),
            pairs == labels.pairs(),
            kept@ == selected(strmap::pairs_map(pairs.take(i as int)), re@, wanted),
        decreases n - i,
    {
        let (k, v) = labels.entry_at(i);
        let ghost next = pairs.take(i + 1);
        assert(next.drop_last() =~= pairs.take(i as int));
        assert(next.last() == pairs[i as int]);
        if re.is_match(k.as_str()) == wanted {
            let _ = kept.insert(k.clone(), v.clone());
        }
        assert(kept@ =~= selected(strmap::pairs_map(next), re@, wanted));
        i = i + 1;
    }
    assert(pairs.take(i as int) =~= pairs);
    *labels = kept;
}

fn copy_labels(labels: &mut Labels, re: &Pattern, template: &str)
    ensures
        exists|copies: Map<Seq<char>, Seq<char>>|
            {
                &&& #[trigger] label_copies(old(labels)@, re@, template@, copies)
                &&& final(labels)@ == old(labels)@.union_prefer_right(copies)
            },
{
    let mut copies = Labels::new();
    let n: usize = labels.len();
    let ghost pairs = labels.pairs();
    let ghost all = labels@;
    let mut i: usize = 0;
    proof {
        strmap::lemma_pairs_map(pairs);
    }
    while i < n
        invariant
            i <= n,
            n == pairs.len(),
            pairs == labels.pairs(),
            all == labels@,
            forall|j: int|
                #![trigger pairs[j]]
                0 <= j < pairs.len() ==> all.contains_key(pairs[j].0@) && all[pairs[j].0@]
                    == pairs[j].1@,
            forall|j: int|
                #![trigger pairs[j]]
                0 <= j < i ==> (pattern::regex_expand(re@, pairs[j].0@, template@) matches Some(m)
                    ==> copies@.contains_key(m)),
            forall|m: Seq<char>| #[trigger]
                copies@.contains_key(m) ==> exists|k: Seq<char>| #[trigger]
                    all.contains_key(k) && pattern::regex_expand(re@, k, template@) == Some(m)
                        && copies@[m] == all[k],
        decreases n - i,
    {
        let (k, v) = labels.entry_at(i);
        let ghost before = copies@;
        assert(k@ == pairs[i as int].0@);
        if let Some(new_key) = re.expand(k.as_str(), template) {
            let _ = copies.insert(new_key, v.clone());
            assert forall|m: Seq<char>| #[trigger] copies@.contains_key(m) implies exists|
                k2: Seq<char>,
            | #[trigger]
                all.contains_key(k2) && pattern::regex_expand(re@, k2, template@) == Some(m)
                    && copies@[m] == all[k2] by {
                if m == new_key@ {
                    assert(all.contains_key(k@));
                } else {
                    assert(before.contains_key(m));
                }
            }
        }
        i = i + 1;
    }
    proof {
        assert forall|k: Seq<char>| #[trigger] all.contains_key(k) implies (pattern::regex_expand(
            re@,
            k,
            template@,
        ) matches Some(m) ==> copies@.contains_key(m)) by {
            let j = choose|j: int| 0 <= j < pairs.len() && (#[trigger] pairs[j]).0@ == k;
            assert(pairs[j].0@ == k);
        }
        assert(label_copies(all, re@, template@, copies@));
    }
    labels.extend(&copies);
}

/// Applies one rule; `metric_name` is absent for a log. `false` says that the
/// signal is to be dropped; it is then left as it was. Dropping labels leaves
/// those whose names the expression does not match, and keeping labels the
/// others; no label is lost by copying labels, and none of the three touches
/// the name.
pub fn apply_rule(
    rule: &CompiledRule,
    labels: &mut Labels,
    metric_name: &mut Option<String>,
) -> (r: bool)
    ensures
        ({
            let before = state_with(*old(labels), *old(metric_name));
            let after = state_with(*final(labels), *final(metric_name));
            if r {
                !rejects(rule.rule(), before) && step(rule.rule(), before, after)
            } else {
                rejects(rule.rule(), before) && after == before
            }
        }),
        (rule.rule().action == RelabelAction::LabelDrop || rule.rule().action
            == RelabelAction::LabelKeep || rule.rule().action == RelabelAction::LabelMap) ==> r
            && text::opt_text(*final(metric_name)) == text::opt_text(*old(metric_name)),
        rule.rule().regex matches Some(re) ==> {
            &&& rule.rule().action == RelabelAction::LabelDrop ==> final(labels)@ == selected(
                old(labels)@,
                re,
                false,
            )
            &&& rule.rule().action == RelabelAction::LabelKeep ==> final(labels)@ == selected(
                old(labels)@,
                re,
                true,
            )
            &&& rule.rule().action == RelabelAction::LabelMap ==> exists|
                copies: Map<Seq<char>, Seq<char>>,
            |
                {
                    &&& #[trigger] label_copies(old(labels)@, re, rule.rule().replacement, copies)
                    &&& final(labels)@ == old(labels)@.union_prefer_right(copies)
                }
        },
{
    let ghost before = state_with(*labels, *metric_name);
    match rule.action {
        RelabelAction::Drop | RelabelAction::Keep => {
            let src_value = join_source_labels(
                &rule.source_labels,
                rule.separator.as_str(),
                labels,
                metric_name,
            );
            let matched = match &rule.regex {
                Some(re) => re.is_match(src_value.as_str()),
                None => true,
            };
            return passes(rule.action, matched);
        },
        RelabelAction::Replace => {
            let src_value = join_source_labels(
                &rule.source_labels,
                rule.separator.as_str(),
                labels,
                metric_name,
            );
            assert(src_value@ == joined(rule.rule().source_labels, rule.rule().separator, before));
            match &rule.regex {
                Some(re) => {
                    if let Some(value) = re.expand(src_value.as_str(), rule.replacement.as_str()) {
                        write_target(labels, metric_name, &rule.target_label, value);
                    }
                },
                None => {
                    let value = expand_whole(src_value.as_str(), rule.replacement.as_str());
                    write_target(labels, metric_name, &rule.target_label, value);
                },
            }
        },
        RelabelAction::LabelDrop => {
            if let Some(re) = &rule.regex {
                select_labels(labels, re, false);
            }
        },
        RelabelAction::LabelKeep => {
            if let Some(re) = &rule.regex {
                select_labels(labels, re, true);
            }
        },
        RelabelAction::LabelMap => {
            if let Some(re) = &rule.regex {
                copy_labels(labels, re, rule.replacement.as_str());
            }
        },
    }
    true
}

/// Applies relabel rules in order.
#[derive(Debug)]
pub struct Relabeler {
    rules: Vec<CompiledRule>,
}

impl Relabeler {
    /// The rules.
    pub closed spec fn rules(&self) -> Seq<RuleView> {
        self.rules@.map_values(|r: CompiledRule| r.rule())
    }

    pub fn new(rules: &[RelabelRule]) -> (r: Self)
        ensures
            r.rules() == rules_of(rules@),
    {
        let mut compiled_rules: Vec<CompiledRule> = Vec::new();
        let mut i: usize = 0;
        while i < rules.len()
            invariant
                i <= rules@.len(),
                compiled_rules@.len() == i,
                forall|j: int|
                    0 <= j < i ==> (#[trigger] compiled_rules@[j]).rule() == rule_of(rules@[j]),
            decreases rules@.len() - i,
        {
            compiled_rules.push(compile_rule(&rules[i]));
            i = i + 1;
        }
        let r = Relabeler { rules: compiled_rules };
        assert(r.rules() =~= rules_of(rules@));
        r
    }

    /// Applies the rules from position `i` on. Gives the position of the rule
    /// that drops the signal, if one does.
    fn run(
        &self,
        i: usize,
        labels: &mut Labels,
        metric_name: &mut Option<String>,
    ) -> (r: Option<usize>)
        requires
            i <= self.rules@.len(),
        ensures
            ({
                let start = state_with(*old(labels), *old(metric_name));
                let end = state_with(*final(labels), *final(metric_name));
                match r {
                    None => relabels(self.rules(), i as int, start, Relabelled::Kept(end)),
                    Some(at) => at < self.rules@.len() && relabels(
                        self.rules(),
                        i as int,
                        start,
                        Relabelled::Dropped { at: at as int, state: end },
                    ),
                }
            }),
        decreases self.rules@.len() - i,
    {
        if i >= self.rules.len() {
            return None;
        }
        let ghost start = state_with(*labels, *metric_name);
        assert(self.rules()[i as int] == self.rules@[i as int].rule());
        if !apply_rule(&self.rules[i], labels, metric_name) {
            return Some(i);
        }
        let ghost mid = state_with(*labels, *metric_name);
        assert(step(self.rules()[i as int], start, mid));
        self.run(i + 1, labels, metric_name)
    }

    /// Applies the rules. A dropped signal comes back as it was when the rule
    /// dropped it, with the reason.
    pub fn apply_traced(&self, signal: Signal) -> (r: Result<Signal, (Signal, String)>)
        ensures
            match r {
                Ok(s) => may_pass(self.rules(), signal@, s@),
                Err((s, reason)) => exists|at: int|
                    {
                        &&& 0 <= at < self.rules().len()
                        &&& #[trigger] may_drop(self.rules(), signal@, at, s@)
                        &&& reason@ == drop_reason(at, self.rules()[at].action)
                    },
            },
    {
        let ghost before = signal@;
        let ghost start = state_of(before);
        match signal {
            Signal::Metric(mut m) => {
                let mut labels = Labels::new();
                let mut name: Option<String> = Some(m.name.clone());
                std::mem::swap(&mut labels, &mut m.labels);
                let dropped = self.run(0, &mut labels, &mut name);
                let ghost end = state_with(labels, name);
                m.labels = labels;
                if let Some(n) = name {
                    m.name = n;
                }
                let s = Signal::Metric(m);
                assert(s@ == with_state(before, end));
                match dropped {
                    None => Ok(s),
                    Some(at) => {
                        let reason = self.reason(at);
                        assert(may_drop(self.rules(), before, at as int, s@));
                        Err((s, reason))
                    },
                }
            },
            Signal::Log(mut l) => {
                let mut labels = Labels::new();
                let mut name: Option<String> = None;
                std::mem::swap(&mut labels, &mut l.labels);
                let dropped = self.run(0, &mut labels, &mut name);
                let ghost end = state_with(labels, name);
                l.labels = labels;
                let s = Signal::Log(l);
                assert(s@ == with_state(before, end));
                match dropped {
                    None => Ok(s),
                    Some(at) => {
                        let reason = self.reason(at);
                        assert(may_drop(self.rules(), before, at as int, s@));
                        Err((s, reason))
                    },
                }
            },
        }
    }

    fn reason(&self, at: usize) -> (r: String)
        requires
            at < self.rules@.len(),
        ensures
            r@ == drop_reason(at as int, self.rules()[at as int].action),
    {
        let n = number::dec_u64(at as u64);
        if self.rules[at].action == RelabelAction::Keep {
            text::cat3(
                "relabel rule ",
                n.as_str(),
                " (keep): source labels did not match the regex",
            )
        } else {
            text::cat3("relabel rule ", n.as_str(), " (drop): source labels matched the regex")
        }
    }

    /// Returns `None` if the signal should be dropped, `Some(signal)` otherwise.
    pub fn apply(&self, signal: Signal) -> (r: Option<Signal>)
        ensures
            match r {
                Some(s) => may_pass(self.rules(), signal@, s@),
                None => exists|at: int, s: SignalView|
                    0 <= at < self.rules().len() && #[trigger] may_drop(
                        self.rules(),
                        signal@,
                        at,
                        s,
                    ),
            },
    {
        match self.apply_traced(signal) {
            Ok(s) => Some(s),
            Err(_) => None,
        }
    }
}

/// Where a rule without an expression has a replacement with groups in it, its one
/// group is all of the input.
pub proof fn law_without_an_expression_the_input_is_the_group(
    input: Seq<char>,
    replacement: Seq<char>,
    value: Seq<char>,
)
    requires
        pattern::regex_error("(?s)(.*)"@) is None,
        pattern::regex_expand("(?s)(.*)"@, input, replacement) == Some(value),
        replacement.contains('$'),
        replacement != "$1"@,
    ensures
        replacement_for(input, replacement) == value,
{
}

/// What the rules work on is the label set and, of a metric, its name.
pub proof fn law_rules_work_on_labels_and_name(labels: Labels, name: String)
    ensures
        state_with(labels, Some(name)).labels == labels@,
        state_with(labels, Some(name)).name == Some(name@),
        state_with(labels, None).labels == labels@,
        state_with(labels, None).name is None,
{
}

/// A configured replace rule that reads one label rewrites the target label of
/// every signal whose label its expression matches: the signal that goes on holds
/// what the replacement comes to, in place of what it held before, and its other
/// labels as they were. So it is for metrics and for logs.
pub proof fn law_a_replace_rule_rewrites_its_target(
    r: RelabelRule,
    before: SignalView,
    after: SignalView,
    source: Seq<char>,
    target: Seq<char>,
    value: Seq<char>,
)
    requires
        r.action == RelabelAction::Replace,
        r.source_labels@.len() == 1,
        r.source_labels@[0]@ == source,
        source != "__name__"@,
        before.labels().contains_key(source),
        r.target_label is Some,
        r.target_label->0@ == target,
        target != "__name__"@,
        r.regex is Some,
        pattern::regex_error(r.regex->0@) is None,
        pattern::regex_error("^(?:"@ + r.regex->0@ + ")$"@) is None,
        pattern::regex_expand(
            "^(?:"@ + r.regex->0@ + ")$"@,
            before.labels()[source],
            match r.replacement {
                Some(t) => t@,
                None => "$1"@,
            },
        ) == Some(value),
        value.len() > 0,
        may_pass(rules_of(seq![r]), before, after),
    ensures
        after.labels().contains_key(target),
        after.labels()[target] == value,
        forall|k: Seq<char>|
            k != target ==> (#[trigger] after.labels().contains_key(k)
                <==> before.labels().contains_key(k)),
        forall|k: Seq<char>|
            k != target && before.labels().contains_key(k) ==> #[trigger] after.labels()[k]
                == before.labels()[k],
        before matches SignalView::Metric(m) ==> (after matches SignalView::Metric(n) && n.name
            == m.name),
{
    let rules = rules_of(seq![r]);
    let rule = rule_of(r);
    assert(rules =~= seq![rule]);
    let start = state_of(before);
    let end = choose|end: State| #[trigger]
        relabels(rules, 0, start, Relabelled::Kept(end)) && after == with_state(before, end);
    law_one_rule_is_one_step(rule, start);
    assert(rule.source_labels =~= seq![source]);
    law_one_source_label_is_its_value(source, rule.separator, start);
    law_replace_sets_the_target(rule, start, end, target, value);
}

} // verus!
