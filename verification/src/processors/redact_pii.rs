//! Redaction of personal data in log lines and label values.

use vstd::prelude::*;

use crate::config::RedactPiiRule;
use crate::pattern;
use crate::pattern::Pattern;
use crate::signal::LogEntry;
use crate::signal::LogView;
use crate::signal::MetricSample;
use crate::signal::MetricView;
use crate::signal::Signal;
use crate::signal::SignalView;
use crate::strmap;
use crate::strmap::Labels;
use crate::text;

verus! {

// ---------------------------------------------------------------------------
// Model
// ---------------------------------------------------------------------------

/// A rule whose expression compiles, with its replacement filled in.
pub struct PiiRuleView {
    pub field: Seq<char>,
    pub regex: Seq<char>,
    pub replacement: Seq<char>,
}

/// What stands in for redacted text where the rule does not say.
pub open spec fn default_replacement(field: Seq<char>) -> Seq<char> {
    "[[pii:"@ + field + "]]"@
}

/// The rule that a configured rule stands for, if its expression compiles.
pub open spec fn rule_of(r: RedactPiiRule) -> Option<PiiRuleView> {
    if pattern::regex_error(r.pattern@) is None {
        Some(
            PiiRuleView {
                field: r.field@,
                regex: r.pattern@,
                replacement: text::text_or(r.replacement, default_replacement(r.field@)),
            },
        )
    } else {
        None
    }
}

/// The rules that configured rules stand for; those whose expression does not
/// compile are left out.
pub open spec fn rules_of(rules: Seq<RedactPiiRule>) -> Seq<PiiRuleView>
    decreases rules.len(),
{
    if rules.len() == 0 {
        Seq::empty()
    } else {
        match rule_of(rules.last()) {
            Some(r) => rules_of(rules.drop_last()).push(r),
            None => rules_of(rules.drop_last()),
        }
    }
}

/// A text with every match of the rule's expression replaced; a text without a
/// match stays as it is.
pub open spec fn redacted(rule: PiiRuleView, s: Seq<char>) -> Seq<char> {
    if pattern::regex_matches(rule.regex, s) {
        pattern::regex_replace_all(rule.regex, s, rule.replacement)
    } else {
        s
    }
}

/// No text that the rule is applied to holds a match of its expression.
pub open spec fn finds_nothing(rule: PiiRuleView, s: SignalView) -> bool {
    &&& s matches SignalView::Log(l) ==> (rule.field == "*"@ || rule.field == "line"@
        ==> !pattern::regex_matches(rule.regex, l.line)) && (rule.field == "*"@ ==> forall|
        k: Seq<char>,
    | #[trigger]
        l.labels.contains_key(k) ==> !pattern::regex_matches(rule.regex, l.labels[k]))
    &&& s.labels().contains_key(rule.field) ==> !pattern::regex_matches(
        rule.regex,
        s.labels()[rule.field],
    )
}

/// The labels with the value of the rule's field redacted, if it is there.
pub open spec fn field_redacted(
    rule: PiiRuleView,
    labels: Map<Seq<char>, Seq<char>>,
) -> Map<Seq<char>, Seq<char>> {
    if labels.contains_key(rule.field) {
        labels.insert(rule.field, redacted(rule, labels[rule.field]))
    } else {
        labels
    }
}

/// The labels with every value redacted.
pub open spec fn values_redacted(
    rule: PiiRuleView,
    labels: Map<Seq<char>, Seq<char>>,
) -> Map<Seq<char>, Seq<char>> {
    Map::new(|k: Seq<char>| labels.contains_key(k), |k: Seq<char>| redacted(rule, labels[k]))
}

/// What a rule makes of a log: the field `line` stands for the line, and `*`
/// for the line and every label.
pub open spec fn log_redacted(rule: PiiRuleView, l: LogView) -> LogView {
    let all = rule.field == "*"@;
    LogView {
        line: if all || rule.field == "line"@ {
            redacted(rule, l.line)
        } else {
            l.line
        },
        labels: if all {
            values_redacted(rule, l.labels)
        } else {
            field_redacted(rule, l.labels)
        },
        ..l
    }
}

/// What a rule makes of a signal.
pub open spec fn rule_applied(rule: PiiRuleView, s: SignalView) -> SignalView {
    match s {
        SignalView::Log(l) => SignalView::Log(log_redacted(rule, l)),
        SignalView::Metric(m) => SignalView::Metric(
            MetricView { labels: field_redacted(rule, m.labels), ..m },
        ),
    }
}

/// What the rules make of a signal, one after the other.
pub open spec fn applied(rules: Seq<PiiRuleView>, s: SignalView) -> SignalView
    decreases rules.len(),
{
    if rules.len() == 0 {
        s
    } else {
        rule_applied(rules.last(), applied(rules.drop_last(), s))
    }
}

// ---------------------------------------------------------------------------
// Laws
// ---------------------------------------------------------------------------

/// Redaction changes texts and nothing else: the label names stay, a log keeps
/// its time, and a metric its name, value, time and kind.
pub proof fn law_redaction_changes_texts_only(rules: Seq<PiiRuleView>, s: SignalView)
    ensures
        applied(rules, s).labels().dom() == s.labels().dom(),
        match s {
            SignalView::Log(l) => applied(rules, s) matches SignalView::Log(n) && n.timestamp_ns
                == l.timestamp_ns,
            SignalView::Metric(m) => applied(rules, s) matches SignalView::Metric(n) && n.name
                == m.name && n.value == m.value && n.timestamp_ms == m.timestamp_ms && n.kind
                == m.kind,
        },
    decreases rules.len(),
{
    if rules.len() > 0 {
        law_redaction_changes_texts_only(rules.drop_last(), s);
        let before = applied(rules.drop_last(), s);
        assert(rule_applied(rules.last(), before).labels().dom() =~= before.labels().dom());
    }
}

/// Where no rule finds anything in the texts that it is applied to, the signal
/// stays as it is.
pub proof fn law_signal_without_a_match_is_untouched(rules: Seq<PiiRuleView>, s: SignalView)
    requires
        forall|i: int| 0 <= i < rules.len() ==> finds_nothing(#[trigger] rules[i], s),
    ensures
        applied(rules, s) == s,
    decreases rules.len(),
{
    if rules.len() > 0 {
        let init = rules.drop_last();
        assert forall|i: int| 0 <= i < init.len() implies finds_nothing(#[trigger] init[i], s) by {
            assert(init[i] == rules[i]);
        }
        law_signal_without_a_match_is_untouched(init, s);
        let rule = rules[rules.len() - 1];
        assert(field_redacted(rule, s.labels()) =~= s.labels());
        if let SignalView::Log(l) = s {
            if rule.field == "*"@ {
                assert(values_redacted(rule, l.labels) =~= l.labels);
            }
        }
    }
}

/// The line of a log is touched only by rules for `line` or `*`.
pub proof fn law_line_is_redacted_on_request_only(rules: Seq<PiiRuleView>, l: LogView)
    requires
        forall|i: int|
            0 <= i < rules.len() ==> (#[trigger] rules[i]).field != "line"@ && rules[i].field
                != "*"@,
    ensures
        applied(rules, SignalView::Log(l)) matches SignalView::Log(n) && n.line == l.line,
    decreases rules.len(),
{
    if rules.len() > 0 {
        let init = rules.drop_last();
        assert forall|i: int| 0 <= i < init.len() implies (#[trigger] init[i]).field != "line"@
            && init[i].field != "*"@ by {
            assert(init[i] == rules[i]);
        }
        law_line_is_redacted_on_request_only(init, l);
        assert(rules.last() == rules[rules.len() - 1]);
    }
}

/// Every configured rule whose expression compiles is there, in the configured
/// order, with its field, its expression and its replacement, which is made of
/// the field where none is given. No other rule is there.
pub proof fn law_every_rule_that_compiles_is_kept(rules: Seq<RedactPiiRule>)
    ensures
        ({
            let good = rules.filter(|r: RedactPiiRule| pattern::regex_error(r.pattern@) is None);
            &&& rules_of(rules).len() == good.len()
            &&& forall|i: int|
                0 <= i < good.len() ==> {
                    let rule = #[trigger] rules_of(rules)[i];
                    &&& rule.field == good[i].field@
                    &&& rule.regex == good[i].pattern@
                    &&& rule.replacement == (match good[i].replacement {
                        Some(t) => t@,
                        None => "[[pii:"@ + good[i].field@ + "]]"@,
                    })
                }
        }),
    decreases rules.len(),
{
    reveal(Seq::filter);
    if rules.len() > 0 {
        law_every_rule_that_compiles_is_kept(rules.drop_last());
    }
}

/// Rules are applied one after the other, and none is left out: what two rows
/// of rules make of a signal is what the second makes of what the first makes
/// of it. Without rules a signal stays as it is.
pub proof fn law_rules_are_applied_in_order(
    a: Seq<PiiRuleView>,
    b: Seq<PiiRuleView>,
    s: SignalView,
)
    ensures
        applied(a + b, s) == applied(b, applied(a, s)),
        applied(Seq::empty(), s) == s,
    decreases b.len(),
{
    if b.len() == 0 {
        assert(a + b =~= a);
    } else {
        assert((a + b).drop_last() =~= a + b.drop_last());
        law_rules_are_applied_in_order(a, b.drop_last(), s);
    }
}

/// A rule for `*` redacts the line of a log and the value of each of its
/// labels. A rule for another field redacts the label of that name, in a log and
/// in a metric, and no other label; for the field `line` it redacts the line of
/// a log as well. To redact a text is to replace the matches in it, if any.
pub proof fn law_a_rule_redacts_its_field(rule: PiiRuleView, s: SignalView)
    ensures
        ({
            let made = |t: Seq<char>|
                if pattern::regex_matches(rule.regex, t) {
                    pattern::regex_replace_all(rule.regex, t, rule.replacement)
                } else {
                    t
                };
            let after = applied(seq![rule], s);
            &&& s matches SignalView::Log(l) ==> after matches SignalView::Log(n) && n.line == (
            if rule.field == "line"@ || rule.field == "*"@ {
                made(l.line)
            } else {
                l.line
            })
            &&& forall|k: Seq<char>| #[trigger]
                s.labels().contains_key(k) ==> after.labels().contains_key(k) && after.labels()[k]
                    == (if k == rule.field || (s is Log && rule.field == "*"@) {
                    made(s.labels()[k])
                } else {
                    s.labels()[k]
                })
            &&& forall|k: Seq<char>| #[trigger]
                after.labels().contains_key(k) ==> s.labels().contains_key(k)
        }),
{
    let rules = seq![rule];
    assert(rules.drop_last() =~= Seq::empty());
    assert(rules.last() == rule);
    assert(applied(rules.drop_last(), s) == s);
    assert(applied(rules, s) == rule_applied(rule, s));
}

// ---------------------------------------------------------------------------
// Redactor
// ---------------------------------------------------------------------------

#[derive(Debug)]
struct CompiledPiiRule {
    field: String,
    re: Pattern,
    replacement: String,
}

impl CompiledPiiRule {
    spec fn rule(self) -> PiiRuleView {
        PiiRuleView { field: self.field@, regex: self.re@, replacement: self.replacement@ }
    }

    fn redact(&self, s: &str) -> (r: String)
        ensures
            r@ == redacted(self.rule(), s@),
            !pattern::regex_matches(self.rule().regex, s@) ==> r@ == s@,
    {
        self.re.replace_all(s, self.replacement.as_str())
    }

    fn redact_field(&self, labels: &mut Labels)
        ensures
            final(labels)@ == field_redacted(self.rule(), old(labels)@),
    {
        let value = match labels.get(self.field.as_str()) {
            Some(v) => self.redact(v.as_str()),
            None => {
                return;
            },
        };
        let _ = labels.insert(self.field.clone(), value);
    }

    fn redact_values(&self, labels: &mut Labels)
        ensures
            final(labels)@ == values_redacted(self.rule(), old(labels)@),
    {
        let mut out = Labels::new();
        let n: usize = labels.len();
        let ghost pairs = labels.pairs();
        let mut i: usize = 0;
        assert(out@ =~= values_redacted(self.rule(), strmap::pairs_map(pairs.take(0))));
        while i < n
            invariant
                i <= n,
                n == pairs.len(),
                pairs == labels.pairs(),
                out@ == values_redacted(self.rule(), strmap::pairs_map(pairs.take(i as int))),
            decreases n - i,
        {
            let (k, v) = labels.entry_at(i);
            let ghost next = pairs.take(i + 1);
            assert(next.drop_last() =~= pairs.take(i as int));
            assert(next.last() == pairs[i as int]);
            let _ = out.insert(k.clone(), self.redact(v.as_str()));
            assert(out@ =~= values_redacted(self.rule(), strmap::pairs_map(next)));
            i = i + 1;
        }
        assert(pairs.take(i as int) =~= pairs);
        *labels = out;
    }

    fn redact_log(&self, entry: &mut LogEntry)
        ensures
            final(entry)@ == log_redacted(self.rule(), old(entry)@),
    {
        let all = text::str_eq(self.field.as_str(), "*");
        let mut labels = Labels::new();
        std::mem::swap(&mut labels, &mut entry.labels);
        if all || text::str_eq(self.field.as_str(), "line") {
            let line = self.redact(entry.line.as_str());
            entry.line = line;
        }
        if all {
            self.redact_values(&mut labels);
        } else {
            self.redact_field(&mut labels);
        }
        entry.labels = labels;
    }

    fn redact_metric(&self, sample: &mut MetricSample)
        ensures
            final(sample)@ == (MetricView {
                labels: field_redacted(self.rule(), old(sample)@.labels),
                ..old(sample)@
            }),
    {
        let mut labels = Labels::new();
        std::mem::swap(&mut labels, &mut sample.labels);
        self.redact_field(&mut labels);
        sample.labels = labels;
    }
}

/// Redacts PII in log lines and label values using regex replacement.
///
/// Matched text is replaced with `[[pii:FIELD_NAME]]` (or a custom
/// replacement string) so downstream storage can see that redaction
/// happened without storing the sensitive value.
#[derive(Debug)]
pub struct PiiRedactor {
    rules: Vec<CompiledPiiRule>,
}

impl PiiRedactor {
    /// The rules.
    pub closed spec fn rules(&self) -> Seq<PiiRuleView> {
        self.rules@.map_values(|r: CompiledPiiRule| r.rule())
    }

    /// A rule whose expression does not compile is left out.
    pub fn new(rules: &[RedactPiiRule]) -> (r: Self)
        ensures
            r.rules() == rules_of(rules@),
    {
        let mut out = PiiRedactor { rules: Vec::new() };
        let mut i: usize = 0;
        assert(out.rules() =~= rules_of(rules@.take(0)));
        while i < rules.len()
            invariant
                i <= rules@.len(),
                out.rules() == rules_of(rules@.take(i as int)),
            decreases rules@.len() - i,
        {
            let rule = &rules[i];
            let ghost next = rules@.take(i + 1);
            let ghost before = out.rules();
            assert(next.drop_last() =~= rules@.take(i as int));
            assert(next.last() == rules@[i as int]);
            if let Ok(re) = pattern::compile(rule.pattern.as_str()) {
                let replacement = match &rule.replacement {
                    Some(t) => t.clone(),
                    None => text::cat3("[[pii:", rule.field.as_str(), "]]"),
                };
                out.rules.push(CompiledPiiRule { field: rule.field.clone(), re, replacement });
                assert(out.rules() =~= before.push(rule_of(rules@[i as int])->0));
            }
            i = i + 1;
        }
        assert(rules@.take(i as int) =~= rules@);
        out
    }

    /// The signal with the rules applied to it, one after the other. Where none
    /// finds anything, it stays as it is.
    pub fn apply(&self, signal: Signal) -> (r: Signal)
        ensures
            r@ == applied(self.rules(), signal@),
            (forall|i: int|
                0 <= i < self.rules().len() ==> finds_nothing(
                    #[trigger] self.rules()[i],
                    signal@,
                )) ==> r@ == signal@,
    {
        proof {
            if forall|i: int|
                0 <= i < self.rules().len() ==> finds_nothing(
                    #[trigger] self.rules()[i],
                    signal@,
                ) {
                law_signal_without_a_match_is_untouched(self.rules(), signal@);
            }
        }
        let ghost all = self.rules();
        let ghost start = signal@;
        let mut current = signal;
        let mut i: usize = 0;
        assert(all.take(0) =~= Seq::empty());
        while i < self.rules.len()
            invariant
                i <= self.rules@.len(),
                all == self.rules(),
                current@ == applied(all.take(i as int), start),
            decreases self.rules@.len() - i,
        {
            assert(all.take(i + 1).drop_last() =~= all.take(i as int));
            assert(all.take(i + 1).last() == self.rules@[i as int].rule());
            match &mut current {
                Signal::Log(entry) => self.rules[i].redact_log(entry),
                Signal::Metric(sample) => self.rules[i].redact_metric(sample),
            }
            i = i + 1;
        }
        assert(all.take(i as int) =~= all);
        current
    }
}

} // verus!
