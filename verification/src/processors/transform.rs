//! An ordered list of small operations on a signal's labels.

use vstd::prelude::*;

use crate::config::TransformOp;
use crate::json;
use crate::json::Json;
use crate::json::JsonView;
use crate::signal::Signal;
use crate::signal::SignalView;
use crate::strmap::Labels;
use crate::text;
use vstd::slice::slice_subrange;

verus! {

// ---------------------------------------------------------------------------
// Model
// ---------------------------------------------------------------------------

/// What a `TransformOp` holds.
pub enum OpView {
    SetLabel { label: Seq<char>, value: Seq<char> },
    RemoveLabel { label: Seq<char> },
    RenameLabel { from: Seq<char>, to: Seq<char> },
    ParseJson { fields: Seq<Seq<char>> },
}

impl View for TransformOp {
    type V = OpView;

    open spec fn view(&self) -> OpView {
        match self {
            TransformOp::SetLabel { label, value } => OpView::SetLabel {
                label: label@,
                value: value@,
            },
            TransformOp::RemoveLabel { label } => OpView::RemoveLabel { label: label@ },
            TransformOp::RenameLabel { from, to } => OpView::RenameLabel { from: from@, to: to@ },
            TransformOp::ParseJson { fields } => OpView::ParseJson { fields: text::texts(fields@) },
        }
    }
}

/// What the operations of a row hold.
pub open spec fn op_views(ops: Seq<TransformOp>) -> Seq<OpView> {
    ops.map_values(|op: TransformOp| op@)
}

/// The value of a label; empty where it is absent.
pub open spec fn label_value(labels: Map<Seq<char>, Seq<char>>, key: Seq<char>) -> Seq<char> {
    if labels.contains_key(key) {
        labels[key]
    } else {
        Seq::empty()
    }
}

/// A field of a document as text; empty where there is none.
pub open spec fn json_value(doc: Option<JsonView>, field: Seq<char>) -> Seq<char> {
    match doc {
        Some(j) => match j.field(field) {
            Some(v) => v.plain(),
            None => Seq::empty(),
        },
        None => Seq::empty(),
    }
}

/// What the key of a placeholder stands for, given a signal and the document
/// that its line holds: `line` or `name`, `label.NAME`, `json.FIELD`; nothing
/// where it is none of these.
pub open spec fn resolved(key: Seq<char>, signal: SignalView, doc: Option<JsonView>) -> Seq<char> {
    match signal {
        SignalView::Metric(m) => if key == "name"@ {
            m.name
        } else if text::begins(key, "label."@) {
            label_value(m.labels, key.skip("label."@.len() as int))
        } else {
            Seq::empty()
        },
        SignalView::Log(l) => if key == "line"@ {
            l.line
        } else if text::begins(key, "label."@) {
            label_value(l.labels, key.skip("label."@.len() as int))
        } else if text::begins(key, "json."@) {
            json_value(doc, key.skip("json."@.len() as int))
        } else {
            Seq::empty()
        },
    }
}

/// The template with each placeholder `${KEY}` replaced by what its key stands
/// for. A placeholder that is not closed stays as it is, with all that follows.
pub open spec fn rendered(
    template: Seq<char>,
    signal: SignalView,
    doc: Option<JsonView>,
) -> Seq<char>
    decreases template.len(),
{
    proof {
        text::lemma_find_from(template, "${"@, 0);
        reveal_strlit("${");
    }
    match text::find(template, "${"@) {
        None => template,
        Some(start) => {
            let after = template.skip(start + 2);
            proof {
                text::lemma_find_char_from(after, '}', 0);
            }
            match text::find_char(after, '}') {
                None => template,
                Some(end) => template.take(start) + resolved(after.take(end), signal, doc)
                    + rendered(after.skip(end + 1), signal, doc),
            }
        },
    }
}

/// The document that the line of a log holds.
pub open spec fn line_json(signal: SignalView) -> Option<JsonView> {
    match signal {
        SignalView::Log(l) => json::json_parse(l.line),
        SignalView::Metric(_) => None,
    }
}

/// The labels, with each of the fields that the document has put among them.
pub open spec fn lifted(
    labels: Map<Seq<char>, Seq<char>>,
    fields: Seq<Seq<char>>,
    doc: JsonView,
) -> Map<Seq<char>, Seq<char>>
    decreases fields.len(),
{
    if fields.len() == 0 {
        labels
    } else {
        let before = lifted(labels, fields.drop_last(), doc);
        match doc.field(fields.last()) {
            Some(v) => before.insert(fields.last(), v.plain()),
            None => before,
        }
    }
}

/// What an operation makes of a signal.
pub open spec fn op_applied(op: OpView, s: SignalView) -> SignalView {
    match op {
        OpView::SetLabel { label, value } => s.with_labels(
            s.labels().insert(label, rendered(value, s, line_json(s))),
        ),
        OpView::RemoveLabel { label } => s.with_labels(s.labels().remove(label)),
        OpView::RenameLabel { from, to } => if s.labels().contains_key(from) {
            s.with_labels(s.labels().remove(from).insert(to, s.labels()[from]))
        } else {
            s
        },
        OpView::ParseJson { fields } => match line_json(s) {
            Some(doc) => s.with_labels(lifted(s.labels(), fields, doc)),
            None => s,
        },
    }
}

/// What the operations make of a signal, one after the other.
pub open spec fn applied(ops: Seq<OpView>, s: SignalView) -> SignalView
    decreases ops.len(),
{
    if ops.len() == 0 {
        s
    } else {
        op_applied(ops.last(), applied(ops.drop_last(), s))
    }
}

// ---------------------------------------------------------------------------
// Laws
// ---------------------------------------------------------------------------

/// A template without a placeholder stands for itself.
pub proof fn law_plain_template_is_itself(
    template: Seq<char>,
    signal: SignalView,
    doc: Option<JsonView>,
)
    requires
        !text::contains(template, "${"@),
    ensures
        rendered(template, signal, doc) == template,
{
    text::lemma_find_from(template, "${"@, 0);
}

/// A placeholder that is not closed is literal text.
pub proof fn law_unclosed_placeholder_is_literal(
    template: Seq<char>,
    signal: SignalView,
    doc: Option<JsonView>,
)
    requires
        text::find_char(template, '}') is None,
    ensures
        rendered(template, signal, doc) == template,
{
    text::lemma_find_from(template, "${"@, 0);
    reveal_strlit("${");
    if let Some(start) = text::find(template, "${"@) {
        let after = template.skip(start + 2);
        text::lemma_find_char_from(after, '}', 0);
        text::lemma_find_char_from(template, '}', 0);
        if let Some(end) = text::find_char(after, '}') {
            assert(after[end] == template[start + 2 + end]);
        }
    }
}

/// No operation touches anything but the labels: a log keeps its line and its
/// time, a metric its name, value, time and kind.
pub proof fn law_transform_touches_labels_only(ops: Seq<OpView>, s: SignalView)
    ensures
        applied(ops, s) == s.with_labels(applied(ops, s).labels()),
    decreases ops.len(),
{
    if ops.len() > 0 {
        law_transform_touches_labels_only(ops.drop_last(), s);
    }
}

/// Renaming preserves the value.
pub proof fn law_rename_preserves_the_value(from: Seq<char>, to: Seq<char>, s: SignalView)
    requires
        s.labels().contains_key(from),
    ensures
        op_applied(OpView::RenameLabel { from, to }, s).labels().contains_key(to),
        op_applied(OpView::RenameLabel { from, to }, s).labels()[to] == s.labels()[from],
        from != to ==> !op_applied(OpView::RenameLabel { from, to }, s).labels().contains_key(from),
{
}

/// `json.` fields of a metric, and of a line that holds no object, lift
/// nothing.
pub proof fn law_parse_json_needs_an_object(fields: Seq<Seq<char>>, s: SignalView)
    requires
        !(line_json(s) matches Some(doc) && doc is Object),
    ensures
        op_applied(OpView::ParseJson { fields }, s) == s,
{
    if let Some(doc) = line_json(s) {
        lemma_nothing_lifted(s.labels(), fields, doc);
    }
}

proof fn lemma_nothing_lifted(
    labels: Map<Seq<char>, Seq<char>>,
    fields: Seq<Seq<char>>,
    doc: JsonView,
)
    requires
        !(doc is Object),
    ensures
        lifted(labels, fields, doc) == labels,
    decreases fields.len(),
{
    if fields.len() > 0 {
        lemma_nothing_lifted(labels, fields.drop_last(), doc);
    }
}

/// Operations are applied one after the other, and none is left out: what two
/// rows of operations make of a signal is what the second makes of what the
/// first makes of it.
pub proof fn law_operations_are_applied_in_order(a: Seq<OpView>, b: Seq<OpView>, s: SignalView)
    ensures
        applied(a + b, s) == applied(b, applied(a, s)),
        applied(Seq::empty(), s) == s,
        forall|op: OpView| #[trigger] applied(seq![op], s) == op_applied(op, s),
    decreases b.len(),
{
    if b.len() == 0 {
        assert(a + b =~= a);
    } else {
        assert((a + b).drop_last() =~= a + b.drop_last());
        assert((a + b).last() == b.last());
        law_operations_are_applied_in_order(a, b.drop_last(), s);
    }
    assert forall|op: OpView| #[trigger] applied(seq![op], s) == op_applied(op, s) by {
        assert(seq![op].drop_last() =~= Seq::empty());
        assert(seq![op].last() == op);
        assert(applied(seq![op].drop_last(), s) == s);
    }
}

/// Setting a label gives it what its template comes to, whether or not it was
/// there before, and leaves the others as they were.
pub proof fn law_set_label_sets_that_label(label: Seq<char>, value: Seq<char>, s: SignalView)
    ensures
        ({
            let after = op_applied(OpView::SetLabel { label, value }, s);
            let doc = match s {
                SignalView::Log(l) => json::json_parse(l.line),
                SignalView::Metric(_) => None,
            };
            &&& after.labels().contains_key(label)
            &&& after.labels()[label] == rendered(value, s, doc)
            &&& !text::contains(value, "${"@) ==> after.labels()[label] == value
            &&& forall|k: Seq<char>|
                k != label ==> (#[trigger] after.labels().contains_key(k)
                    <==> s.labels().contains_key(k))
            &&& forall|k: Seq<char>|
                k != label && s.labels().contains_key(k) ==> #[trigger] after.labels()[k]
                    == s.labels()[k]
        }),
{
    if !text::contains(value, "${"@) {
        law_plain_template_is_itself(value, s, line_json(s));
    }
}

/// Removing a label takes it away, and leaves the others as they were.
pub proof fn law_remove_label_removes_that_label(label: Seq<char>, s: SignalView)
    ensures
        ({
            let after = op_applied(OpView::RemoveLabel { label }, s);
            &&& !after.labels().contains_key(label)
            &&& forall|k: Seq<char>|
                k != label ==> (#[trigger] after.labels().contains_key(k)
                    <==> s.labels().contains_key(k))
            &&& forall|k: Seq<char>|
                k != label && s.labels().contains_key(k) ==> #[trigger] after.labels()[k]
                    == s.labels()[k]
        }),
{
}

/// Renaming leaves the other labels as they were; a label that is not there is
/// not renamed.
pub proof fn law_rename_leaves_other_labels(from: Seq<char>, to: Seq<char>, s: SignalView)
    ensures
        ({
            let after = op_applied(OpView::RenameLabel { from, to }, s);
            &&& !s.labels().contains_key(from) ==> after == s
            &&& forall|k: Seq<char>|
                k != from && k != to ==> (#[trigger] after.labels().contains_key(k)
                    <==> s.labels().contains_key(k))
            &&& forall|k: Seq<char>|
                k != from && k != to && s.labels().contains_key(k) ==> #[trigger] after.labels()[k]
                    == s.labels()[k]
        }),
{
}

/// Each of the fields that the line's document has becomes a label with the
/// field's value, wherever in the list it stands; every other label is as it
/// was.
pub proof fn law_parse_json_lifts_every_field(fields: Seq<Seq<char>>, s: SignalView, k: Seq<char>)
    ensures
        ({
            let after = op_applied(OpView::ParseJson { fields }, s);
            let value = match s {
                SignalView::Log(l) => match json::json_parse(l.line) {
                    Some(doc) => doc.field(k),
                    None => None,
                },
                SignalView::Metric(_) => None,
            };
            if fields.contains(k) && value is Some {
                after.labels().contains_key(k) && after.labels()[k] == value->0.plain()
            } else {
                &&& after.labels().contains_key(k) <==> s.labels().contains_key(k)
                &&& s.labels().contains_key(k) ==> after.labels()[k] == s.labels()[k]
            }
        }),
{
    if let Some(doc) = line_json(s) {
        lemma_lifted(s.labels(), fields, doc, k);
    }
}

proof fn lemma_lifted(
    labels: Map<Seq<char>, Seq<char>>,
    fields: Seq<Seq<char>>,
    doc: JsonView,
    k: Seq<char>,
)
    ensures
        ({
            let after = lifted(labels, fields, doc);
            if fields.contains(k) && doc.field(k) is Some {
                after.contains_key(k) && after[k] == doc.field(k)->0.plain()
            } else {
                &&& after.contains_key(k) <==> labels.contains_key(k)
                &&& labels.contains_key(k) ==> after[k] == labels[k]
            }
        }),
    decreases fields.len(),
{
    if fields.len() > 0 {
        let front = fields.drop_last();
        lemma_lifted(labels, front, doc, k);
        assert(fields[fields.len() - 1] == fields.last());
        if fields.contains(k) && !front.contains(k) {
            let i = choose|i: int| 0 <= i < fields.len() && fields[i] == k;
            if i < front.len() {
                assert(front[i] == k);
            }
        }
        if front.contains(k) {
            let i = choose|i: int| 0 <= i < front.len() && front[i] == k;
            assert(fields[i] == k);
        }
    }
}

/// A placeholder is replaced by what its key stands for; the text before it stays,
/// and what follows is rendered in its turn.
pub proof fn law_placeholders_are_replaced(
    before: Seq<char>,
    key: Seq<char>,
    rest: Seq<char>,
    signal: SignalView,
    doc: Option<JsonView>,
)
    requires
        !text::contains(before, "${"@),
        forall|i: int| 0 <= i < key.len() ==> #[trigger] key[i] != '}',
    ensures
        rendered(before + "${"@ + key + seq!['}'] + rest, signal, doc) == before + resolved(
            key,
            signal,
            doc,
        ) + rendered(rest, signal, doc),
{
    reveal_strlit("${");
    let n = before.len() as int;
    let template = before + "${"@ + key + seq!['}'] + rest;
    assert(template.subrange(n, n + 2) =~= "${"@);
    assert(text::stands_at(template, "${"@, n));
    text::lemma_find_from(template, "${"@, 0);
    let start = text::find(template, "${"@)->0;
    if start < n {
        if start + 2 <= n {
            assert(before.subrange(start, start + 2) =~= template.subrange(start, start + 2));
            assert(text::stands_at(before, "${"@, start));
        } else {
            assert(template.subrange(start, start + 2)[1] == template[n]);
            assert(template[n] == '$');
            assert("${"@[1] == '{');
        }
        assert(false);
    }
    assert(start == n);
    let after = template.skip(n + 2);
    assert(after =~= key + seq!['}'] + rest);
    assert(after[key.len() as int] == '}');
    text::lemma_find_char_is(after, '}', key.len() as int);
    assert(after.take(key.len() as int) =~= key);
    assert(after.skip(key.len() as int + 1) =~= rest);
    assert(template.take(n) =~= before);
}

/// The key `name` stands for a metric's name and `line` for a log's line,
/// `label.` with a name behind it for that label of either, and `json.` with a
/// name for that field of the document in a log's line. What is not there, and
/// any other key, stands for nothing.
pub proof fn law_keys_stand_for_what_they_name(
    k: Seq<char>,
    signal: SignalView,
    doc: Option<JsonView>,
)
    ensures
        signal matches SignalView::Metric(m) ==> resolved("name"@, signal, doc) == m.name,
        signal matches SignalView::Log(l) ==> resolved("line"@, signal, doc) == l.line,
        signal.labels().contains_key(k) ==> resolved("label."@ + k, signal, doc)
            == signal.labels()[k],
        !signal.labels().contains_key(k) ==> resolved("label."@ + k, signal, doc).len() == 0,
        signal is Log ==> (doc matches Some(j) ==> (j.field(k) matches Some(v) ==> resolved(
            "json."@ + k,
            signal,
            doc,
        ) == v.plain())),
        signal is Metric || doc is None || doc->0.field(k) is None ==> resolved(
            "json."@ + k,
            signal,
            doc,
        ).len() == 0,
        !text::begins(k, "label."@) && !text::begins(k, "json."@) && k != "name"@ && k != "line"@
            ==> resolved(k, signal, doc).len() == 0,
{
    reveal_strlit("name");
    reveal_strlit("line");
    reveal_strlit("label.");
    reveal_strlit("json.");
    let a = "label."@ + k;
    assert(a.subrange(0, 6) =~= "label."@);
    assert(text::begins(a, "label."@));
    assert(a.skip(6) =~= k);
    assert(a[0] == 'l' && a[1] == 'a' && a.len() >= 6);
    let b = "json."@ + k;
    assert(b.subrange(0, 5) =~= "json."@);
    assert(text::begins(b, "json."@));
    assert(b.skip(5) =~= k);
    assert(b[0] == 'j' && b.len() >= 5);
    if text::begins(b, "label."@) {
        assert(b.subrange(0, 6)[0] == b[0]);
        assert(false);
    }
    assert("line"@[1] == 'i' && "line"@.len() == 4 && "name"@.len() == 4);
}

// ---------------------------------------------------------------------------
// Templates
// ---------------------------------------------------------------------------

/// A template that never says `${json.` does not rest on the document.
proof fn lemma_document_unused(
    template: Seq<char>,
    signal: SignalView,
    a: Option<JsonView>,
    b: Option<JsonView>,
)
    requires
        !text::contains(template, "${json."@),
    ensures
        rendered(template, signal, a) == rendered(template, signal, b),
    decreases template.len(),
{
    reveal_strlit("${");
    reveal_strlit("json.");
    reveal_strlit("${json.");
    let mark = "${json."@;
    text::lemma_find_from(template, "${"@, 0);
    text::lemma_find_from(template, mark, 0);
    if let Some(start) = text::find(template, "${"@) {
        let after = template.skip(start + 2);
        text::lemma_find_char_from(after, '}', 0);
        if let Some(end) = text::find_char(after, '}') {
            let key = after.take(end);
            let rest = after.skip(end + 1);
            if text::begins(key, "json."@) {
                assert(text::stands_at(template, "${"@, start));
                assert(template.subrange(start, start + 2) =~= "${"@);
                assert(key.take(5) =~= "json."@);
                assert(template.subrange(start, start + 7) =~= mark) by {
                    assert forall|i: int| 0 <= i < 7 implies template[start + i] == mark[i] by {
                        if i < 2 {
                            assert(template.subrange(start, start + 2)[i] == "${"@[i]);
                        } else {
                            assert(key.take(5)[i - 2] == "json."@[i - 2]);
                        }
                    }
                }
                assert(text::stands_at(template, mark, start));
                assert(false);
            }
            text::lemma_find_from(rest, mark, 0);
            if let Some(i) = text::find(rest, mark) {
                let at = start + 2 + end + 1 + i;
                assert(template.subrange(at, at + 7) =~= rest.subrange(i, i + 7));
                assert(text::stands_at(template, mark, at));
                assert(false);
            }
            lemma_document_unused(rest, signal, a, b);
        }
    }
}

/// What the key of a placeholder stands for.
pub fn resolve_key(key: &[char], signal: &Signal, doc: Option<&Json>) -> (r: String)
    ensures
        r@ == resolved(key@, signal@, json::opt_view(doc)),
{
    proof {
        reveal_strlit("label.");
        reveal_strlit("json.");
    }
    let whole = text::string_of(key);
    match signal {
        Signal::Metric(m) => {
            if text::str_eq(whole.as_str(), "name") {
                m.name.clone()
            } else if text::starts_with(key, "label.") {
                let name = text::string_of(slice_subrange(key, 6, key.len()));
                match m.labels.get(name.as_str()) {
                    Some(v) => v.clone(),
                    None => String::new(),
                }
            } else {
                String::new()
            }
        },
        Signal::Log(l) => {
            if text::str_eq(whole.as_str(), "line") {
                l.line.clone()
            } else if text::starts_with(key, "label.") {
                let name = text::string_of(slice_subrange(key, 6, key.len()));
                match l.labels.get(name.as_str()) {
                    Some(v) => v.clone(),
                    None => String::new(),
                }
            } else if text::starts_with(key, "json.") {
                let field = text::string_of(slice_subrange(key, 5, key.len()));
                match doc {
                    Some(j) => match j.get(field.as_str()) {
                        Some(v) => v.plain(),
                        None => String::new(),
                    },
                    None => String::new(),
                }
            } else {
                String::new()
            }
        },
    }
}

/// Resolves the `${...}` placeholders of a template against a signal and the
/// document that its line holds.
pub fn render_with(template: &str, signal: &Signal, doc: Option<&Json>) -> (r: String)
    ensures
        r@ == rendered(template@, signal@, json::opt_view(doc)),
{
    proof {
        reveal_strlit("${");
    }
    let chars = text::chars_of(template);
    let open = text::chars_of("${");
    let all = chars.as_slice();
    let mut out = String::new();
    let mut from: usize = 0;
    let ghost d = json::opt_view(doc);
    assert(template@.skip(0) =~= template@);
    assert(out@ + rendered(template@, signal@, d) =~= rendered(template@, signal@, d));
    while from < all.len()
        invariant
            all@ == template@,
            open@ == "${"@,
            open@.len() == 2,
            d == json::opt_view(doc),
            from <= all@.len(),
            out@ + rendered(template@.skip(from as int), signal@, d) == rendered(
                template@,
                signal@,
                d,
            ),
        decreases all@.len() - from,
    {
        let rest = slice_subrange(all, from, all.len());
        assert(rest@ =~= template@.skip(from as int));
        let ghost before = out@;
        proof {
            text::lemma_find_from(rest@, "${"@, 0);
        }
        match text::find_sub(rest, open.as_slice(), 0) {
            Some(start) => {
                let after = slice_subrange(rest, start + 2, rest.len());
                assert(after@ =~= rest@.skip(start + 2));
                proof {
                    text::lemma_find_char_from(after@, '}', 0);
                }
                match text::find_char_at(after, '}', 0) {
                    Some(end) => {
                        let lead = text::string_of(slice_subrange(rest, 0, start));
                        let value = resolve_key(slice_subrange(after, 0, end), signal, doc);
                        out.append(lead.as_str());
                        out.append(value.as_str());
                        let ghost tail = after@.skip(end + 1);
                        assert(lead@ =~= rest@.take(start as int));
                        assert(after@.subrange(0, end as int) =~= after@.take(end as int));
                        assert(tail =~= template@.skip(from + start + 2 + end + 1));
                        assert(out@ + rendered(tail, signal@, d) =~= before + (rest@.take(
                            start as int,
                        ) + resolved(after@.take(end as int), signal@, d) + rendered(
                            tail,
                            signal@,
                            d,
                        )));
                        from = from + start + 2 + end + 1;
                    },
                    None => {
                        let tail = text::string_of(rest);
                        out.append(tail.as_str());
                        return out;
                    },
                }
            },
            None => {
                let tail = text::string_of(rest);
                out.append(tail.as_str());
                return out;
            },
        }
    }
    proof {
        let nothing = template@.skip(from as int);
        assert(nothing =~= Seq::empty());
        text::lemma_find_from(nothing, "${"@, 0);
        assert(out@ + rendered(nothing, signal@, d) =~= out@);
    }
    out
}

/// Resolves the `${...}` placeholders of a template against a signal. The line
/// is read as JSON only where the template asks for it.
pub fn render_template(template: &str, signal: &Signal) -> (r: String)
    ensures
        r@ == rendered(template@, signal@, line_json(signal@)),
{
    if let Signal::Log(l) = signal {
        if text::holds(template, "${json.") {
            let doc = json::parse(l.line.as_str());
            return render_with(template, signal, doc.as_ref());
        }
        proof {
            lemma_document_unused(template@, signal@, line_json(signal@), None);
        }
    }
    render_with(template, signal, None)
}

// ---------------------------------------------------------------------------
// Operations
// ---------------------------------------------------------------------------

/// Puts each of the fields that the document has among the labels.
pub fn lift_fields(labels: &mut Labels, fields: &Vec<String>, doc: &Json)
    ensures
        final(labels)@ == lifted(old(labels)@, text::texts(fields@), doc@),
{
    let mut i: usize = 0;
    while i < fields.len()
        invariant
            i <= fields@.len(),
            labels@ == lifted(old(labels)@, text::texts(fields@).take(i as int), doc@),
        decreases fields@.len() - i,
    {
        let ghost next = text::texts(fields@).take(i + 1);
        assert(next.drop_last() =~= text::texts(fields@).take(i as int));
        assert(next.last() == fields@[i as int]@);
        if let Some(v) = doc.get(fields[i].as_str()) {
            let _ = labels.insert(fields[i].clone(), v.plain());
        }
        i = i + 1;
    }
    assert(text::texts(fields@).take(i as int) =~= text::texts(fields@));
}

fn take_labels(signal: &mut Signal) -> (r: Labels)
    ensures
        r@ == old(signal)@.labels(),
        final(signal)@ == old(signal)@.with_labels(Map::empty()),
{
    let mut labels = Labels::new();
    match signal {
        Signal::Metric(m) => {
            std::mem::swap(&mut labels, &mut m.labels);
        },
        Signal::Log(l) => {
            std::mem::swap(&mut labels, &mut l.labels);
        },
    }
    labels
}

fn put_labels(signal: &mut Signal, labels: Labels)
    ensures
        final(signal)@ == old(signal)@.with_labels(labels@),
{
    match signal {
        Signal::Metric(m) => {
            m.labels = labels;
        },
        Signal::Log(l) => {
            l.labels = labels;
        },
    }
}

fn apply_op(op: &TransformOp, signal: &mut Signal)
    ensures
        final(signal)@ == op_applied(op@, old(signal)@),
{
    match op {
        TransformOp::SetLabel { label, value } => {
            let value = render_template(value.as_str(), signal);
            let mut labels = take_labels(signal);
            let _ = labels.insert(label.clone(), value);
            put_labels(signal, labels);
        },
        TransformOp::RemoveLabel { label } => {
            let mut labels = take_labels(signal);
            let _ = labels.remove(label.as_str());
            put_labels(signal, labels);
        },
        TransformOp::RenameLabel { from, to } => {
            let mut labels = take_labels(signal);
            let ghost all = labels@;
            if let Some(v) = labels.remove(from.as_str()) {
                let _ = labels.insert(to.clone(), v);
            } else {
                assert(labels@ =~= all);
            }
            put_labels(signal, labels);
        },
        TransformOp::ParseJson { fields } => {
            let doc = match signal {
                Signal::Log(l) => json::parse(l.line.as_str()),
                Signal::Metric(_) => None,
            };
            if let Some(j) = doc {
                let mut labels = take_labels(signal);
                lift_fields(&mut labels, fields, &j);
                put_labels(signal, labels);
            }
        },
    }
}

fn copy_op(op: &TransformOp) -> (r: TransformOp)
    ensures
        r@ == op@,
{
    match op {
        TransformOp::SetLabel { label, value } => TransformOp::SetLabel {
            label: label.clone(),
            value: value.clone(),
        },
        TransformOp::RemoveLabel { label } => TransformOp::RemoveLabel { label: label.clone() },
        TransformOp::RenameLabel { from, to } => TransformOp::RenameLabel {
            from: from.clone(),
            to: to.clone(),
        },
        TransformOp::ParseJson { fields } => TransformOp::ParseJson {
            fields: text::copy_texts(fields),
        },
    }
}

/// Applies an ordered list of transform operations to each signal.
///
/// The DSL is deliberately tiny: substitution only, no scripting. Templates
/// use `${...}` placeholders resolved against the current signal:
///   * `${line}`        the log line (logs only)
///   * `${name}`        the metric name (metrics only)
///   * `${label.NAME}`  the current value of label NAME
///   * `${json.FIELD}`  top-level FIELD of the log line parsed as JSON
#[derive(Debug)]
pub struct Transformer {
    ops: Vec<TransformOp>,
}

impl Transformer {
    /// The operations.
    pub closed spec fn ops(&self) -> Seq<OpView> {
        op_views(self.ops@)
    }

    pub fn new(ops: &[TransformOp]) -> (r: Self)
        ensures
            r.ops() == op_views(ops@),
    {
        let mut copies: Vec<TransformOp> = Vec::new();
        let mut i: usize = 0;
        while i < ops.len()
            invariant
                i <= ops@.len(),
                copies@.len() == i,
                forall|j: int| 0 <= j < i ==> (#[trigger] copies@[j])@ == ops@[j]@,
            decreases ops@.len() - i,
        {
            copies.push(copy_op(&ops[i]));
            i = i + 1;
        }
        let r = Transformer { ops: copies };
        assert(r.ops() =~= op_views(ops@));
        r
    }

    pub fn apply(&self, signal: Signal) -> (r: Signal)
        ensures
            r@ == applied(self.ops(), signal@),
    {
        let mut current = signal;
        let ghost all = self.ops();
        let mut i: usize = 0;
        assert(all.take(0) =~= Seq::empty());
        while i < self.ops.len()
            invariant
                i <= self.ops@.len(),
                all == self.ops(),
                current@ == applied(all.take(i as int), signal@),
            decreases self.ops@.len() - i,
        {
            assert(all.take(i + 1).drop_last() =~= all.take(i as int));
            assert(all.take(i + 1).last() == self.ops@[i as int]@);
            apply_op(&self.ops[i], &mut current);
            i = i + 1;
        }
        assert(all.take(i as int) =~= all);
        current
    }
}

/// An operation holds what it was configured with.
pub proof fn law_operations_hold_what_is_configured(
    a: String,
    b: String,
    fields: Vec<String>,
    ops: Seq<TransformOp>,
)
    ensures
        (TransformOp::SetLabel { label: a, value: b })@ == (OpView::SetLabel {
            label: a@,
            value: b@,
        }),
        (TransformOp::RemoveLabel { label: a })@ == (OpView::RemoveLabel { label: a@ }),
        (TransformOp::RenameLabel { from: a, to: b })@ == (OpView::RenameLabel {
            from: a@,
            to: b@,
        }),
        (TransformOp::ParseJson { fields })@ == (OpView::ParseJson { fields: text::texts(fields@) }),
        op_views(ops).len() == ops.len(),
        forall|i: int| 0 <= i < ops.len() ==> #[trigger] op_views(ops)[i] == ops[i]@,
{
}

} // verus!
