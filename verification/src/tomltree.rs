//! TOML documents as a tree, read and written by the `toml` crate, and the
//! merge of two of them.

use vstd::prelude::*;

use crate::text;

verus! {

/// `toml`'s value, which only the conversions here look into.
#[verifier::external_type_specification]
#[verifier::external_body]
pub struct ExTomlValue(toml::Value);

/// `toml`'s date and time, carried as it is.
#[verifier::external_type_specification]
#[verifier::external_body]
pub struct ExTomlDatetime(toml::value::Datetime);

/// A TOML float: as it was read, and by its IEEE 754 bits.
#[derive(Debug)]
pub struct TomlFloat {
    raw: toml::Value,
    bits: u64,
}

impl View for TomlFloat {
    type V = u64;

    closed spec fn view(&self) -> u64 {
        self.bits
    }
}

/// A TOML date and time: as it was read, and as text.
#[derive(Debug)]
pub struct TomlDatetime {
    raw: toml::value::Datetime,
    text: String,
}

impl View for TomlDatetime {
    type V = Seq<char>;

    closed spec fn view(&self) -> Seq<char> {
        self.text@
    }
}

/// A TOML value.
#[derive(Debug)]
pub enum Toml {
    Text(String),
    Integer(i64),
    Float(TomlFloat),
    Boolean(bool),
    Datetime(TomlDatetime),
    Array(Vec<Toml>),
    Table(Vec<(String, Toml)>),
}

/// What a `Toml` holds.
pub enum TomlView {
    Text(Seq<char>),
    Integer(i64),
    Float(u64),
    Boolean(bool),
    Datetime(Seq<char>),
    Array(Seq<TomlView>),
    Table(Seq<(Seq<char>, TomlView)>),
}

/// The tree that a value stands for.
pub open spec fn tree(t: Toml) -> TomlView
    decreases t,
{
    match t {
        Toml::Text(s) => TomlView::Text(s@),
        Toml::Integer(n) => TomlView::Integer(n),
        Toml::Float(f) => TomlView::Float(f@),
        Toml::Boolean(b) => TomlView::Boolean(b),
        Toml::Datetime(d) => TomlView::Datetime(d@),
        Toml::Array(v) => TomlView::Array(
            Seq::new(
                v@.len(),
                |i: int|
                    if 0 <= i < v@.len() {
                        tree(v@[i])
                    } else {
                        TomlView::Boolean(false)
                    },
            ),
        ),
        Toml::Table(v) => TomlView::Table(
            Seq::new(
                v@.len(),
                |i: int|
                    if 0 <= i < v@.len() {
                        (v@[i].0@, tree(v@[i].1))
                    } else {
                        (Seq::empty(), TomlView::Boolean(false))
                    },
            ),
        ),
    }
}

impl View for Toml {
    type V = TomlView;

    open spec fn view(&self) -> TomlView {
        tree(*self)
    }
}

/// What the pairs of a table hold.
pub open spec fn pair_views(v: Seq<(String, Toml)>) -> Seq<(Seq<char>, TomlView)> {
    v.map_values(|p: (String, Toml)| (p.0@, p.1@))
}

/// The first position of a key.
pub open spec fn position(pairs: Seq<(Seq<char>, TomlView)>, key: Seq<char>) -> Option<int>
    decreases pairs.len(),
{
    if pairs.len() == 0 {
        None
    } else {
        match position(pairs.drop_last(), key) {
            Some(i) => Some(i),
            None => if pairs.last().0 == key {
                Some(pairs.len() - 1)
            } else {
                None
            },
        }
    }
}

/// The value under a key.
pub open spec fn lookup(pairs: Seq<(Seq<char>, TomlView)>, key: Seq<char>) -> Option<TomlView> {
    match position(pairs, key) {
        Some(i) => Some(pairs[i].1),
        None => None,
    }
}

/// No key stands twice in a table.
pub open spec fn distinct(pairs: Seq<(Seq<char>, TomlView)>) -> bool {
    forall|i: int, j: int|
        #![trigger pairs[i], pairs[j]]
        0 <= i < j < pairs.len() ==> pairs[i].0 != pairs[j].0
}

/// No key stands twice in any table of a tree.
pub open spec fn keyed(t: TomlView) -> bool
    decreases t,
{
    match t {
        TomlView::Array(v) => forall|i: int| 0 <= i < v.len() ==> keyed(#[trigger] v[i]),
        TomlView::Table(p) => distinct(p) && forall|i: int|
            0 <= i < p.len() ==> keyed((#[trigger] p[i]).1),
        _ => true,
    }
}

// ---------------------------------------------------------------------------
// What can be written
// ---------------------------------------------------------------------------

/// The levels of nesting that a document is read with.
pub const MAX_NESTING: u64 = 80;

/// The quotes in a row that a text is written with.
pub const MAX_QUOTES: u64 = 255;

/// How often a text ends with a character.
pub open spec fn trailing(s: Seq<char>, c: char) -> nat
    decreases s.len(),
{
    if s.len() > 0 && s.last() == c {
        trailing(s.drop_last(), c) + 1
    } else {
        0
    }
}

/// A character never stands more than `MAX_QUOTES` times in a row.
pub open spec fn short_runs(s: Seq<char>, c: char) -> bool {
    forall|n: int| 0 <= n <= s.len() ==> trailing(#[trigger] s.take(n), c) <= MAX_QUOTES
}

/// No text of a tree holds too many quotes in a row.
pub open spec fn writable(t: TomlView) -> bool
    decreases t,
{
    match t {
        TomlView::Text(s) => short_runs(s, '\'') && short_runs(s, '"'),
        TomlView::Array(v) => forall|i: int| 0 <= i < v.len() ==> writable(#[trigger] v[i]),
        TomlView::Table(p) => forall|i: int| 0 <= i < p.len() ==> writable((#[trigger] p[i]).1),
        _ => true,
    }
}

/// A tree of texts, integers and booleans, in at most so many levels of arrays
/// and tables, without the key that stands for a date.
pub open spec fn plain(t: TomlView, levels: u64) -> bool
    decreases t,
{
    match t {
        TomlView::Text(_) => true,
        TomlView::Integer(_) => true,
        TomlView::Boolean(_) => true,
        TomlView::Float(_) => false,
        TomlView::Datetime(_) => false,
        TomlView::Array(v) => levels > 0 && forall|i: int|
            0 <= i < v.len() ==> plain(#[trigger] v[i], (levels - 1) as u64),
        TomlView::Table(p) => levels > 0 && forall|i: int|
            0 <= i < p.len() ==> (#[trigger] p[i]).0 != "$__toml_private_datetime"@ && plain(
                p[i].1,
                (levels - 1) as u64,
            ),
    }
}

/// Two trees hold the same; the keys of a table may stand in another order.
pub open spec fn same(a: TomlView, b: TomlView) -> bool
    decreases b,
{
    match (a, b) {
        (TomlView::Array(v), TomlView::Array(w)) => v.len() == w.len() && forall|i: int|
            0 <= i < w.len() ==> same(v[i], #[trigger] w[i]),
        (TomlView::Table(p), TomlView::Table(q)) => {
            &&& p.len() == q.len()
            &&& forall|i: int| 0 <= i < p.len() ==> lookup(q, (#[trigger] p[i]).0) is Some
            &&& forall|j: int|
                0 <= j < q.len() ==> match lookup(p, (#[trigger] q[j]).0) {
                    Some(x) => same(x, q[j].1),
                    None => false,
                }
        },
        _ => a == b,
    }
}

/// What was read holds what was written.
pub open spec fn read_back(read: Result<TomlView, Seq<char>>, written: TomlView) -> bool {
    match read {
        Ok(t) => keyed(t) && same(t, written),
        Err(_) => false,
    }
}

// ---------------------------------------------------------------------------
// toml
// ---------------------------------------------------------------------------

/// What `toml::from_str` reads from a text into a `toml::Value`, or the
/// message of its error.
pub uninterp spec fn toml_parse(text: Seq<char>) -> Result<TomlView, Seq<char>>;

/// What `toml::to_string` writes for a `toml::Value`, or the message of its
/// error.
pub uninterp spec fn toml_text(value: TomlView) -> Result<Seq<char>, Seq<char>>;

/// `toml::Value` as the library's own tree, variant by variant. Nothing is
/// claimed of it by itself.
#[verifier::external_body]
fn toml_of(v: toml::Value) -> Toml {
    match v {
        toml::Value::String(s) => Toml::Text(s),
        toml::Value::Integer(n) => Toml::Integer(n),
        toml::Value::Float(d) => Toml::Float(TomlFloat { raw: toml::Value::Float(d), bits: d.to_bits() }),
        toml::Value::Boolean(b) => Toml::Boolean(b),
        toml::Value::Datetime(d) => Toml::Datetime(TomlDatetime { raw: d, text: d.to_string() }),
        toml::Value::Array(a) => Toml::Array(a.into_iter().map(toml_of).collect()),
        toml::Value::Table(t) => Toml::Table(t.into_iter().map(|(k, v)| (k, toml_of(v))).collect()),
    }
}

/// The library's tree as `toml::Value`, variant by variant. Nothing is claimed
/// of it by itself.
#[verifier::external_body]
fn value_of(t: &Toml) -> toml::Value {
    match t {
        Toml::Text(s) => toml::Value::String(s.clone()),
        Toml::Integer(n) => toml::Value::Integer(*n),
        Toml::Float(d) => d.raw.clone(),
        Toml::Boolean(b) => toml::Value::Boolean(*b),
        Toml::Datetime(d) => toml::Value::Datetime(d.raw),
        Toml::Array(a) => toml::Value::Array(a.iter().map(value_of).collect()),
        Toml::Table(t) => toml::Value::Table(t.iter().map(|(k, v)| (k.clone(), value_of(v))).collect()),
    }
}

/// `toml::from_str`, reading a `toml::Value`. The result rests on the text
/// alone and goes by the name `toml_parse`. A table of `toml` is a map, so no
/// key stands twice in one.
#[verifier::external_body]
fn read_toml(text: &str) -> (r: Result<Toml, String>)
    ensures
        match r {
            Ok(t) => toml_parse(text@) == Ok::<TomlView, Seq<char>>(t@),
            Err(e) => toml_parse(text@) == Err::<TomlView, Seq<char>>(e@),
        },
        r matches Ok(t) ==> keyed(t@),
{
    toml::from_str::<toml::Value>(text).map(toml_of).map_err(|e| e.to_string())
}

/// `toml::to_string` of a `toml::Value`. The result rests on the value alone
/// and goes by the name `toml_text`. A table of plain values is written, and
/// reading the text gives the table back, in another order of its keys
/// perhaps; of floats, dates, deeper trees and the one reserved key this is
/// not claimed. `toml` counts the quotes in a row of a text in a byte, which
/// must not overflow.
#[verifier::external_body]
fn write_toml(t: &Toml) -> (r: Result<String, String>)
    requires
        writable(t@),
    ensures
        match r {
            Ok(s) => toml_text(t@) == Ok::<Seq<char>, Seq<char>>(s@),
            Err(e) => toml_text(t@) == Err::<Seq<char>, Seq<char>>(e@),
        },
        t@ is Table && plain(t@, MAX_NESTING) && keyed(t@) ==> match r {
            Ok(s) => read_back(toml_parse(s@), t@),
            Err(_) => false,
        },
{
    toml::to_string(&value_of(t)).map_err(|e| e.to_string())
}

fn short_runs_of(s: &[char], c: char) -> (r: bool)
    ensures
        r == short_runs(s@, c),
{
    let mut run: u64 = 0;
    let mut i: usize = 0;
    assert(s@.take(0) =~= Seq::empty());
    while i < s.len()
        invariant
            i <= s@.len(),
            run <= MAX_QUOTES,
            run == trailing(s@.take(i as int), c),
            forall|n: int| 0 <= n <= i ==> trailing(#[trigger] s@.take(n), c) <= MAX_QUOTES,
        decreases s@.len() - i,
    {
        let ghost next = s@.take(i + 1);
        assert(next.drop_last() =~= s@.take(i as int));
        assert(next.last() == s@[i as int]);
        if s[i] == c {
            if run == MAX_QUOTES {
                assert(trailing(s@.take(i + 1), c) > MAX_QUOTES);
                return false;
            }
            run = run + 1;
        } else {
            run = 0;
        }
        i = i + 1;
    }
    true
}

/// Whether a tree can be written.
pub fn can_write(t: &Toml) -> (r: bool)
    ensures
        r == writable(t@),
    decreases t,
{
    match t {
        Toml::Text(s) => {
            let c = text::chars_of(s.as_str());
            short_runs_of(c.as_slice(), '\'') && short_runs_of(c.as_slice(), '"')
        },
        Toml::Array(v) => {
            let ghost views = t@->Array_0;
            let mut i: usize = 0;
            while i < v.len()
                invariant
                    i <= v@.len(),
                    t matches Toml::Array(w) && w == v,
                    t@ == TomlView::Array(views),
                    views.len() == v@.len(),
                    forall|j: int| 0 <= j < v@.len() ==> #[trigger] views[j] == v@[j]@,
                    forall|j: int| 0 <= j < i ==> writable(#[trigger] views[j]),
                decreases v@.len() - i,
            {
                assert(views[i as int] == v@[i as int]@);
                assert(decreases_to!(t => v));
                assert(decreases_to!(v => v@));
                assert(decreases_to!(v@ => v@[i as int]));
                if !can_write(&v[i]) {
                    assert(t@->Array_0 == views);
                    assert(!writable(views[i as int]));
                    return false;
                }
                i = i + 1;
            }
            true
        },
        Toml::Table(v) => {
            let ghost views = t@->Table_0;
            let mut i: usize = 0;
            while i < v.len()
                invariant
                    i <= v@.len(),
                    t matches Toml::Table(w) && w == v,
                    t@ == TomlView::Table(views),
                    views.len() == v@.len(),
                    forall|j: int| 0 <= j < v@.len() ==> (#[trigger] views[j]).1 == v@[j].1@,
                    forall|j: int| 0 <= j < i ==> writable((#[trigger] views[j]).1),
                decreases v@.len() - i,
            {
                assert(views[i as int].1 == v@[i as int].1@);
                assert(decreases_to!(t => v));
                assert(decreases_to!(v => v@));
                assert(decreases_to!(v@ => v@[i as int]));
                assert(decreases_to!(v@[i as int] => v@[i as int].1));
                if !can_write(&v[i].1) {
                    assert(t@->Table_0 == views);
                    assert(!writable(views[i as int].1));
                    return false;
                }
                i = i + 1;
            }
            true
        },
        _ => true,
    }
}

/// Reads a TOML document, or gives the message that says why not. No key
/// stands twice in a table of it.
pub fn parse(text: &str) -> (r: Result<Toml, String>)
    ensures
        match r {
            Ok(t) => toml_parse(text@) == Ok::<TomlView, Seq<char>>(t@),
            Err(e) => toml_parse(text@) == Err::<TomlView, Seq<char>>(e@),
        },
        r matches Ok(t) ==> keyed(t@),
{
    read_toml(text)
}

/// Writes a TOML document, or gives the message that says why not. A table of
/// plain values can be read back.
pub fn render(t: &Toml) -> (r: Result<String, String>)
    requires
        writable(t@),
    ensures
        match r {
            Ok(s) => toml_text(t@) == Ok::<Seq<char>, Seq<char>>(s@),
            Err(e) => toml_text(t@) == Err::<Seq<char>, Seq<char>>(e@),
        },
        t@ is Table && plain(t@, MAX_NESTING) && keyed(t@) ==> match r {
            Ok(s) => read_back(toml_parse(s@), t@),
            Err(_) => false,
        },
{
    write_toml(t)
}

// ---------------------------------------------------------------------------
// Merge
// ---------------------------------------------------------------------------

/// The overlay laid over the base. Two tables are merged key by key; anything
/// else is replaced wholesale.
pub open spec fn merged(base: TomlView, overlay: TomlView) -> TomlView
    decreases overlay, 2int,
{
    match (base, overlay) {
        (TomlView::Table(b), TomlView::Table(o)) => TomlView::Table(merged_pairs(b, o)),
        _ => overlay,
    }
}

/// The pairs of a table laid over those of another, one after the other.
pub open spec fn merged_pairs(
    base: Seq<(Seq<char>, TomlView)>,
    overlay: Seq<(Seq<char>, TomlView)>,
) -> Seq<(Seq<char>, TomlView)>
    decreases overlay, 1int,
{
    if overlay.len() == 0 {
        base
    } else {
        let last = overlay[overlay.len() - 1];
        laid(merged_pairs(base, overlay.subrange(0, overlay.len() - 1)), last.0, last.1)
    }
}

/// One pair laid over a table: merged with what stands under its key, or put
/// at the end.
pub open spec fn laid(
    base: Seq<(Seq<char>, TomlView)>,
    key: Seq<char>,
    value: TomlView,
) -> Seq<(Seq<char>, TomlView)>
    decreases value, 3int,
{
    match position(base, key) {
        Some(i) => base.update(i, (key, merged(base[i].1, value))),
        None => base.push((key, value)),
    }
}

proof fn lemma_position(pairs: Seq<(Seq<char>, TomlView)>, key: Seq<char>)
    ensures
        match position(pairs, key) {
            Some(i) => 0 <= i < pairs.len() && pairs[i].0 == key && forall|j: int|
                0 <= j < i ==> (#[trigger] pairs[j]).0 != key,
            None => forall|j: int| 0 <= j < pairs.len() ==> (#[trigger] pairs[j]).0 != key,
        },
    decreases pairs.len(),
{
    if pairs.len() > 0 {
        lemma_position(pairs.drop_last(), key);
        let init = pairs.drop_last();
        assert forall|j: int| 0 <= j < init.len() implies #[trigger] pairs[j] == init[j] by {}
        match position(init, key) {
            Some(i) => {
                assert forall|j: int| 0 <= j < i implies (#[trigger] pairs[j]).0 != key by {
                    assert(init[j].0 != key);
                }
            },
            None => {
                assert forall|j: int| 0 <= j < init.len() implies (#[trigger] pairs[j]).0
                    != key by {
                    assert(init[j].0 != key);
                }
            },
        }
    }
}

/// A position is fixed by being the first.
proof fn lemma_position_is(pairs: Seq<(Seq<char>, TomlView)>, key: Seq<char>, i: int)
    requires
        0 <= i < pairs.len(),
        pairs[i].0 == key,
        forall|j: int| 0 <= j < i ==> (#[trigger] pairs[j]).0 != key,
    ensures
        position(pairs, key) == Some(i),
{
    lemma_position(pairs, key);
    if let Some(k) = position(pairs, key) {
        if k < i {
            assert(pairs[k].0 != key);
        } else if i < k {
            assert(pairs[i].0 != key);
        }
    } else {
        assert(pairs[i].0 != key);
    }
}

proof fn lemma_laid_lookup(
    base: Seq<(Seq<char>, TomlView)>,
    key: Seq<char>,
    value: TomlView,
    k: Seq<char>,
)
    ensures
        lookup(laid(base, key, value), k) == (if k == key {
            match lookup(base, key) {
                Some(b) => Some(merged(b, value)),
                None => Some(value),
            }
        } else {
            lookup(base, k)
        }),
{
    let after = laid(base, key, value);
    lemma_position(base, key);
    lemma_position(base, k);
    match position(base, key) {
        Some(i) => {
            assert(after.len() == base.len());
            assert forall|j: int| 0 <= j < base.len() implies (#[trigger] after[j]).0
                == base[j].0 by {}
            match position(base, k) {
                Some(p) => {
                    assert forall|j: int| 0 <= j < p implies (#[trigger] after[j]).0 != k by {
                        assert(base[j].0 != k);
                    }
                    lemma_position_is(after, k, p);
                },
                None => {
                    lemma_position(after, k);
                    if let Some(p) = position(after, k) {
                        assert(base[p].0 != k);
                    }
                },
            }
        },
        None => {
            assert forall|j: int| 0 <= j < base.len() implies #[trigger] after[j] == base[j] by {}
            if k == key {
                assert forall|j: int| 0 <= j < base.len() implies (#[trigger] after[j]).0
                    != k by {
                    assert(base[j].0 != key);
                }
                lemma_position_is(after, k, base.len() as int);
            } else {
                match position(base, k) {
                    Some(p) => {
                        assert forall|j: int| 0 <= j < p implies (#[trigger] after[j]).0 != k by {
                            assert(base[j].0 != k);
                        }
                        lemma_position_is(after, k, p);
                    },
                    None => {
                        lemma_position(after, k);
                        if let Some(p) = position(after, k) {
                            if p < base.len() {
                                assert(base[p].0 != k);
                            }
                        }
                    },
                }
            }
        },
    }
}

/// Tables merge key by key: a key of one of them keeps its value, and a key of
/// both gets the overlay's value laid over the base's. What the overlay does
/// not name is untouched.
pub proof fn law_tables_merge_key_by_key(
    base: Seq<(Seq<char>, TomlView)>,
    overlay: Seq<(Seq<char>, TomlView)>,
    key: Seq<char>,
)
    requires
        distinct(overlay),
    ensures
        merged(TomlView::Table(base), TomlView::Table(overlay)) == TomlView::Table(
            merged_pairs(base, overlay),
        ),
        lookup(merged_pairs(base, overlay), key) == (match (
            lookup(base, key),
            lookup(overlay, key),
        ) {
            (Some(b), Some(o)) => Some(merged(b, o)),
            (None, Some(o)) => Some(o),
            (b, None) => b,
        }),
    decreases overlay.len(),
{
    if overlay.len() > 0 {
        let init = overlay.subrange(0, overlay.len() - 1);
        let last = overlay[overlay.len() - 1];
        assert(init =~= overlay.drop_last());
        assert forall|i: int, j: int| 0 <= i < j < init.len() implies #[trigger] init[i].0
            != #[trigger] init[j].0 by {
            assert(overlay[i].0 != overlay[j].0);
        }
        law_tables_merge_key_by_key(base, init, key);
        lemma_laid_lookup(merged_pairs(base, init), last.0, last.1, key);
        lemma_position(init, key);
        lemma_position(overlay, key);
        if key == last.0 {
            if let Some(i) = position(init, key) {
                assert(overlay[i].0 == overlay[overlay.len() - 1].0);
            }
            law_tables_merge_key_by_key(base, init, last.0);
        } else {
            if let Some(i) = position(init, key) {
                assert(overlay[i] == init[i]);
            }
        }
    } else {
        lemma_position(overlay, key);
    }
}

/// Scalars and arrays replace wholesale, whatever stood there.
pub proof fn law_other_values_replace(base: TomlView, overlay: TomlView)
    requires
        !(base is Table && overlay is Table),
    ensures
        merged(base, overlay) == overlay,
{
}

/// An overlay without keys leaves the base as it is.
pub proof fn law_empty_overlay_is_identity(base: Seq<(Seq<char>, TomlView)>)
    ensures
        merged(TomlView::Table(base), TomlView::Table(Seq::empty())) == TomlView::Table(base),
{
}

proof fn lemma_laid_pairs(base: Seq<(Seq<char>, TomlView)>, key: Seq<char>, value: TomlView)
    requires
        distinct(base),
    ensures
        distinct(laid(base, key, value)),
        forall|k: int|
            0 <= k < laid(base, key, value).len() ==> {
                ||| k < base.len() && #[trigger] laid(base, key, value)[k] == base[k]
                ||| laid(base, key, value)[k] == (key, value)
                ||| k < base.len() && base[k].0 == key && laid(base, key, value)[k] == (
                    key,
                    merged(base[k].1, value),
                )
            },
{
    let after = laid(base, key, value);
    lemma_position(base, key);
    match position(base, key) {
        Some(i) => {
            assert forall|a: int, b: int|
                #![trigger after[a], after[b]]
                0 <= a < b < after.len() implies after[a].0 != after[b].0 by {
                assert(base[a].0 != base[b].0);
            }
        },
        None => {
            assert forall|a: int, b: int|
                #![trigger after[a], after[b]]
                0 <= a < b < after.len() implies after[a].0 != after[b].0 by {
                assert(base[a].0 != key);
                if b < base.len() {
                    assert(base[a].0 != base[b].0);
                }
            }
        },
    }
}

/// A merge keeps the keys of every table distinct.
pub proof fn law_merge_keeps_keys_distinct(base: TomlView, overlay: TomlView)
    requires
        keyed(base),
        keyed(overlay),
    ensures
        keyed(merged(base, overlay)),
    decreases overlay, 1int,
{
    if let (TomlView::Table(b), TomlView::Table(o)) = (base, overlay) {
        lemma_merged_pairs_are_keyed(b, o);
    }
}

proof fn lemma_merged_pairs_are_keyed(
    base: Seq<(Seq<char>, TomlView)>,
    overlay: Seq<(Seq<char>, TomlView)>,
)
    requires
        keyed(TomlView::Table(base)),
        keyed(TomlView::Table(overlay)),
    ensures
        keyed(TomlView::Table(merged_pairs(base, overlay))),
    decreases overlay, 0int,
{
    if overlay.len() > 0 {
        let init = overlay.subrange(0, overlay.len() - 1);
        let last = overlay[overlay.len() - 1];
        assert forall|i: int, j: int|
            #![trigger init[i], init[j]]
            0 <= i < j < init.len() implies init[i].0 != init[j].0 by {
            assert(overlay[i].0 != overlay[j].0);
        }
        assert forall|i: int| 0 <= i < init.len() implies keyed((#[trigger] init[i]).1) by {
            assert(overlay[i] == init[i]);
        }
        lemma_merged_pairs_are_keyed(base, init);
        let before = merged_pairs(base, init);
        let after = laid(before, last.0, last.1);
        lemma_laid_pairs(before, last.0, last.1);
        lemma_position(before, last.0);
        assert forall|k: int| 0 <= k < after.len() implies keyed((#[trigger] after[k]).1) by {
            if k < before.len() {
                assert(keyed(before[k].1));
                law_merge_keeps_keys_distinct(before[k].1, last.1);
            }
        }
        assert(merged_pairs(base, overlay) == after);
    }
}

/// A merge of plain trees is plain.
pub proof fn law_merge_keeps_trees_plain(base: TomlView, overlay: TomlView, levels: u64)
    requires
        plain(base, levels),
        plain(overlay, levels),
        keyed(base),
        keyed(overlay),
    ensures
        plain(merged(base, overlay), levels),
    decreases overlay, 1int,
{
    if let (TomlView::Table(b), TomlView::Table(o)) = (base, overlay) {
        lemma_merged_pairs_are_plain(b, o, levels);
    }
}

proof fn lemma_merged_pairs_are_plain(
    base: Seq<(Seq<char>, TomlView)>,
    overlay: Seq<(Seq<char>, TomlView)>,
    levels: u64,
)
    requires
        plain(TomlView::Table(base), levels),
        plain(TomlView::Table(overlay), levels),
        keyed(TomlView::Table(base)),
        keyed(TomlView::Table(overlay)),
    ensures
        plain(TomlView::Table(merged_pairs(base, overlay)), levels),
    decreases overlay, 0int,
{
    if overlay.len() > 0 {
        let init = overlay.subrange(0, overlay.len() - 1);
        let last = overlay[overlay.len() - 1];
        let below = (levels - 1) as u64;
        assert forall|i: int, j: int|
            #![trigger init[i], init[j]]
            0 <= i < j < init.len() implies init[i].0 != init[j].0 by {
            assert(overlay[i].0 != overlay[j].0);
        }
        assert forall|i: int| 0 <= i < init.len() implies keyed((#[trigger] init[i]).1) by {
            assert(overlay[i] == init[i]);
        }
        assert forall|i: int| 0 <= i < init.len() implies (#[trigger] init[i]).0
            != "$__toml_private_datetime"@ && plain(init[i].1, below) by {
            assert(overlay[i] == init[i]);
        }
        lemma_merged_pairs_are_plain(base, init, levels);
        lemma_merged_pairs_are_keyed(base, init);
        let before = merged_pairs(base, init);
        let after = laid(before, last.0, last.1);
        lemma_laid_pairs(before, last.0, last.1);
        assert forall|k: int| 0 <= k < after.len() implies (#[trigger] after[k]).0
            != "$__toml_private_datetime"@ && plain(after[k].1, below) by {
            if k < before.len() {
                assert(plain(before[k].1, below));
                assert(keyed(before[k].1));
                law_merge_keeps_trees_plain(before[k].1, last.1, below);
            }
        }
        assert(merged_pairs(base, overlay) == after);
    }
}

/// Tables that hold the same give the same value under every key.
pub proof fn law_same_tables_hold_the_same(
    a: Seq<(Seq<char>, TomlView)>,
    b: Seq<(Seq<char>, TomlView)>,
    key: Seq<char>,
)
    requires
        same(TomlView::Table(a), TomlView::Table(b)),
    ensures
        match (lookup(a, key), lookup(b, key)) {
            (Some(x), Some(y)) => same(x, y),
            (None, None) => true,
            _ => false,
        },
{
    lemma_position(a, key);
    lemma_position(b, key);
    if let Some(j) = position(b, key) {
        assert(b[j].0 == key);
    } else if let Some(i) = position(a, key) {
        assert(lookup(b, a[i].0) is Some);
    }
}

fn position_of(pairs: &Vec<(String, Toml)>, key: &str) -> (r: Option<usize>)
    ensures
        text::as_pos(r) == position(pair_views(pairs@), key@),
        r matches Some(i) ==> i < pairs@.len(),
{
    let ghost all = pair_views(pairs@);
    let mut i: usize = 0;
    while i < pairs.len()
        invariant
            i <= pairs@.len(),
            all == pair_views(pairs@),
            forall|j: int| 0 <= j < i ==> (#[trigger] all[j]).0 != key@,
        decreases pairs@.len() - i,
    {
        if text::str_eq(pairs[i].0.as_str(), key) {
            proof {
                lemma_position_is(all, key@, i as int);
            }
            return Some(i);
        }
        i = i + 1;
    }
    proof {
        lemma_position(all, key@);
        if let Some(k) = position(all, key@) {
            assert(all[k].0 != key@);
        }
    }
    None
}

fn laid_over(base: Toml, overlay: Toml) -> (r: Toml)
    ensures
        r@ == merged(base@, overlay@),
    decreases overlay,
{
    let ghost whole = overlay;
    match (base, overlay) {
        (Toml::Table(mut b), Toml::Table(mut o)) => {
            let ghost from = pair_views(b@);
            let ghost given = o@;
            let ghost over = pair_views(given);
            assert(base@->Table_0 =~= from);
            assert(whole@->Table_0 =~= over);
            let n: usize = o.len();
            let mut i: usize = 0;
            assert(over.subrange(0, 0) =~= Seq::empty());
            while i < n
                invariant
                    i <= n,
                    n == o@.len(),
                    n == given.len(),
                    over == pair_views(given),
                    whole == overlay,
                    whole matches Toml::Table(w) && w@ == given,
                    forall|j: int| i <= j < n ==> #[trigger] o@[j] == given[j],
                    pair_views(b@) == merged_pairs(from, over.subrange(0, i as int)),
                decreases n - i,
            {
                let mut pair = (String::new(), Toml::Boolean(false));
                std::mem::swap(&mut pair, &mut o[i]);
                let (k, v) = pair;
                let ghost before = pair_views(b@);
                let ghost next = over.subrange(0, i + 1);
                assert(next.subrange(0, next.len() - 1) =~= over.subrange(0, i as int));
                assert(over[i as int] == (k@, v@));
                match position_of(&b, k.as_str()) {
                    Some(at) => {
                        proof {
                            lemma_position(before, k@);
                            assert(decreases_to!(whole => whole->Table_0));
                            assert(decreases_to!(whole->Table_0 => whole->Table_0@));
                            assert(decreases_to!(given => given[i as int]));
                            assert(decreases_to!(given[i as int] => given[i as int].1));
                        }
                        let mut slot = Toml::Boolean(false);
                        std::mem::swap(&mut slot, &mut b[at].1);
                        let mut joined = laid_over(slot, v);
                        std::mem::swap(&mut joined, &mut b[at].1);
                        assert(pair_views(b@) =~= laid(before, k@, v@));
                    },
                    None => {
                        b.push((k, v));
                        assert(pair_views(b@) =~= laid(before, k@, v@));
                    },
                }
                i = i + 1;
            }
            assert(over.subrange(0, n as int) =~= over);
            let r = Toml::Table(b);
            assert(r@->Table_0 =~= pair_views(b@));
            r
        },
        (_, other) => other,
    }
}

/// Lays the overlay over the base.
pub fn merge_value(base: &mut Toml, overlay: Toml)
    ensures
        final(base)@ == merged(old(base)@, overlay@),
        keyed(old(base)@) && keyed(overlay@) ==> keyed(final(base)@),
{
    proof {
        if keyed(base@) && keyed(overlay@) {
            law_merge_keeps_keys_distinct(base@, overlay@);
        }
    }
    let mut slot = Toml::Boolean(false);
    std::mem::swap(&mut slot, base);
    *base = laid_over(slot, overlay);
}

// ---------------------------------------------------------------------------
// Laws
// ---------------------------------------------------------------------------

/// The value under a key is that of the first pair with the key, and there is
/// none exactly where no pair has it.
pub proof fn law_a_value_is_the_first_of_its_key(
    before: Seq<(Seq<char>, TomlView)>,
    key: Seq<char>,
    value: TomlView,
    after: Seq<(Seq<char>, TomlView)>,
)
    requires
        forall|i: int| 0 <= i < before.len() ==> (#[trigger] before[i]).0 != key,
    ensures
        lookup(before + seq![(key, value)] + after, key) == Some(value),
        lookup(before, key) is None,
{
    lemma_no_position(before, key);
    let all = before + seq![(key, value)] + after;
    lemma_position_stays(before, key, value, after);
    assert(all[before.len() as int] == (key, value));
}

proof fn lemma_no_position(pairs: Seq<(Seq<char>, TomlView)>, key: Seq<char>)
    requires
        forall|i: int| 0 <= i < pairs.len() ==> (#[trigger] pairs[i]).0 != key,
    ensures
        position(pairs, key) is None,
    decreases pairs.len(),
{
    if pairs.len() > 0 {
        let front = pairs.drop_last();
        assert(pairs[pairs.len() - 1] == pairs.last());
        assert forall|i: int| 0 <= i < front.len() implies (#[trigger] front[i]).0 != key by {
            assert(front[i] == pairs[i]);
        }
        lemma_no_position(front, key);
    }
}

proof fn lemma_position_stays(
    before: Seq<(Seq<char>, TomlView)>,
    key: Seq<char>,
    value: TomlView,
    after: Seq<(Seq<char>, TomlView)>,
)
    requires
        position(before, key) is None,
    ensures
        position(before + seq![(key, value)] + after, key) == Some(before.len() as int),
    decreases after.len(),
{
    let all = before + seq![(key, value)] + after;
    if after.len() == 0 {
        assert(all.drop_last() =~= before);
        assert(all.last() == (key, value));
    } else {
        assert(all.drop_last() =~= before + seq![(key, value)] + after.drop_last());
        lemma_position_stays(before, key, value, after.drop_last());
    }
}

/// Before position `end` a character stands two hundred and fifty-six times in a
/// row.
pub open spec fn is_long_run(s: Seq<char>, c: char, end: int) -> bool {
    256 <= end <= s.len() && forall|k: int| end - 256 <= k < end ==> #[trigger] s[k] == c
}

/// A text has short runs of a character exactly when no two hundred and fifty-six
/// of them stand in a row.
pub proof fn law_runs_are_short_up_to_a_byte(s: Seq<char>, c: char)
    ensures
        short_runs(s, c) <==> forall|end: int| !#[trigger] is_long_run(s, c, end),
{
    assert forall|n: int| 0 <= n <= s.len() implies (trailing(#[trigger] s.take(n), c) >= 256
        <==> is_long_run(s, c, n)) by {
        let t = s.take(n);
        lemma_trailing(t, c, 256);
        assert forall|k: int| 0 <= k < n implies #[trigger] t[k] == s[k] by {}
        if is_long_run(s, c, n) {
            assert forall|k: int| t.len() - 256 <= k < t.len() implies #[trigger] t[k] == c by {
                assert(s[k] == c);
            }
        }
        if trailing(t, c) >= 256 {
            assert forall|k: int| n - 256 <= k < n implies #[trigger] s[k] == c by {
                assert(t[k] == c);
            }
        }
    }
    if short_runs(s, c) {
        assert forall|end: int| !#[trigger] is_long_run(s, c, end) by {
            if 256 <= end <= s.len() {
                assert(trailing(s.take(end), c) <= MAX_QUOTES);
            }
        }
    }
    if forall|end: int| !#[trigger] is_long_run(s, c, end) {
        assert forall|n: int| 0 <= n <= s.len() implies trailing(#[trigger] s.take(n), c)
            <= MAX_QUOTES by {
            assert(!is_long_run(s, c, n));
        }
    }
}

proof fn lemma_trailing(s: Seq<char>, c: char, n: int)
    requires
        n >= 0,
    ensures
        trailing(s, c) <= s.len(),
        trailing(s, c) >= n <==> n <= s.len() && forall|k: int|
            s.len() - n <= k < s.len() ==> #[trigger] s[k] == c,
    decreases s.len(),
{
    if s.len() > 0 {
        let front = s.drop_last();
        assert(s[s.len() - 1] == s.last());
        assert forall|k: int| 0 <= k < front.len() implies #[trigger] s[k] == front[k] by {}
        if n > 0 {
            lemma_trailing(front, c, n - 1);
            if s.last() == c && n <= s.len() && forall|k: int|
                s.len() - n <= k < s.len() ==> #[trigger] s[k] == c {
                assert forall|k: int| front.len() - (n - 1) <= k < front.len() implies
                    #[trigger] front[k] == c by {
                    assert(s[k] == front[k]);
                }
            }
        } else {
            lemma_trailing(front, c, 0);
        }
    }
}

/// A tree can be written exactly when all of its texts can, wherever in it they
/// stand.
pub proof fn law_a_tree_is_written_by_its_texts(
    s: Seq<char>,
    items: Seq<TomlView>,
    pairs: Seq<(Seq<char>, TomlView)>,
)
    ensures
        writable(TomlView::Text(s)) <==> short_runs(s, '\'') && short_runs(s, '"'),
        writable(TomlView::Array(items)) <==> forall|i: int|
            0 <= i < items.len() ==> writable(#[trigger] items[i]),
        writable(TomlView::Table(pairs)) <==> forall|i: int|
            0 <= i < pairs.len() ==> writable((#[trigger] pairs[i]).1),
        forall|n: i64| writable(TomlView::Integer(n)),
        forall|b: bool| writable(TomlView::Boolean(b)),
        forall|f: u64| writable(TomlView::Float(f)),
{
    reveal_with_fuel(writable, 2);
    let array = TomlView::Array(items);
    if writable(array) {
        assert forall|i: int| 0 <= i < items.len() implies writable(#[trigger] items[i]) by {
            assert(array->Array_0[i] == items[i]);
        }
    }
    let table = TomlView::Table(pairs);
    if writable(table) {
        assert forall|i: int| 0 <= i < pairs.len() implies writable((#[trigger] pairs[i]).1) by {
            assert(table->Table_0[i] == pairs[i]);
        }
    }
}

/// A value holds what it is made of.
pub proof fn law_values_hold_what_they_are_made_of(
    items: Vec<Toml>,
    pairs: Vec<(String, Toml)>,
    s: String,
    f: TomlFloat,
    d: TomlDatetime,
)
    ensures
        Toml::Text(s)@ == TomlView::Text(s@),
        forall|n: i64| #[trigger] Toml::Integer(n)@ == TomlView::Integer(n),
        forall|b: bool| #[trigger] Toml::Boolean(b)@ == TomlView::Boolean(b),
        Toml::Float(f)@ == TomlView::Float(f@),
        Toml::Datetime(d)@ == TomlView::Datetime(d@),
        Toml::Array(items)@ matches TomlView::Array(v) && v.len() == items@.len() && forall|i: int|
            0 <= i < v.len() ==> #[trigger] v[i] == items@[i]@,
        Toml::Table(pairs)@ == TomlView::Table(pair_views(pairs@)),
        pair_views(pairs@).len() == pairs@.len(),
        forall|i: int|
            0 <= i < pairs@.len() ==> (#[trigger] pair_views(pairs@)[i]).0 == pairs@[i].0@
                && pair_views(pairs@)[i].1 == pairs@[i].1@,
{
    reveal_with_fuel(tree, 2);
    assert(Toml::Table(pairs)@->Table_0 =~= pair_views(pairs@));
}

} // verus!
