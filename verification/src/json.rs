//! JSON documents as a tree, read and written by `serde_json`.

use vstd::prelude::*;

use crate::text;

verus! {

/// `serde_json`'s number, carried as it is.
#[verifier::external_type_specification]
#[verifier::external_body]
pub struct ExNumber(serde_json::Number);

/// `serde_json`'s value, which only the conversions here look into.
#[verifier::external_type_specification]
#[verifier::external_body]
pub struct ExValue(serde_json::Value);

/// A JSON number: as it was read, as text, as an unsigned integer if it is
/// one, and as a double by its bits and as text.
#[derive(Debug)]
pub struct JsonNumber {
    raw: serde_json::Number,
    text: String,
    unsigned: Option<u64>,
    double: Option<(u64, String)>,
}

/// What a `JsonNumber` holds.
pub struct NumberView {
    /// The number as JSON text.
    pub text: Seq<char>,
    /// The number as an unsigned 64-bit integer, if it is one.
    pub unsigned: Option<u64>,
    /// The double nearest to it, by its bits and as text; absent where no
    /// finite double is.
    pub double: Option<(u64, Seq<char>)>,
}

impl View for JsonNumber {
    type V = NumberView;

    closed spec fn view(&self) -> NumberView {
        NumberView {
            text: self.text@,
            unsigned: self.unsigned,
            double: match self.double {
                Some((bits, text)) => Some((bits, text@)),
                None => None,
            },
        }
    }
}

impl JsonNumber {
    /// The number as JSON text.
    pub fn text(&self) -> (r: &String)
        ensures
            r@ == self@.text,
    {
        &self.text
    }

    /// The number as an unsigned 64-bit integer, if it is one.
    pub fn as_u64(&self) -> (r: Option<u64>)
        ensures
            r == self@.unsigned,
    {
        self.unsigned
    }

    /// The bits of the double.
    pub fn bits(&self) -> (r: Option<u64>)
        ensures
            match self@.double {
                Some((bits, _)) => r == Some(bits),
                None => r is None,
            },
    {
        match &self.double {
            Some((bits, _)) => Some(*bits),
            None => None,
        }
    }

    /// The double as text.
    pub fn double_text(&self) -> (r: Option<&String>)
        ensures
            match self@.double {
                Some((_, text)) => r is Some && r->0@ == text,
                None => r is None,
            },
    {
        match &self.double {
            Some((_, text)) => Some(text),
            None => None,
        }
    }
}

/// A JSON value.
#[derive(Debug)]
pub enum Json {
    Null,
    Bool(bool),
    Number(JsonNumber),
    Text(String),
    Array(Vec<Json>),
    Object(Vec<(String, Json)>),
}

/// What a `Json` holds.
pub enum JsonView {
    Null,
    Bool(bool),
    Number(NumberView),
    Text(Seq<char>),
    Array(Seq<JsonView>),
    Object(Seq<(Seq<char>, JsonView)>),
}

/// The tree that a value stands for.
pub open spec fn tree(j: Json) -> JsonView
    decreases j,
{
    match j {
        Json::Null => JsonView::Null,
        Json::Bool(b) => JsonView::Bool(b),
        Json::Number(n) => JsonView::Number(n@),
        Json::Text(t) => JsonView::Text(t@),
        Json::Array(v) => JsonView::Array(
            Seq::new(
                v@.len(),
                |i: int|
                    if 0 <= i < v@.len() {
                        tree(v@[i])
                    } else {
                        JsonView::Null
                    },
            ),
        ),
        Json::Object(v) => JsonView::Object(
            Seq::new(
                v@.len(),
                |i: int|
                    if 0 <= i < v@.len() {
                        (v@[i].0@, tree(v@[i].1))
                    } else {
                        (Seq::empty(), JsonView::Null)
                    },
            ),
        ),
    }
}

impl View for Json {
    type V = JsonView;

    open spec fn view(&self) -> JsonView {
        tree(*self)
    }
}

/// The first value under `key` in a row of pairs.
pub open spec fn lookup(pairs: Seq<(Seq<char>, JsonView)>, key: Seq<char>) -> Option<JsonView>
    decreases pairs.len(),
{
    if pairs.len() == 0 {
        None
    } else if pairs[0].0 == key {
        Some(pairs[0].1)
    } else {
        lookup(pairs.skip(1), key)
    }
}

impl JsonView {
    /// The value of the field `key`, of an object that has it.
    pub open spec fn field(self, key: Seq<char>) -> Option<JsonView> {
        match self {
            JsonView::Object(pairs) => lookup(pairs, key),
            _ => None,
        }
    }

    /// The text, of a string.
    pub open spec fn as_text(self) -> Option<Seq<char>> {
        match self {
            JsonView::Text(t) => Some(t),
            _ => None,
        }
    }

    /// The truth value, of a boolean.
    pub open spec fn as_bool(self) -> Option<bool> {
        match self {
            JsonView::Bool(b) => Some(b),
            _ => None,
        }
    }

    /// The double, by its bits and as text, of a number.
    pub open spec fn as_double(self) -> Option<(u64, Seq<char>)> {
        match self {
            JsonView::Number(n) => n.double,
            _ => None,
        }
    }

    /// The bits of the double, of a number.
    pub open spec fn as_bits(self) -> Option<u64> {
        match self.as_double() {
            Some((bits, _)) => Some(bits),
            None => None,
        }
    }

    /// The items, of an array.
    pub open spec fn items(self) -> Option<Seq<JsonView>> {
        match self {
            JsonView::Array(items) => Some(items),
            _ => None,
        }
    }

    /// The text of the field `key`, where there is one and it is a string.
    pub open spec fn text_field(self, key: Seq<char>) -> Option<Seq<char>> {
        match self.field(key) {
            Some(v) => v.as_text(),
            None => None,
        }
    }

    /// The items of the field `key`, none where it is no array.
    pub open spec fn list_field(self, key: Seq<char>) -> Seq<JsonView> {
        match self.field(key) {
            Some(v) => match v.items() {
                Some(items) => items,
                None => Seq::empty(),
            },
            None => Seq::empty(),
        }
    }

    /// The value as text: that of a string, or else its JSON.
    pub open spec fn plain(self) -> Seq<char> {
        match self {
            JsonView::Text(t) => t,
            _ => json_text(self),
        }
    }
}

/// What an optional reference to a value holds.
pub open spec fn opt_view(j: Option<&Json>) -> Option<JsonView> {
    match j {
        Some(v) => Some(v@),
        None => None,
    }
}

/// What the values of a row hold.
pub open spec fn json_views(items: Seq<Json>) -> Seq<JsonView> {
    items.map_values(|j: Json| j@)
}

impl Json {
    /// The value of the field `key`, of an object that has it.
    pub fn get(&self, key: &str) -> (r: Option<&Json>)
        ensures
            opt_view(r) == self@.field(key@),
    {
        match self {
            Json::Object(pairs) => {
                let ghost all = self@->Object_0;
                let mut i: usize = 0;
                assert(all.skip(0) =~= all);
                while i < pairs.len()
                    invariant
                        i <= pairs@.len(),
                        self@ == JsonView::Object(all),
                        all.len() == pairs@.len(),
                        forall|k: int|
                            0 <= k < pairs@.len() ==> #[trigger] all[k] == (
                            pairs@[k].0@,
                            pairs@[k].1@,
                            ),
                        lookup(all, key@) == lookup(all.skip(i as int), key@),
                    decreases pairs@.len() - i,
                {
                    assert(all.skip(i as int)[0] == all[i as int]);
                    if text::str_eq(pairs[i].0.as_str(), key) {
                        return Some(&pairs[i].1);
                    }
                    assert(all.skip(i as int).skip(1) =~= all.skip(i + 1));
                    i = i + 1;
                }
                None
            },
            _ => None,
        }
    }

    /// The text, of a string.
    pub fn as_str(&self) -> (r: Option<&String>)
        ensures
            match r {
                Some(t) => self@.as_text() == Some(t@),
                None => self@.as_text() is None,
            },
    {
        match self {
            Json::Text(t) => Some(t),
            _ => None,
        }
    }

    /// The truth value, of a boolean.
    pub fn as_bool(&self) -> (r: Option<bool>)
        ensures
            r == self@.as_bool(),
    {
        match self {
            Json::Bool(b) => Some(*b),
            _ => None,
        }
    }

    /// The number, of a number.
    pub fn as_number(&self) -> (r: Option<&JsonNumber>)
        ensures
            match r {
                Some(n) => self@ == JsonView::Number(n@),
                None => !(self@ is Number),
            },
    {
        match self {
            Json::Number(n) => Some(n),
            _ => None,
        }
    }

    /// The items, of an array.
    pub fn as_array(&self) -> (r: Option<&Vec<Json>>)
        ensures
            match r {
                Some(v) => self@.items() == Some(json_views(v@)),
                None => self@.items() is None,
            },
    {
        match self {
            Json::Array(v) => {
                assert(self@.items()->0 =~= json_views(v@));
                Some(v)
            },
            _ => None,
        }
    }

    /// The text of the field `key`, where there is one and it is a string.
    pub fn get_str(&self, key: &str) -> (r: Option<&String>)
        ensures
            match r {
                Some(t) => self@.text_field(key@) == Some(t@),
                None => self@.text_field(key@) is None,
            },
    {
        match self.get(key) {
            Some(v) => v.as_str(),
            None => None,
        }
    }

    /// The items of the field `key`, where it is an array.
    pub fn get_array(&self, key: &str) -> (r: Option<&Vec<Json>>)
        ensures
            match r {
                Some(v) => self@.list_field(key@) == json_views(v@),
                None => self@.list_field(key@) == Seq::<JsonView>::empty(),
            },
            r is Some <==> self@.field(key@) is Some && self@.field(key@)->0.items() is Some,
    {
        match self.get(key) {
            Some(v) => v.as_array(),
            None => None,
        }
    }

    /// The value as text: that of a string, or else its JSON.
    pub fn plain(&self) -> (r: String)
        ensures
            r@ == self@.plain(),
    {
        match self {
            Json::Text(t) => t.clone(),
            other => to_text(other),
        }
    }
}

// ---------------------------------------------------------------------------
// serde_json
// ---------------------------------------------------------------------------

/// What `serde_json::from_str` reads from a text into a `serde_json::Value`;
/// none where it gives an error.
pub uninterp spec fn json_parse(text: Seq<char>) -> Option<JsonView>;

/// What `serde_json::Value`'s `Display` writes: the value as compact JSON.
pub uninterp spec fn json_text(value: JsonView) -> Seq<char>;

/// `serde_json::Value` as the library's own tree, variant by variant. Of a
/// number it keeps what `Number`'s `Display` writes, what `Number::as_u64`
/// returns, and the bits and text of what `Number::as_f64` does. Nothing is
/// claimed of it by itself.
#[verifier::external_body]
fn json_of(v: serde_json::Value) -> Json {
    match v {
        serde_json::Value::Null => Json::Null,
        serde_json::Value::Bool(b) => Json::Bool(b),
        serde_json::Value::Number(n) => Json::Number(JsonNumber {
            text: n.to_string(),
            unsigned: n.as_u64(),
            double: n.as_f64().map(|d| (d.to_bits(), d.to_string())),
            raw: n,
        }),
        serde_json::Value::String(s) => Json::Text(s),
        serde_json::Value::Array(a) => Json::Array(a.into_iter().map(json_of).collect()),
        serde_json::Value::Object(m) => Json::Object(
            m.into_iter().map(|(k, v)| (k, json_of(v))).collect(),
        ),
    }
}

/// The library's tree as `serde_json::Value`, variant by variant. Nothing is
/// claimed of it by itself.
#[verifier::external_body]
fn value_of(j: &Json) -> serde_json::Value {
    match j {
        Json::Null => serde_json::Value::Null,
        Json::Bool(b) => serde_json::Value::Bool(*b),
        Json::Number(n) => serde_json::Value::Number(n.raw.clone()),
        Json::Text(t) => serde_json::Value::String(t.clone()),
        Json::Array(a) => serde_json::Value::Array(a.iter().map(value_of).collect()),
        Json::Object(m) => serde_json::Value::Object(
            m.iter().map(|(k, v)| (k.clone(), value_of(v))).collect(),
        ),
    }
}

/// `serde_json::from_str`, reading a `serde_json::Value`. The result rests on
/// the text alone and goes by the name `json_parse`.
#[verifier::external_body]
pub(crate) fn parse_text(text: &str) -> (r: Option<Json>)
    ensures
        match r {
            Some(j) => json_parse(text@) == Some(j@),
            None => json_parse(text@) is None,
        },
{
    serde_json::from_str::<serde_json::Value>(text).ok().map(json_of)
}

/// `serde_json::Value::to_string`. The result rests on the value alone and
/// goes by the name `json_text`.
#[verifier::external_body]
pub(crate) fn to_text(j: &Json) -> (r: String)
    ensures
        r@ == json_text(j@),
{
    value_of(j).to_string()
}

/// Reads a JSON document; none where the text is no JSON.
pub fn parse(text: &str) -> (r: Option<Json>)
    ensures
        match r {
            Some(j) => json_parse(text@) == Some(j@),
            None => json_parse(text@) is None,
        },
{
    parse_text(text)
}

// ---------------------------------------------------------------------------
// Laws
// ---------------------------------------------------------------------------

/// The value of a field is that of the first pair with its key, and there is
/// none exactly where no pair has the key.
pub proof fn law_a_field_is_the_first_of_its_key(
    before: Seq<(Seq<char>, JsonView)>,
    key: Seq<char>,
    value: JsonView,
    after: Seq<(Seq<char>, JsonView)>,
)
    requires
        forall|i: int| 0 <= i < before.len() ==> (#[trigger] before[i]).0 != key,
    ensures
        JsonView::Object(before + seq![(key, value)] + after).field(key) == Some(value),
        JsonView::Object(before).field(key) is None,
    decreases before.len(),
{
    let all = before + seq![(key, value)] + after;
    if before.len() > 0 {
        assert(all[0] == before[0]);
        assert(all.skip(1) =~= before.skip(1) + seq![(key, value)] + after);
        let rest = before.skip(1);
        assert forall|i: int| 0 <= i < rest.len() implies (#[trigger] rest[i]).0 != key by {
            assert(rest[i] == before[i + 1]);
        }
        law_a_field_is_the_first_of_its_key(rest, key, value, after);
    } else {
        assert(all[0] == (key, value));
    }
}

/// Only objects have fields, only texts a text, and only arrays items.
pub proof fn law_values_are_read_by_their_kind(v: JsonView, key: Seq<char>)
    ensures
        !(v is Object) ==> v.field(key) is None && v.text_field(key) is None && v.list_field(
            key,
        ).len() == 0,
        v.field(key) matches Some(f) ==> {
            &&& f matches JsonView::Text(t) ==> v.text_field(key) == Some(t)
            &&& !(f is Text) ==> v.text_field(key) is None
            &&& f matches JsonView::Array(items) ==> v.list_field(key) == items
            &&& !(f is Array) ==> v.list_field(key).len() == 0
        },
        v.field(key) is None ==> v.text_field(key) is None && v.list_field(key).len() == 0,
        v matches JsonView::Bool(b) ==> v.as_bool() == Some(b),
        !(v is Bool) ==> v.as_bool() is None,
        v matches JsonView::Number(n) ==> v.as_double() == n.double,
        !(v is Number) ==> v.as_double() is None && v.as_bits() is None,
        v.as_double() matches Some((bits, _)) ==> v.as_bits() == Some(bits),
        v matches JsonView::Text(t) ==> v.plain() == t,
        !(v is Text) ==> v.plain() == json_text(v),
{
}

/// A row of values holds them one by one, and a value holds what it is made of.
pub proof fn law_values_hold_what_they_are_made_of(
    items: Vec<Json>,
    pairs: Vec<(String, Json)>,
    s: String,
    b: bool,
)
    ensures
        json_views(items@).len() == items@.len(),
        forall|i: int| 0 <= i < items@.len() ==> #[trigger] json_views(items@)[i] == items@[i]@,
        Json::Null@ == JsonView::Null,
        Json::Bool(b)@ == JsonView::Bool(b),
        Json::Text(s)@ == JsonView::Text(s@),
        Json::Array(items)@ == JsonView::Array(json_views(items@)),
        Json::Object(pairs)@ matches JsonView::Object(fields) && fields.len() == pairs@.len()
            && forall|i: int|
            0 <= i < fields.len() ==> (#[trigger] fields[i]).0 == pairs@[i].0@ && fields[i].1
                == pairs@[i].1@,
        forall|j: &Json| #[trigger] opt_view(Some(j)) == Some(j@),
        opt_view(None) is None,
{
    reveal_with_fuel(tree, 2);
    assert(Json::Array(items)@->Array_0 =~= json_views(items@));
}

} // verus!
