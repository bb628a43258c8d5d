//! What the agent sends: JSON bodies as plain trees, and the requests that
//! carry them.

use vstd::prelude::*;

use crate::json::JsonView;
use crate::number;
use crate::signal::Reading;
use crate::signal::ReadingView;
use crate::text;

verus! {

/// A JSON value that is to be sent.
#[derive(Debug)]
pub enum Payload {
    Text(String),
    Bool(bool),
    Integer(i64),
    Number(Reading),
    List(Vec<Payload>),
    Record(Vec<(String, Payload)>),
}

/// What a `Payload` holds.
pub enum PayloadView {
    Text(Seq<char>),
    Bool(bool),
    Integer(i64),
    Number(ReadingView),
    List(Seq<PayloadView>),
    Record(Seq<(Seq<char>, PayloadView)>),
}

/// The tree that a payload stands for.
pub open spec fn tree(p: Payload) -> PayloadView
    decreases p,
{
    match p {
        Payload::Text(t) => PayloadView::Text(t@),
        Payload::Bool(b) => PayloadView::Bool(b),
        Payload::Integer(n) => PayloadView::Integer(n),
        Payload::Number(r) => PayloadView::Number(r@),
        Payload::List(v) => PayloadView::List(
            Seq::new(
                v@.len(),
                |i: int|
                    if 0 <= i < v@.len() {
                        tree(v@[i])
                    } else {
                        PayloadView::Bool(false)
                    },
            ),
        ),
        Payload::Record(v) => PayloadView::Record(
            Seq::new(
                v@.len(),
                |i: int|
                    if 0 <= i < v@.len() {
                        (v@[i].0@, tree(v@[i].1))
                    } else {
                        (Seq::empty(), PayloadView::Bool(false))
                    },
            ),
        ),
    }
}

impl View for Payload {
    type V = PayloadView;

    open spec fn view(&self) -> PayloadView {
        tree(*self)
    }
}

/// What the payloads of a row hold.
pub open spec fn payload_views(v: Seq<Payload>) -> Seq<PayloadView> {
    v.map_values(|p: Payload| p@)
}

/// A JSON value holds what is sent: the fields of a record in any order, and a
/// reading as the double, by its bits, that `doubles` gives for it.
pub open spec fn carries(
    j: JsonView,
    p: PayloadView,
    doubles: spec_fn(ReadingView) -> u64,
) -> bool
    decreases p,
{
    match p {
        PayloadView::Text(t) => j == JsonView::Text(t),
        PayloadView::Bool(b) => j == JsonView::Bool(b),
        PayloadView::Integer(n) => j matches JsonView::Number(x) && x.text == number::dec_int(
            n as int,
        ),
        PayloadView::Number(r) => j.as_bits() == Some(doubles(r)),
        PayloadView::List(v) => j matches JsonView::Array(w) && w.len() == v.len() && forall|
            i: int,
        |
            0 <= i < v.len() ==> carries(w[i], #[trigger] v[i], doubles),
        PayloadView::Record(fields) => {
            &&& j is Object
            &&& forall|i: int|
                0 <= i < fields.len() ==> match j.field((#[trigger] fields[i]).0) {
                    Some(x) => carries(x, fields[i].1, doubles),
                    None => false,
                }
            &&& forall|k: Seq<char>| #[trigger]
                j.field(k) is Some ==> exists|i: int|
                    0 <= i < fields.len() && (#[trigger] fields[i]).0 == k
        },
    }
}

/// A text.
pub fn text_of(s: &str) -> (r: Payload)
    ensures
        r@ == PayloadView::Text(s@),
{
    Payload::Text(s.to_owned())
}

/// A list.
pub fn list_of(v: Vec<Payload>) -> (r: Payload)
    ensures
        r@ == PayloadView::List(payload_views(v@)),
{
    let r = Payload::List(v);
    assert(r@->List_0 =~= payload_views(v@));
    r
}

/// A record of one field.
pub fn record1(k: &str, v: Payload) -> (r: Payload)
    ensures
        r@ == PayloadView::Record(seq![(k@, v@)]),
{
    let mut fields: Vec<(String, Payload)> = Vec::new();
    fields.push((k.to_owned(), v));
    let r = Payload::Record(fields);
    assert(r@->Record_0 =~= seq![(k@, v@)]);
    r
}

/// A record of two fields.
pub fn record2(k1: &str, v1: Payload, k2: &str, v2: Payload) -> (r: Payload)
    ensures
        r@ == PayloadView::Record(seq![(k1@, v1@), (k2@, v2@)]),
{
    let mut fields: Vec<(String, Payload)> = Vec::new();
    fields.push((k1.to_owned(), v1));
    fields.push((k2.to_owned(), v2));
    let r = Payload::Record(fields);
    assert(r@->Record_0 =~= seq![(k1@, v1@), (k2@, v2@)]);
    r
}

/// A record of three fields.
pub fn record3(k1: &str, v1: Payload, k2: &str, v2: Payload, k3: &str, v3: Payload) -> (r: Payload)
    ensures
        r@ == PayloadView::Record(seq![(k1@, v1@), (k2@, v2@), (k3@, v3@)]),
{
    let mut fields: Vec<(String, Payload)> = Vec::new();
    fields.push((k1.to_owned(), v1));
    fields.push((k2.to_owned(), v2));
    fields.push((k3.to_owned(), v3));
    let r = Payload::Record(fields);
    assert(r@->Record_0 =~= seq![(k1@, v1@), (k2@, v2@), (k3@, v3@)]);
    r
}

/// A POST request with a JSON body.
#[derive(Debug)]
pub struct Post {
    pub url: String,
    pub bearer: Option<String>,
    pub body: Payload,
}

/// What a `Post` holds.
pub struct PostView {
    pub url: Seq<char>,
    pub bearer: Option<Seq<char>>,
    pub body: PayloadView,
}

impl View for Post {
    type V = PostView;

    open spec fn view(&self) -> PostView {
        PostView { url: self.url@, bearer: text::opt_text(self.bearer), body: self.body@ }
    }
}

/// A workspace URL without the slashes at its end, followed by a path.
pub open spec fn url_of(base_url: Seq<char>, path: Seq<char>) -> Seq<char> {
    text::trim_end_char(base_url, '/') + path
}

/// A workspace URL without the slashes at its end, followed by a path.
pub fn url(base_url: &str, path: &str) -> (r: String)
    ensures
        r@ == url_of(base_url@, path@),
{
    let chars = text::chars_of(base_url);
    let base = text::string_of(text::trimmed_end_char(chars.as_slice(), '/'));
    text::cat2(base.as_str(), path)
}

/// Slashes at the end of the workspace URL make no difference.
pub proof fn law_trailing_slashes_do_not_matter(base_url: Seq<char>, path: Seq<char>)
    ensures
        url_of(base_url.push('/'), path) == url_of(base_url, path),
{
    assert(base_url.push('/').drop_last() =~= base_url);
}

/// A path is put behind the workspace URL with nothing between them but what the
/// path begins with, however many slashes the URL ends in.
pub proof fn law_a_path_follows_the_workspace_url(
    base: Seq<char>,
    slashes: Seq<char>,
    path: Seq<char>,
)
    requires
        base.len() > 0 ==> base.last() != '/',
        forall|i: int| 0 <= i < slashes.len() ==> #[trigger] slashes[i] == '/',
    ensures
        url_of(base + slashes, path) == base + path,
{
    text::law_trim_end_char_takes_the_run_off(base, slashes, '/');
}

/// What is sent holds what it is made of, and a request its URL, its token and
/// its body.
pub proof fn law_payloads_hold_what_they_are_made_of(
    items: Vec<Payload>,
    pairs: Vec<(String, Payload)>,
    s: String,
    n: Reading,
    post: Post,
)
    ensures
        Payload::Text(s)@ == PayloadView::Text(s@),
        Payload::Number(n)@ == PayloadView::Number(n@),
        forall|b: bool| #[trigger] Payload::Bool(b)@ == PayloadView::Bool(b),
        forall|k: i64| #[trigger] Payload::Integer(k)@ == PayloadView::Integer(k),
        Payload::List(items)@ == PayloadView::List(payload_views(items@)),
        payload_views(items@).len() == items@.len(),
        forall|i: int| 0 <= i < items@.len() ==> #[trigger] payload_views(items@)[i] == items@[i]@,
        Payload::Record(pairs)@ matches PayloadView::Record(fields) && fields.len() == pairs@.len()
            && forall|i: int|
            0 <= i < fields.len() ==> (#[trigger] fields[i]).0 == pairs@[i].0@ && fields[i].1
                == pairs@[i].1@,
        post@.url == post.url@,
        post@.body == post.body@,
        post.bearer matches Some(t) ==> post@.bearer == Some(t@),
        post.bearer is None ==> post@.bearer is None,
{
    reveal_with_fuel(tree, 2);
    assert(Payload::List(items)@->List_0 =~= payload_views(items@));
}

} // verus!
