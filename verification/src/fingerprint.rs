//! A label set in the order of its keys, and its fingerprint.

use std::collections::hash_map::DefaultHasher;
use std::hash::Hasher;
use vstd::prelude::*;
use vstd::std_specs::hash::DefaultHasherAdditionalSpecFns;

use crate::strmap;
use crate::strmap::Labels;
use crate::text;

verus! {

// ---------------------------------------------------------------------------
// Order
// ---------------------------------------------------------------------------

/// `s` holds every pair of `m` once, in the order of the keys.
pub open spec fn lists(
    s: Seq<(Seq<char>, Seq<char>)>,
    m: Map<Seq<char>, Seq<char>>,
) -> bool {
    &&& forall|i: int, j: int|
        #![trigger s[i], s[j]]
        0 <= i < j < s.len() ==> text::precedes(s[i].0, s[j].0)
    &&& forall|i: int|
        #![trigger s[i]]
        0 <= i < s.len() ==> m.contains_key(s[i].0) && m[s[i].0] == s[i].1
    &&& forall|k: Seq<char>| #[trigger]
        m.contains_key(k) ==> exists|i: int| 0 <= i < s.len() && (#[trigger] s[i]).0 == k
}

/// The pairs of a label set in the order of the keys.
pub open spec fn listing(m: Map<Seq<char>, Seq<char>>) -> Seq<(Seq<char>, Seq<char>)> {
    choose|s: Seq<(Seq<char>, Seq<char>)>| lists(s, m)
}

/// The pairs of a label set can be put in order in one way only.
pub proof fn law_listing_is_unique(
    a: Seq<(Seq<char>, Seq<char>)>,
    b: Seq<(Seq<char>, Seq<char>)>,
    m: Map<Seq<char>, Seq<char>>,
)
    requires
        lists(a, m),
        lists(b, m),
    ensures
        a == b,
    decreases a.len(),
{
    if a.len() == 0 {
        if b.len() > 0 {
            assert(m.contains_key(b[0].0));
        }
        assert(a =~= b);
    } else {
        assert(m.contains_key(a[0].0));
        let j = choose|j: int| 0 <= j < b.len() && (#[trigger] b[j]).0 == a[0].0;
        assert(m.contains_key(b[0].0));
        let i = choose|i: int| 0 <= i < a.len() && (#[trigger] a[i]).0 == b[0].0;
        text::lemma_precedes_total(a[0].0, b[0].0);
        if j > 0 {
            assert(text::precedes(b[0].0, b[j].0));
            if i > 0 {
                assert(text::precedes(a[0].0, a[i].0));
            }
        }
        assert(a[0] == b[0]);
        let rest = m.remove(a[0].0);
        lemma_listing_rest(a, m);
        lemma_listing_rest(b, m);
        law_listing_is_unique(a.skip(1), b.skip(1), rest);
        assert(a =~= seq![a[0]] + a.skip(1));
        assert(b =~= seq![b[0]] + b.skip(1));
    }
}

proof fn lemma_listing_rest(s: Seq<(Seq<char>, Seq<char>)>, m: Map<Seq<char>, Seq<char>>)
    requires
        lists(s, m),
        s.len() > 0,
    ensures
        lists(s.skip(1), m.remove(s[0].0)),
{
    let t = s.skip(1);
    let rest = m.remove(s[0].0);
    assert forall|i: int, j: int| 0 <= i < j < t.len() implies text::precedes(
        (#[trigger] t[i]).0,
        (#[trigger] t[j]).0,
    ) by {
        assert(t[i] == s[i + 1] && t[j] == s[j + 1]);
    }
    assert forall|i: int| 0 <= i < t.len() implies rest.contains_key((#[trigger] t[i]).0)
        && rest[t[i].0] == t[i].1 by {
        assert(t[i] == s[i + 1]);
        assert(text::precedes(s[0].0, s[i + 1].0));
        text::lemma_precedes_total(s[0].0, s[i + 1].0);
    }
    assert forall|k: Seq<char>| #[trigger] rest.contains_key(k) implies exists|i: int|
        0 <= i < t.len() && (#[trigger] t[i]).0 == k by {
        let i = choose|i: int| 0 <= i < s.len() && (#[trigger] s[i]).0 == k;
        assert(i != 0);
        assert(t[i - 1].0 == k);
    }
}

/// A new pair put where it belongs leaves the pairs in order.
proof fn lemma_inserted(
    before: Seq<(Seq<char>, Seq<char>)>,
    m: Map<Seq<char>, Seq<char>>,
    key: Seq<char>,
    value: Seq<char>,
    at: int,
)
    requires
        lists(before, m),
        !m.contains_key(key),
        0 <= at <= before.len(),
        forall|i: int| #![trigger before[i]] 0 <= i < at ==> text::precedes(before[i].0, key),
        forall|i: int|
            #![trigger before[i]]
            at <= i < before.len() ==> text::precedes(key, before[i].0),
    ensures
        lists(before.insert(at, (key, value)), m.insert(key, value)),
{
    let after = before.insert(at, (key, value));
    let n = m.insert(key, value);
    assert forall|i: int, j: int| 0 <= i < j < after.len() implies text::precedes(
        (#[trigger] after[i]).0,
        (#[trigger] after[j]).0,
    ) by {
        if i < at {
            assert(after[i] == before[i]);
        } else if i > at {
            assert(after[i] == before[i - 1]);
        }
        if j < at {
            assert(after[j] == before[j]);
        } else if j > at {
            assert(after[j] == before[j - 1]);
        }
    }
    assert forall|i: int| 0 <= i < after.len() implies n.contains_key((#[trigger] after[i]).0)
        && n[after[i].0] == after[i].1 by {
        if i < at {
            assert(after[i] == before[i]);
        } else if i > at {
            assert(after[i] == before[i - 1]);
        }
    }
    assert forall|k: Seq<char>| #[trigger] n.contains_key(k) implies exists|i: int|
        0 <= i < after.len() && (#[trigger] after[i]).0 == k by {
        if k == key {
            assert(after[at].0 == k);
        } else {
            let i = choose|i: int| 0 <= i < before.len() && (#[trigger] before[i]).0 == k;
            if i < at {
                assert(after[i].0 == k);
            } else {
                assert(after[i + 1].0 == k);
            }
        }
    }
}

/// The position of a new key among pairs in order, from `from` on.
proof fn lemma_place(
    s: Seq<(Seq<char>, Seq<char>)>,
    m: Map<Seq<char>, Seq<char>>,
    key: Seq<char>,
    from: int,
) -> (at: int)
    requires
        lists(s, m),
        !m.contains_key(key),
        0 <= from <= s.len(),
        forall|i: int| #![trigger s[i]] 0 <= i < from ==> text::precedes(s[i].0, key),
    ensures
        from <= at <= s.len(),
        forall|i: int| #![trigger s[i]] 0 <= i < at ==> text::precedes(s[i].0, key),
        forall|i: int| #![trigger s[i]] at <= i < s.len() ==> text::precedes(key, s[i].0),
    decreases s.len() - from,
{
    if from == s.len() {
        from
    } else if text::precedes(s[from].0, key) {
        lemma_place(s, m, key, from + 1)
    } else {
        assert forall|i: int| #![trigger s[i]] from <= i < s.len() implies text::precedes(
            key,
            s[i].0,
        ) by {
            assert(m.contains_key(s[from].0));
            text::lemma_precedes_total(s[from].0, key);
            if i > from {
                assert(text::precedes(s[from].0, s[i].0));
                text::lemma_precedes_transitive(key, s[from].0, s[i].0);
            }
        }
        from
    }
}

/// Every label set can be put in the order of its keys.
pub proof fn law_labels_have_a_listing(m: Map<Seq<char>, Seq<char>>)
    requires
        m.dom().finite(),
    ensures
        lists(listing(m), m),
    decreases m.dom().len(),
{
    if m.dom().len() == 0 {
        assert(lists(Seq::empty(), m));
    } else {
        let key = m.dom().choose();
        let rest = m.remove(key);
        assert(rest.dom() =~= m.dom().remove(key));
        law_labels_have_a_listing(rest);
        let s = listing(rest);
        let at = lemma_place(s, rest, key, 0);
        lemma_inserted(s, rest, key, m[key], at);
        assert(rest.insert(key, m[key]) =~= m);
        assert(lists(s.insert(at, (key, m[key])), m));
    }
}

/// The texts of a row of pairs.
pub open spec fn pair_texts(s: Seq<(String, String)>) -> Seq<(Seq<char>, Seq<char>)> {
    s.map_values(|p: (String, String)| (p.0@, p.1@))
}

/// Puts a pair with a new key where it belongs.
fn insert_sorted(
    out: &mut Vec<(String, String)>,
    key: String,
    value: String,
    Ghost(m): Ghost<Map<Seq<char>, Seq<char>>>,
)
    requires
        lists(pair_texts(old(out)@), m),
        !m.contains_key(key@),
    ensures
        lists(pair_texts(final(out)@), m.insert(key@, value@)),
{
    let ghost before = pair_texts(out@);
    let key_chars = text::chars_of(key.as_str());
    let mut at: usize = 0;
    while at < out.len() && text::before(
        text::chars_of(out[at].0.as_str()).as_slice(),
        key_chars.as_slice(),
    )
        invariant
            at <= out@.len(),
            before == pair_texts(out@),
            key_chars@ == key@,
            forall|i: int|
                #![trigger before[i]]
                0 <= i < at ==> text::precedes(before[i].0, key@),
        decreases out@.len() - at,
    {
        assert(before[at as int].0 == out@[at as int].0@);
        at = at + 1;
    }
    proof {
        assert forall|i: int| #![trigger before[i]] at <= i < before.len() implies text::precedes(
            key@,
            before[i].0,
        ) by {
            assert(before[at as int].0 == out@[at as int].0@);
            assert(m.contains_key(before[at as int].0));
            text::lemma_precedes_total(before[at as int].0, key@);
            if i > at {
                text::lemma_precedes_transitive(key@, before[at as int].0, before[i].0);
            }
        }
    }
    out.insert(at, (key, value));
    proof {
        assert(pair_texts(out@) =~= before.insert(at as int, (key@, value@)));
        lemma_inserted(before, m, key@, value@, at as int);
    }
}

/// The pairs of a label set in the order of the keys.
pub fn sorted(labels: &Labels) -> (r: Vec<(String, String)>)
    ensures
        lists(pair_texts(r@), labels@),
        pair_texts(r@) == listing(labels@),
{
    let mut out: Vec<(String, String)> = Vec::new();
    let n: usize = labels.len();
    let ghost pairs = labels.pairs();
    let mut i: usize = 0;
    while i < n
        invariant
            i <= n,
            n == pairs.len(),
            pairs == labels.pairs(),
            strmap::distinct_keys(pairs),
            lists(pair_texts(out@), strmap::pairs_map(pairs.take(i as int))),
        decreases n - i,
    {
        let (k, v) = labels.entry_at(i);
        let ghost so_far = pairs.take(i as int);
        let ghost next = pairs.take(i + 1);
        proof {
            assert(next.drop_last() =~= so_far);
            assert(next.last() == pairs[i as int]);
            assert forall|a: int, b: int| 0 <= a < b < so_far.len() implies #[trigger] so_far[a].0@
                != #[trigger] so_far[b].0@ by {
                assert(so_far[a] == pairs[a] && so_far[b] == pairs[b]);
            }
            strmap::lemma_pairs_map(so_far);
            if strmap::pairs_map(so_far).contains_key(k@) {
                let j = choose|j: int| 0 <= j < so_far.len() && (#[trigger] so_far[j]).0@ == k@;
                assert(so_far[j] == pairs[j]);
                assert(pairs[j].0@ != pairs[i as int].0@);
            }
        }
        insert_sorted(&mut out, k.clone(), v.clone(), Ghost(strmap::pairs_map(so_far)));
        i = i + 1;
    }
    proof {
        assert(pairs.take(i as int) =~= pairs);
        law_listing_is_unique(pair_texts(out@), listing(labels@), labels@);
    }
    out
}

/// Label sets with one listing are the same.
pub proof fn law_listing_fixes_the_labels(
    s: Seq<(Seq<char>, Seq<char>)>,
    a: Map<Seq<char>, Seq<char>>,
    b: Map<Seq<char>, Seq<char>>,
)
    requires
        lists(s, a),
        lists(s, b),
    ensures
        a == b,
{
    assert forall|k: Seq<char>| a.contains_key(k) <==> b.contains_key(k) by {
        if a.contains_key(k) {
            let i = choose|i: int| 0 <= i < s.len() && (#[trigger] s[i]).0 == k;
            assert(b.contains_key(s[i].0));
        }
        if b.contains_key(k) {
            let i = choose|i: int| 0 <= i < s.len() && (#[trigger] s[i]).0 == k;
            assert(a.contains_key(s[i].0));
        }
    }
    assert forall|k: Seq<char>| a.contains_key(k) implies a[k] == b[k] by {
        let i = choose|i: int| 0 <= i < s.len() && (#[trigger] s[i]).0 == k;
        assert(a[s[i].0] == s[i].1 && b[s[i].0] == s[i].1);
    }
    assert(a =~= b);
}

/// Whether two label sets are the same.
pub fn same_labels(a: &Labels, b: &Labels) -> (r: bool)
    ensures
        r == (a@ == b@),
{
    let x = sorted(a);
    let y = sorted(b);
    let ghost s = pair_texts(x@);
    let ghost t = pair_texts(y@);
    if x.len() != y.len() {
        assert(s.len() != t.len());
        return false;
    }
    let mut i: usize = 0;
    while i < x.len()
        invariant
            i <= x@.len(),
            x@.len() == y@.len(),
            s == pair_texts(x@),
            t == pair_texts(y@),
            s == listing(a@),
            t == listing(b@),
            forall|j: int| 0 <= j < i ==> #[trigger] s[j] == t[j],
        decreases x@.len() - i,
    {
        assert(s[i as int] == (x@[i as int].0@, x@[i as int].1@));
        assert(t[i as int] == (y@[i as int].0@, y@[i as int].1@));
        if !text::str_eq(x[i].0.as_str(), y[i].0.as_str()) || !text::str_eq(
            x[i].1.as_str(),
            y[i].1.as_str(),
        ) {
            assert(s[i as int] != t[i as int]);
            return false;
        }
        i = i + 1;
    }
    proof {
        assert(s =~= t);
        law_listing_fixes_the_labels(s, a@, b@);
    }
    true
}

// ---------------------------------------------------------------------------
// Fingerprint
// ---------------------------------------------------------------------------

/// What is fed to the hasher: each text's bytes, and a byte that no text holds
/// after it.
pub open spec fn chunks(s: Seq<(Seq<char>, Seq<char>)>) -> Seq<Seq<u8>>
    decreases s.len(),
{
    if s.len() == 0 {
        Seq::empty()
    } else {
        chunks(s.drop_last()).push(vstd::utf8::encode_utf8(s.last().0)).push(seq![0xffu8]).push(
            vstd::utf8::encode_utf8(s.last().1),
        ).push(seq![0xffu8])
    }
}

/// Different label sets are fed to the hasher differently.
pub proof fn law_different_labels_are_fed_differently(
    a: Seq<(Seq<char>, Seq<char>)>,
    b: Seq<(Seq<char>, Seq<char>)>,
)
    requires
        chunks(a) == chunks(b),
    ensures
        a == b,
    decreases a.len(),
{
    if a.len() > 0 && b.len() > 0 {
        let (x, y) = (chunks(a), chunks(b));
        let n = x.len();
        assert(chunks(a.drop_last()) =~= x.take(n - 4));
        assert(chunks(b.drop_last()) =~= y.take(n - 4));
        law_different_labels_are_fed_differently(a.drop_last(), b.drop_last());
        assert(x[n - 4] == y[n - 4] && x[n - 2] == y[n - 2]);
        text::lemma_utf8_is_injective(a.last().0, b.last().0);
        text::lemma_utf8_is_injective(a.last().1, b.last().1);
        assert(a =~= a.drop_last().push(a.last()));
        assert(b =~= b.drop_last().push(b.last()));
    } else if a.len() > 0 {
        assert(chunks(a).len() > 0);
    } else if b.len() > 0 {
        assert(chunks(b).len() > 0);
    } else {
        assert(a =~= b);
    }
}

/// The fingerprint of a label set. It rests on the labels alone, not on the
/// order in which they were set.
pub open spec fn fingerprint_of(labels: Map<Seq<char>, Seq<char>>) -> u64 {
    DefaultHasher::spec_finish(chunks(listing(labels)))
}

/// Order-independent fingerprint of a label set.
pub fn fingerprint(labels: &Labels) -> (r: u64)
    ensures
        r == fingerprint_of(labels@),
{
    let pairs = sorted(labels);
    let ghost s = pair_texts(pairs@);
    let end: [u8; 1] = [0xff];
    let mut h = DefaultHasher::new();
    let mut i: usize = 0;
    assert(end@ =~= seq![0xffu8]);
    while i < pairs.len()
        invariant
            i <= pairs@.len(),
            s == pair_texts(pairs@),
            end@ == seq![0xffu8],
            h@ == chunks(s.take(i as int)),
        decreases pairs@.len() - i,
    {
        assert(s.take(i + 1).drop_last() =~= s.take(i as int));
        h.write(pairs[i].0.as_str().as_bytes());
        h.write(&end);
        h.write(pairs[i].1.as_str().as_bytes());
        h.write(&end);
        i = i + 1;
    }
    assert(s.take(i as int) =~= s);
    h.finish()
}

/// The fingerprint of a label set is the hash of all of its pairs, in the order
/// of the keys: each key and each value is fed to the hasher, and a mark after
/// each.
pub proof fn law_fingerprint_is_the_hash_of_all_pairs(
    labels: Map<Seq<char>, Seq<char>>,
    s: Seq<(Seq<char>, Seq<char>)>,
)
    requires
        lists(s, labels),
    ensures
        fingerprint_of(labels) == DefaultHasher::spec_finish(chunks(s)),
        chunks(s).len() == 4 * s.len(),
        forall|i: int|
            #![trigger s[i]]
            0 <= i < s.len() ==> {
                &&& chunks(s)[4 * i] == vstd::utf8::encode_utf8(s[i].0)
                &&& chunks(s)[4 * i + 1] == seq![0xffu8]
                &&& chunks(s)[4 * i + 2] == vstd::utf8::encode_utf8(s[i].1)
                &&& chunks(s)[4 * i + 3] == seq![0xffu8]
            },
{
    law_listing_is_unique(s, listing(labels), labels);
    lemma_chunks_are_fed(s);
}

proof fn lemma_chunks_are_fed(s: Seq<(Seq<char>, Seq<char>)>)
    ensures
        chunks(s).len() == 4 * s.len(),
        forall|i: int|
            #![trigger s[i]]
            0 <= i < s.len() ==> {
                &&& chunks(s)[4 * i] == vstd::utf8::encode_utf8(s[i].0)
                &&& chunks(s)[4 * i + 1] == seq![0xffu8]
                &&& chunks(s)[4 * i + 2] == vstd::utf8::encode_utf8(s[i].1)
                &&& chunks(s)[4 * i + 3] == seq![0xffu8]
            },
    decreases s.len(),
{
    if s.len() > 0 {
        let front = s.drop_last();
        lemma_chunks_are_fed(front);
        assert forall|i: int| #![trigger s[i]] 0 <= i < front.len() implies front[i] == s[i] by {}
        assert(s[s.len() - 1] == s.last());
    }
}

/// A listing holds every pair of the label set once, and nothing else.
pub proof fn law_a_listing_holds_every_pair(
    s: Seq<(Seq<char>, Seq<char>)>,
    m: Map<Seq<char>, Seq<char>>,
)
    requires
        lists(s, m),
    ensures
        forall|k: Seq<char>| #[trigger] m.contains_key(k) ==> s.contains((k, m[k])),
        forall|i: int|
            #![trigger s[i]]
            0 <= i < s.len() ==> m.contains_key(s[i].0) && m[s[i].0] == s[i].1,
        forall|i: int, j: int|
            #![trigger s[i], s[j]]
            0 <= i < j < s.len() ==> s[i].0 != s[j].0 && text::precedes(s[i].0, s[j].0),
{
    assert forall|k: Seq<char>| #[trigger] m.contains_key(k) implies s.contains((k, m[k])) by {
        let i = choose|i: int| 0 <= i < s.len() && (#[trigger] s[i]).0 == k;
        assert(s[i] == (k, m[k]));
    }
    assert forall|i: int, j: int|
        #![trigger s[i], s[j]]
        0 <= i < j < s.len() implies s[i].0 != s[j].0 && text::precedes(s[i].0, s[j].0) by {
        text::lemma_precedes_total(s[i].0, s[j].0);
    }
}

/// A row of pairs holds them one by one.
pub proof fn law_rows_hold_every_pair(s: Seq<(String, String)>)
    ensures
        pair_texts(s).len() == s.len(),
        forall|i: int|
            0 <= i < s.len() ==> (#[trigger] pair_texts(s)[i]).0 == s[i].0@ && pair_texts(s)[i].1
                == s[i].1@,
{
}

} // verus!
