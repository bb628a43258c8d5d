//! Names in slash-separated paths, as they stand on a Kubernetes node.

use vstd::prelude::*;

use crate::text;
use vstd::slice::slice_subrange;

verus! {

/// The final component of a path: the last part between slashes that is not
/// empty and not `.`. There is none where that is `..`, or where there is no
/// such part.
pub open spec fn file_name_of(path: Seq<char>) -> Option<Seq<char>>
    decreases path.len(),
{
    if path.len() == 0 {
        None
    } else if path.last() == '/' {
        file_name_of(path.drop_last())
    } else {
        proof {
            text::lemma_rfind_char_before(path, '/', path.len() as int);
        }
        match text::rfind_char(path, '/') {
            Some(i) => {
                let part = path.skip(i + 1);
                if part == "."@ {
                    file_name_of(path.take(i))
                } else if part == ".."@ {
                    None
                } else {
                    Some(part)
                }
            },
            None => if path == "."@ || path == ".."@ {
                None
            } else {
                Some(path)
            },
        }
    }
}

/// A file name without its extension: what stands before its last dot, if
/// anything does.
pub open spec fn stem_of(name: Seq<char>) -> Seq<char> {
    match text::rfind_char(name, '.') {
        Some(i) => if i == 0 {
            name
        } else {
            name.take(i)
        },
        None => name,
    }
}

/// The extension of a path's file name: what stands after its last dot, unless
/// that dot is its first character.
pub open spec fn extension_of(path: Seq<char>) -> Option<Seq<char>> {
    match file_name_of(path) {
        Some(name) => match text::rfind_char(name, '.') {
            Some(i) => if i == 0 {
                None
            } else {
                Some(name.skip(i + 1))
            },
            None => None,
        },
        None => None,
    }
}

/// The extension of a path's file name.
pub fn extension(path: &[char]) -> (r: Option<&[char]>)
    ensures
        match r {
            Some(e) => extension_of(path@) == Some(e@),
            None => extension_of(path@) is None,
        },
{
    let name = match file_name(path) {
        Some(n) => n,
        None => {
            return None;
        },
    };
    proof {
        text::lemma_rfind_char_before(name@, '.', name@.len() as int);
    }
    match text::rfind_char_at(name, '.') {
        Some(i) => {
            if i == 0 {
                None
            } else {
                let n: usize = name.len();
                let e = slice_subrange(name, i + 1, n);
                assert(e@ =~= name@.skip(i + 1));
                Some(e)
            }
        },
        None => None,
    }
}

/// The final component of a path.
pub fn file_name(path: &[char]) -> (r: Option<&[char]>)
    ensures
        match r {
            Some(n) => file_name_of(path@) == Some(n@),
            None => file_name_of(path@) is None,
        },
    decreases path@.len(),
{
    let n: usize = path.len();
    if n == 0 {
        return None;
    }
    if path[n - 1] == '/' {
        let shorter = slice_subrange(path, 0, n - 1);
        assert(shorter@ =~= path@.drop_last());
        return file_name(shorter);
    }
    proof {
        text::lemma_rfind_char_before(path@, '/', path@.len() as int);
    }
    let here = text::chars_of(".");
    let up = text::chars_of("..");
    match text::rfind_char_at(path, '/') {
        Some(i) => {
            let part = slice_subrange(path, i + 1, n);
            assert(part@ =~= path@.skip(i + 1));
            if text::same_chars(part, here.as_slice()) {
                let shorter = slice_subrange(path, 0, i);
                assert(shorter@ =~= path@.take(i as int));
                file_name(shorter)
            } else if text::same_chars(part, up.as_slice()) {
                None
            } else {
                Some(part)
            }
        },
        None => {
            if text::same_chars(path, here.as_slice()) || text::same_chars(path, up.as_slice()) {
                None
            } else {
                Some(path)
            }
        },
    }
}

/// A file name without its extension.
pub fn stem(name: &[char]) -> (r: &[char])
    ensures
        r@ == stem_of(name@),
{
    proof {
        text::lemma_rfind_char_before(name@, '.', name@.len() as int);
    }
    match text::rfind_char_at(name, '.') {
        Some(i) => {
            if i == 0 {
                name
            } else {
                let r = slice_subrange(name, 0, i);
                assert(r@ =~= name@.take(i as int));
                r
            }
        },
        None => name,
    }
}

/// The file name is what stands behind the last slash, and a path without a
/// slash is one itself; slashes at the end do not count.
pub proof fn law_file_name_stands_behind_the_last_slash(dir: Seq<char>, name: Seq<char>)
    requires
        name.len() > 0,
        name != "."@,
        name != ".."@,
        forall|i: int| 0 <= i < name.len() ==> #[trigger] name[i] != '/',
    ensures
        file_name_of(dir + seq!['/'] + name) == Some(name),
        file_name_of(name) == Some(name),
        forall|p: Seq<char>| #[trigger] file_name_of(p.push('/')) == file_name_of(p),
{
    let p = dir + seq!['/'] + name;
    let n = dir.len() as int;
    assert(p[n] == '/');
    assert forall|j: int| n < j < p.len() implies #[trigger] p[j] != '/' by {
        assert(p[j] == name[j - n - 1]);
    }
    text::lemma_rfind_char_is(p, '/', n);
    assert(p.last() == name[name.len() - 1]);
    assert(p.skip(n + 1) =~= name);
    text::lemma_rfind_char_before(name, '/', name.len() as int);
    assert(name.last() == name[name.len() - 1]);
    assert forall|q: Seq<char>| #[trigger] file_name_of(q.push('/')) == file_name_of(q) by {
        assert(q.push('/').drop_last() =~= q);
    }
}

/// A file name is parted at its last dot into the stem and the extension; a name
/// without a dot, or with its only dot in front, has no extension.
pub proof fn law_a_name_is_parted_at_its_last_dot(stem: Seq<char>, ext: Seq<char>)
    requires
        forall|i: int| 0 <= i < ext.len() ==> #[trigger] ext[i] != '.',
    ensures
        stem.len() > 0 ==> stem_of(stem + seq!['.'] + ext) == stem,
        stem_of(ext) == ext,
        stem_of(seq!['.'] + ext) == seq!['.'] + ext,
        forall|p: Seq<char>|
            stem.len() > 0 && #[trigger] file_name_of(p) == Some(stem + seq!['.'] + ext)
                ==> extension_of(p) == Some(ext),
        forall|p: Seq<char>| #[trigger] file_name_of(p) == Some(ext) ==> extension_of(p) is None,
        forall|p: Seq<char>| #[trigger]
            file_name_of(p) == Some(seq!['.'] + ext) ==> extension_of(p) is None,
{
    let name = stem + seq!['.'] + ext;
    let n = stem.len() as int;
    assert(name[n] == '.');
    assert forall|j: int| n < j < name.len() implies #[trigger] name[j] != '.' by {
        assert(name[j] == ext[j - n - 1]);
    }
    text::lemma_rfind_char_is(name, '.', n);
    assert(name.take(n) =~= stem);
    assert(name.skip(n + 1) =~= ext);
    text::lemma_rfind_char_before(ext, '.', ext.len() as int);
    let hidden = seq!['.'] + ext;
    assert(hidden[0] == '.');
    assert forall|j: int| 0 < j < hidden.len() implies #[trigger] hidden[j] != '.' by {
        assert(hidden[j] == ext[j - 1]);
    }
    text::lemma_rfind_char_is(hidden, '.', 0);
}

/// A path that ends in `..` names no file, and a `.` at its end does not count.
pub proof fn law_dots_name_no_file(dir: Seq<char>)
    ensures
        file_name_of(dir + seq!['/'] + ".."@) is None,
        file_name_of(dir + seq!['/'] + "."@) == file_name_of(dir),
        file_name_of(".."@) is None,
        file_name_of("."@) is None,
        file_name_of(Seq::empty()) is None,
{
    reveal_strlit(".");
    reveal_strlit("..");
    let n = dir.len() as int;
    let up = dir + seq!['/'] + ".."@;
    assert(up[n] == '/' && up[n + 1] == '.' && up[n + 2] == '.');
    text::lemma_rfind_char_is(up, '/', n);
    assert(up.skip(n + 1) =~= ".."@);
    let here = dir + seq!['/'] + "."@;
    assert(here[n] == '/' && here[n + 1] == '.');
    text::lemma_rfind_char_is(here, '/', n);
    assert(here.skip(n + 1) =~= "."@);
    assert(here.take(n) =~= dir);
    assert(".."@.len() != "."@.len());
    text::lemma_rfind_char_before("."@, '/', 1);
    text::lemma_rfind_char_before(".."@, '/', 2);
}

} // verus!
