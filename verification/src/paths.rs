//! File-system paths, held as text. What `std::path` computes on them is
//! named here rather than restated where it takes pages (component parsing,
//! separators, platform rules; the results depend on the text alone); a file
//! name's stem and extension follow their documented few-line rule.

use vstd::prelude::*;
use crate::text::{chars_of, string_of};

verus! {

/// `Path::file_name` of a path.
pub uninterp spec fn file_name_of(path: Seq<char>) -> Option<Seq<char>>;

/// `Path::parent` of a path.
pub uninterp spec fn parent_of(path: Seq<char>) -> Option<Seq<char>>;

/// `Path::join` of two paths.
pub uninterp spec fn joined_path(base: Seq<char>, tail: Seq<char>) -> Seq<char>;

/// Whether two paths are equal as `Path`s, component by component.
pub uninterp spec fn same_path(a: Seq<char>, b: Seq<char>) -> bool;

/// `str::to_lowercase` of a text.
pub uninterp spec fn lowercase(s: Seq<char>) -> Seq<char>;

/// Index of the last `.` in `s`, or -1.
pub open spec fn last_dot(s: Seq<char>) -> int
    decreases s.len(),
{
    if s.len() == 0 {
        -1
    } else if s.last() == '.' {
        s.len() - 1
    } else {
        last_dot(s.drop_last())
    }
}

/// The stem of a file name, as `Path::file_stem` documents it: the whole
/// name when it has no `.`, or only a leading one; otherwise the part before
/// the last `.`.
pub open spec fn stem_of_name(name: Seq<char>) -> Seq<char> {
    if last_dot(name) <= 0 {
        name
    } else {
        name.take(last_dot(name))
    }
}

/// The extension of a file name, as `Path::extension` documents it: none
/// when the name has no `.`, or only a leading one; otherwise the part after
/// the last `.`.
pub open spec fn extension_of_name(name: Seq<char>) -> Option<Seq<char>> {
    if last_dot(name) <= 0 {
        None
    } else {
        Some(name.skip(last_dot(name) + 1))
    }
}

/// `Path::file_stem` of a path: the stem of its file name, if it has one.
pub open spec fn file_stem_of(path: Seq<char>) -> Option<Seq<char>> {
    match file_name_of(path) {
        Some(n) => Some(stem_of_name(n)),
        None => None,
    }
}

/// `Path::extension` of a path: the extension of its file name, if any.
pub open spec fn extension_of(path: Seq<char>) -> Option<Seq<char>> {
    match file_name_of(path) {
        Some(n) => extension_of_name(n),
        None => None,
    }
}

pub open spec fn opt_view(o: Option<String>) -> Option<Seq<char>> {
    match o {
        Some(s) => Some(s@),
        None => None,
    }
}

/// Calls `Path::file_name`. Claimed: the answer is `file_name_of` the path's
/// text.
#[verifier::external_body]
pub(crate) fn file_name(p: &str) -> (r: Option<String>)
    ensures
        opt_view(r) == file_name_of(p@),
{
    match std::path::Path::new(p).file_name() {
        Some(s) => Some(s.to_string_lossy().into_owned()),
        None => None,
    }
}

/// Calls `Path::parent`. Claimed: the answer is `parent_of` the path's text.
#[verifier::external_body]
pub(crate) fn parent(p: &str) -> (r: Option<String>)
    ensures
        opt_view(r) == parent_of(p@),
{
    match std::path::Path::new(p).parent() {
        Some(s) => Some(s.to_string_lossy().into_owned()),
        None => None,
    }
}

fn last_dot_of(v: &[char]) -> (r: Option<usize>)
    ensures
        match r {
            Some(k) => k as int == last_dot(v@) && k < v@.len(),
            None => last_dot(v@) == -1,
        },
{
    let mut k: usize = v.len();
    assert(v@.take(k as int) =~= v@);
    while k > 0
        invariant
            k <= v@.len(),
            last_dot(v@) == last_dot(v@.take(k as int)),
        decreases k,
    {
        assert(v@.take(k as int).last() == v@[k - 1]);
        if v[k - 1] == '.' {
            return Some(k - 1);
        }
        assert(v@.take(k as int).drop_last() =~= v@.take(k - 1));
        k -= 1;
    }
    assert(v@.take(0).len() == 0);
    None
}

/// The file stem of `p`, following `Path::file_stem`'s documented rule over
/// its file name.
pub(crate) fn file_stem(p: &str) -> (r: Option<String>)
    ensures
        opt_view(r) == file_stem_of(p@),
{
    match file_name(p) {
        None => None,
        Some(n) => {
            let c = chars_of(n.as_str());
            match last_dot_of(c.as_slice()) {
                Some(d) if d > 0 => {
                    assert(c@.subrange(0, d as int) =~= c@.take(d as int));
                    Some(string_of(c.as_slice(), 0, d))
                },
                _ => Some(n),
            }
        },
    }
}

/// The extension of `p`, following `Path::extension`'s documented rule over
/// its file name.
pub(crate) fn extension(p: &str) -> (r: Option<String>)
    ensures
        opt_view(r) == extension_of(p@),
{
    match file_name(p) {
        None => None,
        Some(n) => {
            let c = chars_of(n.as_str());
            match last_dot_of(c.as_slice()) {
                Some(d) if d > 0 => {
                    assert(c@.len() == c.len());
                    assert(c@.subrange(d + 1, c@.len() as int) =~= c@.skip(d + 1));
                    Some(string_of(c.as_slice(), d + 1, c.len()))
                },
                _ => None,
            }
        },
    }
}

/// Calls `Path::join`. Claimed: the answer is `joined_path` of the two texts.
#[verifier::external_body]
pub(crate) fn join(base: &str, tail: &str) -> (r: String)
    ensures
        r@ == joined_path(base@, tail@),
{
    std::path::Path::new(base).join(tail).to_string_lossy().into_owned()
}

/// Calls `Path::eq`. Claimed: the answer is `same_path` of the two texts, and
/// equal texts are equal paths; other texts may be too (`a//b` and `a/b`),
/// which the name leaves open.
#[verifier::external_body]
pub(crate) fn paths_equal(a: &str, b: &str) -> (r: bool)
    ensures
        r == same_path(a@, b@),
        a@ == b@ ==> r,
{
    std::path::Path::new(a) == std::path::Path::new(b)
}

/// Calls `Path::exists`. What is on disk changes under us, so nothing is
/// claimed of the answer.
#[verifier::external_body]
pub(crate) fn path_exists(p: &str) -> bool {
    std::path::Path::new(p).exists()
}

/// Calls `str::to_lowercase`. Claimed: the answer is `lowercase` of the text.
#[verifier::external_body]
pub(crate) fn to_lowercase(s: &str) -> (r: String)
    ensures
        r@ == lowercase(s@),
{
    s.to_lowercase()
}

} // verus!
