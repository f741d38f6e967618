//! When two paths are the same: where they have the same components.

use vstd::prelude::*;

use crate::text;
use crate::text::{absolute, chars_of, same_text, string_of};

pub mod laws;

verus! {

/// Where the name that begins at a place ends: at the next slash, or at the end
/// of the path.
pub open spec fn name_end(path: Seq<char>, from: int) -> int
    decreases path.len() - from,
{
    if from < 0 || from >= path.len() || path[from] == '/' {
        from
    } else {
        name_end(path, from + 1)
    }
}

/// Whether a name between slashes counts: an empty one does not, nor does a
/// single dot.
pub open spec fn is_name(name: Seq<char>) -> bool {
    name.len() > 0 && name != seq!['.']
}

/// A name ends behind its beginning, and within the path.
pub proof fn lemma_name_end(path: Seq<char>, from: int)
    ensures
        name_end(path, from) >= from,
        0 <= from <= path.len() ==> name_end(path, from) <= path.len(),
    decreases path.len() - from,
{
    if !(from < 0 || from >= path.len() || path[from] == '/') {
        lemma_name_end(path, from + 1);
    }
}

/// The names of a path from a place on that count.
pub open spec fn names_from(path: Seq<char>, from: int) -> Seq<Seq<char>>
    decreases path.len() + 1 - from,
{
    if from < 0 || from >= path.len() {
        seq![]
    } else {
        let end = name_end(path, from);
        let name = path.subrange(from, end);
        proof {
            lemma_name_end(path, from);
        }
        if is_name(name) {
            seq![name] + names_from(path, end + 1)
        } else {
            names_from(path, end + 1)
        }
    }
}

/// The names of a path that count.
pub open spec fn names(path: Seq<char>) -> Seq<Seq<char>> {
    names_from(path, 0)
}

/// Whether a path begins with a single dot, which there does count.
pub open spec fn begins_with_dot(path: Seq<char>) -> bool {
    path.len() > 0 && path[0] == '.' && (path.len() == 1 || path[1] == '/')
}

/// Whether two paths have the same components: so `/bin//a/` and `/bin/./a` are
/// the same, and `a` and `./a` are not.
pub open spec fn same_path(a: Seq<char>, b: Seq<char>) -> bool {
    &&& text::is_absolute(a) == text::is_absolute(b)
    &&& begins_with_dot(a) == begins_with_dot(b)
    &&& names(a) == names(b)
}

/// The same of paths that may be missing.
pub open spec fn same_opt_path(a: Option<Seq<char>>, b: Option<Seq<char>>) -> bool {
    match (a, b) {
        (Some(s), Some(t)) => same_path(s, t),
        (None, None) => true,
        _ => false,
    }
}

fn names_of(path: &str) -> (r: Vec<String>)
    ensures
        text::texts(r@) == names(path@),
{
    let v = chars_of(path);
    let mut out: Vec<String> = Vec::new();
    let mut i: usize = 0;
    assert(text::texts(out@) + names_from(path@, 0) =~= names(path@));
    while i < v.len()
        invariant
            v@ == path@,
            i <= v@.len(),
            text::texts(out@) + names_from(path@, i as int) == names(path@),
        decreases v@.len() - i,
    {
        let from: usize = i;
        while i < v.len() && v[i] != '/'
            invariant
                v@ == path@,
                from <= i <= v@.len(),
                name_end(path@, from as int) == name_end(path@, i as int),
            decreases v@.len() - i,
        {
            i = i + 1;
        }
        let ghost had = text::texts(out@);
        let ghost name = path@.subrange(from as int, i as int);
        let ghost rest = names_from(path@, i + 1);
        if i > from && !(i == from + 1 && v[from] == '.') {
            proof {
                if name == seq!['.'] {
                    assert(name[0] == path@[from as int]);
                }
            }
            out.push(string_of(&v, from, i));
            assert(text::texts(out@) =~= had.push(name));
            assert(had.push(name) + rest =~= had + (seq![name] + rest));
        } else {
            assert(i > from ==> name =~= seq!['.']);
        }
        if i < v.len() {
            i = i + 1;
        }
    }
    assert(text::texts(out@) + names_from(path@, i as int) =~= text::texts(out@));
    out
}

fn dotted(path: &str) -> (r: bool)
    ensures
        r == begins_with_dot(path@),
{
    let v = chars_of(path);
    v.len() > 0 && v[0] == '.' && (v.len() == 1 || v[1] == '/')
}

/// Whether two paths have the same components.
pub fn is_same_path(a: &str, b: &str) -> (r: bool)
    ensures
        r == same_path(a@, b@),
{
    if absolute(a) != absolute(b) || dotted(a) != dotted(b) {
        return false;
    }
    let s = names_of(a);
    let t = names_of(b);
    if s.len() != t.len() {
        assert(text::texts(s@).len() != text::texts(t@).len());
        return false;
    }
    for i in 0..s.len()
        invariant
            s@.len() == t@.len(),
            text::texts(s@) == names(a@),
            text::texts(t@) == names(b@),
            forall|j: int| 0 <= j < i ==> #[trigger] text::texts(s@)[j] == text::texts(t@)[j],
    {
        assert(text::texts(s@)[i as int] == s@[i as int]@);
        assert(text::texts(t@)[i as int] == t@[i as int]@);
        if !same_text(s[i].as_str(), t[i].as_str()) {
            return false;
        }
    }
    assert(text::texts(s@) =~= text::texts(t@));
    true
}

/// Whether two paths that may be missing have the same components.
pub fn is_same_opt_path(a: &Option<String>, b: &Option<String>) -> (r: bool)
    ensures
        r == same_opt_path(text::opt_view(*a), text::opt_view(*b)),
{
    match (a, b) {
        (Some(s), Some(t)) => is_same_path(s.as_str(), t.as_str()),
        (None, None) => true,
        _ => false,
    }
}

} // verus!
