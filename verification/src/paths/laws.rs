//! Laws of paths: which ones are the same.

use vstd::prelude::*;

use crate::paths;
use crate::text;

verus! {

/// Being the same is an equivalence.
pub proof fn lemma_same_path_equivalence(a: Seq<char>, b: Seq<char>, c: Seq<char>)
    ensures
        paths::same_path(a, a),
        paths::same_path(a, b) <==> paths::same_path(b, a),
        paths::same_path(a, b) && paths::same_path(b, c) ==> paths::same_path(a, c),
{
}

/// The absolute path with given names.
pub open spec fn rooted(names: Seq<Seq<char>>) -> Seq<char>
    decreases names.len(),
{
    if names.len() == 0 {
        seq![]
    } else {
        seq!['/'] + names[0] + rooted(names.drop_first())
    }
}

/// Whether a text can be a name: it is not empty, no single dot, and holds no
/// slash.
pub open spec fn can_be_name(s: Seq<char>) -> bool {
    s.len() > 0 && s != seq!['.'] && forall|i: int| 0 <= i < s.len() ==> #[trigger] s[i] != '/'
}

proof fn lemma_name_end_at(path: Seq<char>, from: int, end: int)
    requires
        0 <= from <= end <= path.len(),
        forall|i: int| from <= i < end ==> #[trigger] path[i] != '/',
        end == path.len() || path[end] == '/',
    ensures
        paths::name_end(path, from) == end,
    decreases end - from,
{
    if from < end {
        assert(path[from] != '/');
        lemma_name_end_at(path, from + 1, end);
    }
}

/// The names of what follows do not depend on what precedes.
proof fn lemma_names_shift(head: Seq<char>, tail: Seq<char>, from: int)
    requires
        0 <= from <= tail.len() + 1,
    ensures
        paths::names_from(head + tail, head.len() + from) == paths::names_from(tail, from),
    decreases tail.len() + 1 - from,
{
    let whole = head + tail;
    if from < tail.len() {
        lemma_name_end_shift(head, tail, from);
        let end = paths::name_end(tail, from);
        paths::lemma_name_end(tail, from);
        assert(whole.subrange(head.len() + from, head.len() + end) =~= tail.subrange(from, end));
        lemma_names_shift(head, tail, end + 1);
    }
}

proof fn lemma_name_end_shift(head: Seq<char>, tail: Seq<char>, from: int)
    requires
        0 <= from <= tail.len(),
    ensures
        paths::name_end(head + tail, head.len() + from) == head.len() + paths::name_end(tail, from),
    decreases tail.len() - from,
{
    if from < tail.len() && tail[from] != '/' {
        lemma_name_end_shift(head, tail, from + 1);
    }
}

/// The names of a path are the names it was made of, in their order. So
/// absolute paths of different names are different.
pub proof fn lemma_names_of_rooted(names: Seq<Seq<char>>)
    requires
        forall|k: int| 0 <= k < names.len() ==> can_be_name(#[trigger] names[k]),
    ensures
        paths::names(rooted(names)) == names,
    decreases names.len(),
{
    let path = rooted(names);
    if names.len() > 0 {
        let first = names[0];
        let rest = names.drop_first();
        let tail = rooted(rest);
        assert(can_be_name(first));
        assert forall|k: int| 0 <= k < rest.len() implies can_be_name(#[trigger] rest[k]) by {
            assert(rest[k] == names[k + 1]);
        }
        lemma_names_of_rooted(rest);
        let n = first.len() as int;
        assert(path =~= seq!['/'] + first + tail);
        assert(path[0] == '/');
        assert(paths::name_end(path, 0) == 0);
        assert(path.subrange(0, 0) =~= seq![]);
        assert(paths::names_from(path, 0) == paths::names_from(path, 1));
        assert forall|i: int| 1 <= i < n + 1 implies #[trigger] path[i] != '/' by {
            assert(path[i] == first[i - 1]);
        }
        assert(rest.len() > 0 ==> tail[0] == '/');
        assert(rest.len() == 0 ==> tail.len() == 0);
        lemma_name_end_at(path, 1, n + 1);
        assert(path.subrange(1, n + 1) =~= first);
        let head = seq!['/'] + first;
        lemma_names_shift(head, tail, 1);
        if rest.len() > 0 {
            assert(paths::name_end(tail, 0) == 0);
            assert(tail.subrange(0, 0) =~= seq![]);
            assert(paths::names_from(tail, 0) == paths::names_from(tail, 1));
        } else {
            assert(paths::names_from(tail, 1) =~= seq![]);
            assert(rest =~= seq![]);
        }
        assert(paths::names_from(path, n + 2) == rest);
        assert(names =~= seq![first] + rest);
    }
}

/// A path with a slash doubled, or with a single dot between slashes, is the
/// same as without.
pub proof fn lemma_separators_do_not_count(tail: Seq<char>)
    ensures
        paths::same_path(seq!['/', '/'] + tail, seq!['/'] + tail),
        paths::same_path(seq!['/', '.', '/'] + tail, seq!['/'] + tail),
{
    let one = seq!['/'] + tail;
    lemma_names_shift(seq!['/'], tail, 0);
    assert(paths::name_end(one, 0) == 0);
    assert(one.subrange(0, 0) =~= seq![]);
    assert(paths::names_from(one, 0) == paths::names_from(one, 1));
    let two = seq!['/', '/'] + tail;
    lemma_names_shift(seq!['/', '/'], tail, 0);
    assert(paths::name_end(two, 0) == 0 && paths::name_end(two, 1) == 1);
    assert(two.subrange(0, 0) =~= seq![] && two.subrange(1, 1) =~= seq![]);
    assert(paths::names_from(two, 0) == paths::names_from(two, 1));
    assert(paths::names_from(two, 1) == paths::names_from(two, 2));
    let dot = seq!['/', '.', '/'] + tail;
    lemma_names_shift(seq!['/', '.', '/'], tail, 0);
    assert(paths::name_end(dot, 0) == 0);
    lemma_name_end_at(dot, 1, 2);
    assert(dot.subrange(0, 0) =~= seq![] && dot.subrange(1, 2) =~= seq!['.']);
    assert(paths::names_from(dot, 0) == paths::names_from(dot, 1));
    assert(paths::names_from(dot, 1) == paths::names_from(dot, 3));
}

/// Absolute paths that are made of names are the same exactly where the names
/// are.
pub proof fn lemma_same_rooted(a: Seq<Seq<char>>, b: Seq<Seq<char>>)
    requires
        forall|k: int| 0 <= k < a.len() ==> can_be_name(#[trigger] a[k]),
        forall|k: int| 0 <= k < b.len() ==> can_be_name(#[trigger] b[k]),
        a.len() > 0,
        b.len() > 0,
    ensures
        paths::same_path(rooted(a), rooted(b)) <==> a == b,
{
    lemma_names_of_rooted(a);
    lemma_names_of_rooted(b);
    assert(rooted(a)[0] == '/' && rooted(b)[0] == '/');
}

/// A path that is relative is never the same as one that is absolute, nor one
/// that begins at the current directory by name as one that does not.
pub proof fn lemma_roots_differ(a: Seq<char>, b: Seq<char>)
    requires
        paths::same_path(a, b),
    ensures
        a.len() > 0 && a[0] == '/' <==> b.len() > 0 && b[0] == '/',
        (a == seq!['.'] || (a.len() > 1 && a[0] == '.' && a[1] == '/')) <==> (b == seq!['.'] || (
        b.len() > 1 && b[0] == '.' && b[1] == '/')),
{
    assert(a.len() == 1 && a[0] == '.' ==> a =~= seq!['.']);
    assert(b.len() == 1 && b[0] == '.' ==> b =~= seq!['.']);
}

} // verus!
