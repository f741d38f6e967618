//! Which texts the parser of filter directives can take.
//!
//! The parser goes through a directive without the white space around it, and
//! then cuts the directive with that white space at the places it found. Where
//! such a place is inside a character of the latter, it panics. So no text that
//! it accepts is left out here.

use vstd::prelude::*;

use crate::agent_id;
use crate::text;
use crate::text::{chars_of, string_of, trim};

verus! {

/// How many bytes a character has in UTF-8.
pub open spec fn width(c: char) -> nat {
    let u = c as u32;
    if u < 0x80 {
        1
    } else if u < 0x800 {
        2
    } else if u < 0x10000 {
        3
    } else {
        4
    }
}

/// How many bytes a text has in UTF-8.
pub open spec fn bytes(s: Seq<char>) -> nat
    decreases s.len(),
{
    if s.len() == 0 {
        0
    } else {
        bytes(s.drop_last()) + width(s.last())
    }
}

/// Whether a character of a text, or its end, is so many bytes from its start.
pub open spec fn is_boundary(s: Seq<char>, n: nat) -> bool {
    exists|j: int| 0 <= j <= s.len() && #[trigger] bytes(s.take(j)) == n
}

/// The first place from `from` on that holds one of two characters; the end of
/// the text where none does.
pub open spec fn next_of(t: Seq<char>, from: int, a: char, b: char) -> int
    decreases t.len() - from,
{
    if from < 0 || from >= t.len() || t[from] == a || t[from] == b {
        from
    } else {
        next_of(t, from + 1, a, b)
    }
}

/// Where a level begins behind a closed span, if one does.
pub open spec fn level_cuts(t: Seq<char>, i: int) -> Seq<int> {
    if 0 <= i < t.len() && t[i] == '=' {
        seq![i + 1]
    } else {
        seq![]
    }
}

/// Where the parser cuts a directive, counted without the white space around
/// it: at the ends of its target, its span, its field and its level. It rejects
/// one that begins with its level at once.
pub open spec fn cuts(t: Seq<char>) -> Seq<int> {
    let target = next_of(t, 0, '=', '[');
    if target >= t.len() {
        seq![]
    } else if t[target] == '=' {
        if target == 0 {
            seq![]
        } else {
            seq![target, target + 1]
        }
    } else {
        let span = next_of(t, target + 1, ']', '{');
        if span >= t.len() {
            seq![target]
        } else if t[span] == ']' {
            seq![target, target + 1, span] + level_cuts(t, span + 1)
        } else {
            let field = next_of(t, span + 1, '}', '}');
            if field >= t.len() {
                seq![target, target + 1, span]
            } else if field + 1 < t.len() && t[field + 1] == ']' {
                seq![target, target + 1, span, span + 1, field] + level_cuts(t, field + 2)
            } else {
                seq![target, target + 1, span, span + 1, field]
            }
        }
    }
}

/// Whether the parser cuts a directive only between characters.
pub open spec fn directive_safe(d: Seq<char>) -> bool {
    let t = text::trimmed(d);
    forall|k: int|
        0 <= k < cuts(t).len() ==> is_boundary(d, bytes(t.take(#[trigger] cuts(t)[k])))
}

/// Whether the parser can take the first `n` of some directives.
pub open spec fn all_safe(directives: Seq<Seq<char>>, n: int) -> bool {
    forall|k: int| 0 <= k < n ==> directive_safe(#[trigger] directives[k])
}

/// Whether the parser can take a text: whether it can take each of the
/// directives between the commas.
pub open spec fn parser_safe(s: Seq<char>) -> bool {
    let directives = agent_id::split(s, ',');
    all_safe(directives, directives.len() as int)
}

fn width_of(c: char) -> (n: u128)
    ensures
        n == width(c),
{
    let u: u32 = c as u32;
    if u < 0x80 {
        1
    } else if u < 0x800 {
        2
    } else if u < 0x10000 {
        3
    } else {
        4
    }
}

proof fn lemma_bytes_next(s: Seq<char>, i: int)
    requires
        0 <= i < s.len(),
    ensures
        bytes(s.take(i + 1)) == bytes(s.take(i)) + width(s[i]),
{
    assert(s.take(i + 1).drop_last() =~= s.take(i));
}

/// How many bytes of a text precede a place.
fn bytes_before(v: &Vec<char>, k: usize) -> (n: u128)
    requires
        k <= v@.len(),
    ensures
        n == bytes(v@.take(k as int)),
{
    let mut n: u128 = 0;
    for i in 0..k
        invariant
            k <= v@.len(),
            n == bytes(v@.take(i as int)),
            n <= 4 * i,
    {
        proof {
            lemma_bytes_next(v@, i as int);
        }
        n = n + width_of(v[i]);
    }
    n
}

fn at_boundary(v: &Vec<char>, n: u128) -> (r: bool)
    ensures
        r == is_boundary(v@, n as nat),
{
    let mut m: u128 = 0;
    if n == 0 {
        assert(bytes(v@.take(0)) == 0);
        return true;
    }
    for i in 0..v.len()
        invariant
            m == bytes(v@.take(i as int)),
            m <= 4 * i,
            forall|j: int| 0 <= j <= i ==> #[trigger] bytes(v@.take(j)) != n,
    {
        proof {
            lemma_bytes_next(v@, i as int);
        }
        m = m + width_of(v[i]);
        if m == n {
            return true;
        }
    }
    false
}

fn find_next(t: &Vec<char>, from: usize, a: char, b: char) -> (r: usize)
    requires
        from <= t@.len(),
    ensures
        r == next_of(t@, from as int, a, b),
        from <= r <= t@.len(),
        r < t@.len() ==> t@[r as int] == a || t@[r as int] == b,
{
    let mut i: usize = from;
    while i < t.len() && t[i] != a && t[i] != b
        invariant
            from <= i <= t@.len(),
            next_of(t@, from as int, a, b) == next_of(t@, i as int, a, b),
        decreases t@.len() - i,
    {
        i = i + 1;
    }
    i
}

spec fn ints(v: Seq<usize>) -> Seq<int> {
    v.map_values(|k: usize| k as int)
}

fn push_place(out: &mut Vec<usize>, k: usize)
    ensures
        ints(final(out)@) == ints(old(out)@).push(k as int),
{
    let ghost had = ints(out@);
    out.push(k);
    assert(ints(out@) =~= had.push(k as int));
}

/// Where the parser cuts a directive.
fn find_cuts(t: &Vec<char>) -> (out: Vec<usize>)
    ensures
        ints(out@) == cuts(t@),
{
    let mut out: Vec<usize> = Vec::new();
    let target = find_next(t, 0, '=', '[');
    if target >= t.len() {
        assert(ints(out@) =~= cuts(t@));
        return out;
    }
    if target == 0 && t[target] == '=' {
        assert(ints(out@) =~= cuts(t@));
        return out;
    }
    push_place(&mut out, target);
    if t[target] == '=' {
        push_place(&mut out, target + 1);
        assert(ints(out@) =~= cuts(t@));
        return out;
    }
    let span = find_next(t, target + 1, ']', '{');
    if span >= t.len() {
        assert(ints(out@) =~= cuts(t@));
        return out;
    }
    push_place(&mut out, target + 1);
    push_place(&mut out, span);
    let mut closed: usize = span;
    if t[span] == '{' {
        let field = find_next(t, span + 1, '}', '}');
        if field >= t.len() {
            assert(ints(out@) =~= cuts(t@));
            return out;
        }
        push_place(&mut out, span + 1);
        push_place(&mut out, field);
        if !(field + 1 < t.len() && t[field + 1] == ']') {
            assert(ints(out@) =~= cuts(t@));
            return out;
        }
        closed = field + 1;
    }
    if closed + 1 < t.len() && t[closed + 1] == '=' {
        push_place(&mut out, closed + 2);
    }
    assert(ints(out@) =~= cuts(t@));
    out
}

fn can_take(d: &str) -> (r: bool)
    ensures
        r == directive_safe(d@),
{
    let whole = chars_of(d);
    let inner = chars_of(trim(d).as_str());
    let places = find_cuts(&inner);
    for i in 0..places.len()
        invariant
            whole@ == d@,
            inner@ == text::trimmed(d@),
            ints(places@) == cuts(inner@),
            forall|k: int|
                0 <= k < i ==> is_boundary(d@, bytes(inner@.take(#[trigger] cuts(inner@)[k]))),
    {
        assert(cuts(inner@)[i as int] == places@[i as int]);
        proof {
            lemma_cuts_inside(inner@, i as int);
        }
        if !at_boundary(&whole, bytes_before(&inner, places[i])) {
            return false;
        }
    }
    assert(ints(places@).len() == places@.len());
    true
}

/// Whether the parser can take a text.
pub fn can_be_parsed(s: &str) -> (r: bool)
    ensures
        r == parser_safe(s@),
{
    let chars = chars_of(s);
    let mut start: usize = 0;
    let mut ok = true;
    assert(s@.take(0) =~= seq![]);
    for i in 0..chars.len()
        invariant
            chars@ == s@,
            start <= i,
            ({
                let front = agent_id::split(s@.take(i as int), ',');
                &&& front.len() > 0
                &&& front.last() == s@.subrange(start as int, i as int)
                &&& ok == all_safe(front, front.len() - 1)
            }),
    {
        let ghost front = agent_id::split(s@.take(i as int), ',');
        let ghost next = agent_id::split(s@.take(i + 1), ',');
        assert(s@.take(i + 1).drop_last() =~= s@.take(i as int));
        assert(forall|k: int| 0 <= k < front.len() - 1 ==> next[k] == front[k]);
        if chars[i] == ',' {
            let d = string_of(&chars, start, i);
            assert(next[front.len() - 1] == d@);
            proof {
                lemma_same_safe(front, next, front.len() - 1);
            }
            ok = can_take(d.as_str()) && ok;
            start = i + 1;
            assert(next.last() =~= s@.subrange(start as int, i + 1));
        } else {
            assert(next.last() =~= s@.subrange(start as int, i + 1));
            proof {
                lemma_same_safe(front, next, front.len() - 1);
            }
        }
    }
    let ghost all = agent_id::split(s@, ',');
    assert(s@.take(s@.len() as int) =~= s@);
    let last = string_of(&chars, start, chars.len());
    assert(all[all.len() - 1] == last@);
    can_take(last.as_str()) && ok
}

proof fn lemma_same_safe(a: Seq<Seq<char>>, b: Seq<Seq<char>>, n: int)
    requires
        0 <= n <= a.len(),
        n <= b.len(),
        forall|k: int| 0 <= k < n ==> b[k] == a[k],
    ensures
        all_safe(a, n) == all_safe(b, n),
        n < b.len() ==> all_safe(b, n + 1) == (all_safe(b, n) && directive_safe(b[n])),
{
    if all_safe(a, n) {
        assert forall|k: int| 0 <= k < n implies directive_safe(#[trigger] b[k]) by {
            assert(directive_safe(a[k]));
        }
    }
    if all_safe(b, n) {
        assert forall|k: int| 0 <= k < n implies directive_safe(#[trigger] a[k]) by {
            assert(directive_safe(b[k]));
        }
    }
}

// ---------------------------------------------------------------------------
// Laws
// ---------------------------------------------------------------------------

proof fn lemma_next_of(t: Seq<char>, from: int, a: char, b: char)
    requires
        0 <= from <= t.len(),
    ensures
        from <= next_of(t, from, a, b) <= t.len(),
        next_of(t, from, a, b) < t.len() ==> t[next_of(t, from, a, b)] == a || t[next_of(
            t,
            from,
            a,
            b,
        )] == b,
    decreases t.len() - from,
{
    if from < t.len() && t[from] != a && t[from] != b {
        lemma_next_of(t, from + 1, a, b);
    }
}

proof fn lemma_cuts_inside(t: Seq<char>, k: int)
    requires
        0 <= k < cuts(t).len(),
    ensures
        0 <= cuts(t)[k] <= t.len(),
{
    let target = next_of(t, 0, '=', '[');
    lemma_next_of(t, 0, '=', '[');
    if target < t.len() && t[target] != '=' {
        let span = next_of(t, target + 1, ']', '{');
        lemma_next_of(t, target + 1, ']', '{');
        if span < t.len() {
            lemma_next_of(t, span + 1, '}', '}');
        }
    }
}

proof fn lemma_trimmed_at_end(s: Seq<char>)
    requires
        s.len() > 0,
        !text::is_white(s[0]),
    ensures
        0 < text::trimmed(s).len() <= s.len(),
        text::trimmed(s) == s.take(text::trimmed(s).len() as int),
    decreases s.len(),
{
    if text::is_white(s.last()) {
        lemma_trimmed_at_end(s.drop_last());
        let n = text::trimmed(s).len() as int;
        assert(s.drop_last().take(n) =~= s.take(n));
    } else {
        assert(s.take(s.len() as int) =~= s);
    }
}

/// The parser can take every directive that does not begin with white space.
pub proof fn lemma_flush_directives_safe(d: Seq<char>)
    requires
        d.len() > 0 ==> !text::is_white(d[0]),
    ensures
        directive_safe(d),
{
    let t = text::trimmed(d);
    assert forall|k: int| 0 <= k < cuts(t).len() implies is_boundary(
        d,
        bytes(t.take(#[trigger] cuts(t)[k])),
    ) by {
        let c = cuts(t)[k];
        lemma_cuts_inside(t, k);
        if d.len() > 0 {
            lemma_trimmed_at_end(d);
        }
        assert(t.take(c) =~= d.take(c));
    }
}

/// The parser can take every directive without a level and without a span.
pub proof fn lemma_bare_directives_safe(d: Seq<char>)
    requires
        !text::trimmed(d).contains('='),
        !text::trimmed(d).contains('['),
    ensures
        directive_safe(d),
{
    let t = text::trimmed(d);
    lemma_next_of(t, 0, '=', '[');
    let target = next_of(t, 0, '=', '[');
    if target < t.len() {
        assert(t.contains(t[target]));
    }
}

proof fn lemma_ascii_bytes(s: Seq<char>)
    requires
        forall|i: int| 0 <= i < s.len() ==> (#[trigger] s[i] as u32) < 0x80,
    ensures
        bytes(s) == s.len(),
    decreases s.len(),
{
    if s.len() > 0 {
        assert forall|i: int| 0 <= i < s.drop_last().len() implies (#[trigger] s.drop_last()[i] as u32)
            < 0x80 by {
            assert(s.drop_last()[i] == s[i]);
        }
        lemma_ascii_bytes(s.drop_last());
        assert(s.last() == s[s.len() - 1]);
    }
}

proof fn lemma_trimmed_inside(s: Seq<char>, i: int)
    ensures
        text::trimmed(s).len() <= s.len(),
        0 <= i < text::trimmed(s).len() ==> s.contains(text::trimmed(s)[i]),
    decreases s.len(),
{
    if s.len() > 0 {
        if text::is_white(s[0]) {
            lemma_trimmed_inside(s.drop_first(), i);
            if 0 <= i < text::trimmed(s).len() {
                let k = choose|k: int|
                    0 <= k < s.drop_first().len() && s.drop_first()[k] == text::trimmed(s)[i];
                assert(s[k + 1] == text::trimmed(s)[i]);
            }
        } else if text::is_white(s.last()) {
            lemma_trimmed_inside(s.drop_last(), i);
            if 0 <= i < text::trimmed(s).len() {
                let k = choose|k: int|
                    0 <= k < s.drop_last().len() && s.drop_last()[k] == text::trimmed(s)[i];
                assert(s[k] == text::trimmed(s)[i]);
            }
        } else {
            if 0 <= i < s.len() {
                assert(s.contains(s[i]));
            }
        }
    }
}

/// The parser can take every directive that is ASCII.
pub proof fn lemma_ascii_directives_safe(d: Seq<char>)
    requires
        forall|i: int| 0 <= i < d.len() ==> (#[trigger] d[i] as u32) < 0x80,
    ensures
        directive_safe(d),
{
    let t = text::trimmed(d);
    assert forall|k: int| 0 <= k < cuts(t).len() implies is_boundary(
        d,
        bytes(t.take(#[trigger] cuts(t)[k])),
    ) by {
        let c = cuts(t)[k];
        lemma_cuts_inside(t, k);
        lemma_trimmed_inside(d, 0);
        assert forall|i: int| 0 <= i < c implies (#[trigger] t.take(c)[i] as u32) < 0x80 by {
            lemma_trimmed_inside(d, i);
            let j = choose|j: int| 0 <= j < d.len() && d[j] == t[i];
            assert((d[j] as u32) < 0x80);
        }
        lemma_ascii_bytes(t.take(c));
        lemma_ascii_bytes(d.take(c));
    }
}

proof fn lemma_encoded_width(c: char)
    ensures
        vstd::utf8::encode_scalar(c as u32).len() == width(c),
{
}

proof fn lemma_encoded_push(s: Seq<char>, c: char)
    ensures
        vstd::utf8::encode_utf8(s.push(c)).len() == vstd::utf8::encode_utf8(s).len() + width(c),
    decreases s.len(),
{
    lemma_encoded_width(c);
    if s.len() == 0 {
        assert(s.push(c).drop_first() =~= seq![]);
        assert(vstd::utf8::encode_utf8(s.push(c).drop_first()).len() == 0);
    } else {
        assert(s.push(c).drop_first() =~= s.drop_first().push(c));
        lemma_encoded_push(s.drop_first(), c);
    }
}

/// The bytes that are counted are those of UTF-8.
pub proof fn lemma_bytes_are_encoded(s: Seq<char>)
    ensures
        bytes(s) == vstd::utf8::encode_utf8(s).len(),
    decreases s.len(),
{
    if s.len() > 0 {
        lemma_bytes_are_encoded(s.drop_last());
        lemma_encoded_push(s.drop_last(), s.last());
        assert(s.drop_last().push(s.last()) =~= s);
    }
}

/// A directive that the parser can take is not cut inside a character: not at
/// the end of its target, where it has a level or a span, nor behind it.
pub proof fn lemma_cut_between_characters(d: Seq<char>, p: int)
    requires
        directive_safe(d),
        0 < p < text::trimmed(d).len(),
        text::trimmed(d)[p] == '=' || text::trimmed(d)[p] == '[',
        forall|i: int|
            0 <= i < p ==> #[trigger] text::trimmed(d)[i] != '=' && text::trimmed(d)[i] != '[',
    ensures
        is_boundary(d, bytes(text::trimmed(d).take(p))),
        text::trimmed(d)[p] == '=' ==> is_boundary(d, bytes(text::trimmed(d).take(p + 1))),
{
    let t = text::trimmed(d);
    lemma_next_of_at(t, 0, p, '=', '[');
    assert(cuts(t)[0] == p);
    if t[p] == '=' {
        assert(cuts(t)[1] == p + 1);
    }
}

proof fn lemma_next_of_at(t: Seq<char>, from: int, at: int, a: char, b: char)
    requires
        0 <= from <= at < t.len(),
        t[at] == a || t[at] == b,
        forall|i: int| from <= i < at ==> #[trigger] t[i] != a && t[i] != b,
    ensures
        next_of(t, from, a, b) == at,
    decreases at - from,
{
    if from < at {
        assert(t[from] != a && t[from] != b);
        lemma_next_of_at(t, from + 1, at, a, b);
    }
}

} // verus!
