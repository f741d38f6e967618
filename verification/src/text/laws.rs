//! Laws of texts: what the functions on them give, told by the characters.

use vstd::prelude::*;

use crate::text;

verus! {

/// The number that digits denote.
pub open spec fn value_of(s: Seq<char>) -> int
    decreases s.len(),
{
    if s.len() == 0 {
        0
    } else {
        10 * value_of(s.drop_last()) + (s.last() as int - '0' as int)
    }
}

/// The decimal numeral of a number is made of digits, denotes the number, and
/// has no zero in front unless it is the number's only digit. So no two numbers
/// have one numeral.
pub proof fn lemma_decimal_denotes(n: nat)
    ensures
        value_of(text::decimal(n)) == n,
        text::decimal(n).len() > 0,
        forall|i: int|
            0 <= i < text::decimal(n).len() ==> '0' as int <= #[trigger] text::decimal(n)[i] as int
                <= '9' as int,
        text::decimal(n)[0] == '0' ==> text::decimal(n).len() == 1,
    decreases n,
{
    let s = text::decimal(n);
    if n < 10 {
        assert(s.drop_last() =~= seq![]);
        assert(value_of(s.drop_last()) == 0);
    } else {
        let front = text::decimal(n / 10);
        lemma_decimal_denotes(n / 10);
        assert(s.drop_last() =~= front);
        assert(s[0] == front[0]);
        if front[0] == '0' {
            assert(front.drop_last() =~= seq![]);
            assert(value_of(front.drop_last()) == 0);
            assert(value_of(front) == 0);
        }
        assert forall|i: int| 0 <= i < s.len() implies '0' as int <= #[trigger] s[i] as int
            <= '9' as int by {
            if i < front.len() {
                assert(s[i] == front[i]);
            }
        }
    }
}

/// The numeral of a number has no more than `k` digits exactly where the number
/// is below the `k`-th power of ten.
pub proof fn lemma_decimal_length(n: nat, k: nat)
    requires
        k > 0,
    ensures
        text::decimal(n).len() <= k <==> n < vstd::arithmetic::power::pow(10, k),
    decreases n,
{
    vstd::arithmetic::power::lemma_pow1(10);
    if n < 10 {
        vstd::arithmetic::power::lemma_pow_increases(10, 1, k);
    } else if k == 1 {
        lemma_decimal_denotes(n / 10);
    } else {
        let m = (k - 1) as nat;
        lemma_decimal_length(n / 10, m);
        assert(vstd::arithmetic::power::pow(10, k) == 10 * vstd::arithmetic::power::pow(10, m)) by {
            reveal(vstd::arithmetic::power::pow);
        }
    }
}

/// The ranges of Unicode's white space.
pub open spec fn white_ranges() -> Seq<(int, int)> {
    seq![
        (9, 13),
        (32, 32),
        (133, 133),
        (160, 160),
        (5760, 5760),
        (8192, 8202),
        (8232, 8233),
        (8239, 8239),
        (8287, 8287),
        (12288, 12288),
    ]
}

/// White space is what lies in one of the ranges, and nothing else is.
pub proof fn lemma_white(c: char)
    ensures
        text::is_white(c) <==> exists|k: int|
            0 <= k < white_ranges().len() && (#[trigger] white_ranges()[k]).0 <= c as int
                <= white_ranges()[k].1,
{
    let r = white_ranges();
    let u = c as int;
    if text::is_white(c) {
        let k: int = if u <= 13 {
            0
        } else if u == 32 {
            1
        } else if u == 133 {
            2
        } else if u == 160 {
            3
        } else if u == 5760 {
            4
        } else if u <= 8202 {
            5
        } else if u <= 8233 {
            6
        } else if u == 8239 {
            7
        } else if u == 8287 {
            8
        } else {
            9
        };
        assert(r[k].0 <= u <= r[k].1);
    }
    assert(r[0] == (9int, 13int) && r[1] == (32int, 32int) && r[2] == (133int, 133int));
}

/// A text is blank exactly where it holds no character that is not white.
pub proof fn lemma_blank(s: Seq<char>)
    ensures
        text::is_blank(s) <==> !exists|i: int|
            0 <= i < s.len() && !text::is_white(#[trigger] s[i]),
{
}

/// Trimming takes white space from both ends, all of it, and nothing else.
pub proof fn lemma_trimmed_part(s: Seq<char>) -> (r: (int, int))
    ensures
        0 <= r.0 <= r.1 <= s.len(),
        text::trimmed(s) == s.subrange(r.0, r.1),
        forall|k: int| 0 <= k < r.0 ==> text::is_white(#[trigger] s[k]),
        forall|k: int| r.1 <= k < s.len() ==> text::is_white(#[trigger] s[k]),
        r.0 < r.1 ==> !text::is_white(s[r.0]) && !text::is_white(s[r.1 - 1]),
    decreases s.len(),
{
    if s.len() == 0 {
        assert(s.subrange(0, 0) =~= s);
        (0, 0)
    } else if text::is_white(s[0]) {
        let t = s.drop_first();
        let (a, b) = lemma_trimmed_part(t);
        assert(t.subrange(a, b) =~= s.subrange(a + 1, b + 1));
        assert forall|k: int| 0 <= k < a + 1 implies text::is_white(#[trigger] s[k]) by {
            if k > 0 {
                assert(t[k - 1] == s[k]);
            }
        }
        assert forall|k: int| b + 1 <= k < s.len() implies text::is_white(#[trigger] s[k]) by {
            assert(t[k - 1] == s[k]);
        }
        (a + 1, b + 1)
    } else if text::is_white(s.last()) {
        let t = s.drop_last();
        let (a, b) = lemma_trimmed_part(t);
        assert(t.subrange(a, b) =~= s.subrange(a, b));
        assert forall|k: int| 0 <= k < a implies text::is_white(#[trigger] s[k]) by {
            assert(t[k] == s[k]);
        }
        assert forall|k: int| b <= k < s.len() implies text::is_white(#[trigger] s[k]) by {
            if k < t.len() {
                assert(t[k] == s[k]);
            }
        }
        (a, b)
    } else {
        assert(s.subrange(0, s.len() as int) =~= s);
        (0, s.len() as int)
    }
}

/// A path is absolute exactly where it begins with a slash.
pub proof fn lemma_absolute(path: Seq<char>)
    ensures
        text::is_absolute(path) <==> exists|rest: Seq<char>| path == #[trigger] (seq!['/'] + rest),
{
    if text::is_absolute(path) {
        assert(path =~= seq!['/'] + path.drop_first());
    }
}

/// A text ends in a suffix exactly where it is something followed by it.
pub proof fn lemma_has_suffix(s: Seq<char>, suffix: Seq<char>)
    ensures
        text::has_suffix(s, suffix) <==> exists|front: Seq<char>| s == #[trigger] (front + suffix),
        text::has_suffix(s, suffix) ==> s == s.take(s.len() - suffix.len()) + suffix,
{
    if text::has_suffix(s, suffix) {
        assert(s =~= s.take(s.len() - suffix.len()) + suffix);
    }
    if exists|front: Seq<char>| s == #[trigger] (front + suffix) {
        let front = choose|front: Seq<char>| s == #[trigger] (front + suffix);
        assert(s.skip(s.len() - suffix.len()) =~= suffix);
    }
}

/// A name below a directory is the directory, a slash where it does not end in
/// one, and the name. An empty directory is the current one.
pub proof fn lemma_joined(dir: Seq<char>, name: Seq<char>)
    ensures
        dir.len() == 0 ==> text::joined(dir, name) == name,
        text::joined(dir, name).take(dir.len() as int) == dir,
        text::joined(dir, name).skip(text::joined(dir, name).len() - name.len()) == name,
        dir.len() > 0 ==> text::joined(dir, name)[text::joined(dir, name).len() - name.len() - 1]
            == '/',
        text::joined(dir, name).len() <= dir.len() + 1 + name.len(),
        dir.len() > 0 && dir.last() == '/' ==> text::joined(dir, name).len() == dir.len()
            + name.len(),
{
    let j = text::joined(dir, name);
    reveal_strlit("/");
    if dir.len() == 0 {
        assert(j =~= name);
    } else {
        let front = if dir.last() == '/' {
            dir
        } else {
            dir.push('/')
        };
        assert(j =~= front + name);
    }
    assert(j.take(dir.len() as int) =~= dir);
    assert(j.skip(j.len() - name.len()) =~= name);
}

/// A text comes before another exactly where it is a proper beginning of it, or
/// has the smaller character at the first place where they differ.
pub proof fn lemma_lex_order(a: Seq<char>, b: Seq<char>)
    ensures
        text::lex_lt(a, b) <==> exists|k: int|
            0 <= k <= a.len() && k < b.len() && #[trigger] a.take(k) == b.take(k) && (k == a.len()
                || (a[k] as int) < (b[k] as int)),
    decreases a.len(),
{
    if text::lex_lt(a, b) {
        if a.len() == 0 {
            assert(a.take(0) =~= b.take(0));
        } else if a[0] != b[0] {
            assert(a.take(0) =~= b.take(0));
        } else {
            let c = a.drop_first();
            let d = b.drop_first();
            lemma_lex_order(c, d);
            let k = choose|k: int|
                0 <= k <= c.len() && k < d.len() && #[trigger] c.take(k) == d.take(k) && (k
                    == c.len() || (c[k] as int) < (d[k] as int));
            assert forall|i: int| 0 <= i < k + 1 implies a[i] == b[i] by {
                if i > 0 {
                    assert(c.take(k)[i - 1] == d.take(k)[i - 1]);
                }
            }
            assert(a.take(k + 1) =~= b.take(k + 1));
        }
    }
    if exists|k: int|
        0 <= k <= a.len() && k < b.len() && #[trigger] a.take(k) == b.take(k) && (k == a.len() || (
        a[k] as int) < (b[k] as int)) {
        let k = choose|k: int|
            0 <= k <= a.len() && k < b.len() && #[trigger] a.take(k) == b.take(k) && (k == a.len()
                || (a[k] as int) < (b[k] as int));
        if a.len() > 0 && k > 0 {
            assert(a[0] == a.take(k)[0] && b[0] == b.take(k)[0]);
            let c = a.drop_first();
            let d = b.drop_first();
            assert forall|i: int| 0 <= i < k - 1 implies c[i] == d[i] by {
                assert(a.take(k)[i + 1] == b.take(k)[i + 1]);
            }
            assert(c.take(k - 1) =~= d.take(k - 1));
            lemma_lex_order(c, d);
        }
    }
}

} // verus!
