//! Laws of agent ids, told by their characters.

use vstd::prelude::*;

use crate::agent_id;
use crate::agent_id::AgentId;
use crate::error::AgentdError;
use crate::text;

verus! {

/// How often a character occurs.
pub open spec fn occurrences(s: Seq<char>, c: char) -> nat
    decreases s.len(),
{
    if s.len() == 0 {
        0
    } else {
        occurrences(s.drop_last(), c) + if s.last() == c {
            1nat
        } else {
            0
        }
    }
}

/// A lower-case letter or a digit.
pub open spec fn is_letter_or_digit(c: char) -> bool {
    97 <= c as int <= 122 || 48 <= c as int <= 57
}

/// A character of a segment.
pub open spec fn is_segment_char(c: char) -> bool {
    is_letter_or_digit(c) || c == '_' || c == '-'
}

/// Whether a segment begins at a place.
pub open spec fn segment_begins(s: Seq<char>, sep: char, i: int) -> bool {
    i == 0 || s[i - 1] == sep
}

/// What holds of the characters of an id, but for its end, where `sep`
/// separates its segments: there are no other characters than those of segments
/// and the separator; every segment begins with a letter or a digit; and none is
/// longer than 63.
pub open spec fn well_spelt(s: Seq<char>, sep: char) -> bool {
    &&& forall|i: int| 0 <= i < s.len() ==> is_segment_char(#[trigger] s[i]) || s[i] == sep
    &&& forall|i: int|
        0 <= i < s.len() && #[trigger] segment_begins(s, sep, i) ==> is_letter_or_digit(s[i])
    &&& forall|i: int|
        0 <= i && i + 64 <= s.len() ==> (#[trigger] s.subrange(i, i + 64)).contains(sep)
}

/// How many characters stand behind the last separator.
spec fn tail_len(s: Seq<char>, sep: char) -> nat
    decreases s.len(),
{
    if s.len() == 0 || s.last() == sep {
        0
    } else {
        tail_len(s.drop_last(), sep) + 1
    }
}

proof fn lemma_tail(s: Seq<char>, sep: char)
    ensures
        tail_len(s, sep) <= s.len(),
        agent_id::split(s, sep).len() == occurrences(s, sep) + 1,
        agent_id::split(s, sep).last() == s.skip(s.len() - tail_len(s, sep)),
        forall|i: int| s.len() - tail_len(s, sep) <= i < s.len() ==> #[trigger] s[i] != sep,
        tail_len(s, sep) < s.len() ==> s[s.len() - tail_len(s, sep) - 1] == sep,
    decreases s.len(),
{
    let g = agent_id::split(s, sep);
    if s.len() == 0 {
        assert(g =~= seq![Seq::<char>::empty()]);
        assert(s.skip(0) =~= Seq::empty());
    } else {
        let r = s.drop_last();
        lemma_tail(r, sep);
        if s.last() == sep {
            assert(s.skip(s.len() as int) =~= Seq::empty());
        } else {
            let n = tail_len(r, sep);
            assert(s.skip(s.len() - (n + 1)) =~= r.skip(r.len() - n).push(s.last()));
            assert forall|i: int| s.len() - (n + 1) <= i < s.len() implies #[trigger] s[i]
                != sep by {
                if i < r.len() {
                    assert(r[i] == s[i]);
                }
            }
        }
    }
}

/// What may become a segment when more characters follow.
spec fn begins_segment(t: Seq<char>) -> bool {
    &&& t.len() <= 63
    &&& t.len() > 0 ==> agent_id::is_alnum(t[0])
    &&& forall|i: int| 0 <= i < t.len() ==> agent_id::is_id_char(#[trigger] t[i])
}

spec fn well_split(s: Seq<char>, sep: char) -> bool {
    let g = agent_id::split(s, sep);
    &&& forall|k: int| 0 <= k < g.len() - 1 ==> agent_id::valid_segment(#[trigger] g[k])
    &&& begins_segment(g.last())
}

proof fn lemma_well_spelt_more(r: Seq<char>, x: char, sep: char)
    requires
        !is_segment_char(sep),
    ensures
        well_spelt(r.push(x), sep) <==> well_spelt(r, sep) && (x == sep ==> tail_len(r, sep) > 0)
            && (x != sep ==> is_segment_char(x) && (tail_len(r, sep) == 0 ==> is_letter_or_digit(x))
            && tail_len(r, sep) < 63),
{
    let s = r.push(x);
    let n = r.len() as int;
    let l = tail_len(r, sep);
    lemma_tail(r, sep);
    if well_spelt(s, sep) {
        assert forall|i: int| 0 <= i < r.len() implies is_segment_char(#[trigger] r[i]) || r[i]
            == sep by {
            assert(s[i] == r[i]);
        }
        assert forall|i: int|
            0 <= i < r.len() && #[trigger] segment_begins(r, sep, i) implies is_letter_or_digit(
            r[i],
        ) by {
            assert(segment_begins(s, sep, i));
        }
        assert forall|i: int| 0 <= i && i + 64 <= r.len() implies (#[trigger] r.subrange(
            i,
            i + 64,
        )).contains(sep) by {
            assert(s.subrange(i, i + 64) =~= r.subrange(i, i + 64));
        }
        assert(s[n] == x);
        if l == 0 {
            assert(segment_begins(s, sep, n));
        }
        if x != sep && l >= 63 {
            let w = s.subrange(n - 63, n - 63 + 64);
            assert(w.contains(sep));
            let k = choose|k: int| 0 <= k < w.len() && w[k] == sep;
            assert(s[n - 63 + k] == sep);
            if k < 63 {
                assert(r[n - 63 + k] == sep);
            }
        }
    }
    if well_spelt(r, sep) && (x == sep ==> l > 0) && (x != sep ==> is_segment_char(x) && (l == 0
        ==> is_letter_or_digit(x)) && l < 63) {
        assert forall|i: int| 0 <= i < s.len() implies is_segment_char(#[trigger] s[i]) || s[i]
            == sep by {
            if i < n {
                assert(r[i] == s[i]);
            }
        }
        assert forall|i: int|
            0 <= i < s.len() && #[trigger] segment_begins(s, sep, i) implies is_letter_or_digit(
            s[i],
        ) by {
            if i < n {
                assert(segment_begins(r, sep, i));
            } else if i > 0 && l > 0 {
                assert(r[n - 1] != sep);
            }
        }
        assert forall|i: int| 0 <= i && i + 64 <= s.len() implies (#[trigger] s.subrange(
            i,
            i + 64,
        )).contains(sep) by {
            if i + 64 <= n {
                assert(s.subrange(i, i + 64) =~= r.subrange(i, i + 64));
            } else {
                let w = s.subrange(i, i + 64);
                if x == sep {
                    assert(w[63] == sep);
                } else {
                    assert(l < n);
                    assert(r[n - l - 1] == sep);
                    assert(w[63 - l - 1] == sep);
                }
            }
        }
    }
}

proof fn lemma_well_split_iff(s: Seq<char>, sep: char)
    requires
        !is_segment_char(sep),
    ensures
        well_split(s, sep) <==> well_spelt(s, sep),
    decreases s.len(),
{
    let g = agent_id::split(s, sep);
    lemma_tail(s, sep);
    if s.len() == 0 {
        assert(g =~= seq![Seq::<char>::empty()]);
    } else {
        let r = s.drop_last();
        let x = s.last();
        let f = agent_id::split(r, sep);
        lemma_tail(r, sep);
        lemma_well_split_iff(r, sep);
        lemma_well_spelt_more(r, x, sep);
        assert(r.push(x) =~= s);
        if x == sep {
            assert(g =~= f.push(Seq::empty()));
            if well_split(s, sep) {
                assert(agent_id::valid_segment(g[f.len() - 1]));
                assert forall|k: int| 0 <= k < f.len() - 1 implies agent_id::valid_segment(
                    #[trigger] f[k],
                ) by {
                    assert(g[k] == f[k]);
                }
            }
            if well_split(r, sep) && tail_len(r, sep) > 0 {
                assert forall|k: int| 0 <= k < g.len() - 1 implies agent_id::valid_segment(
                    #[trigger] g[k],
                ) by {
                    assert(g[k] == f[k]);
                }
            }
        } else {
            let last = f.last().push(x);
            assert(g =~= f.drop_last().push(last));
            assert(forall|k: int| 0 <= k < f.len() - 1 ==> g[k] == f[k]);
            if well_split(s, sep) {
                assert forall|k: int| 0 <= k < f.len() - 1 implies agent_id::valid_segment(
                    #[trigger] f[k],
                ) by {
                    assert(agent_id::valid_segment(g[k]));
                }
                assert forall|i: int| 0 <= i < f.last().len() implies agent_id::is_id_char(
                    #[trigger] f.last()[i],
                ) by {
                    assert(last[i] == f.last()[i]);
                }
                if f.last().len() > 0 {
                    assert(last[0] == f.last()[0]);
                }
                assert(last[f.last().len() as int] == x);
            }
            if well_split(r, sep) && is_segment_char(x) && (tail_len(r, sep) == 0
                ==> is_letter_or_digit(x)) && tail_len(r, sep) < 63 {
                assert forall|k: int| 0 <= k < g.len() - 1 implies agent_id::valid_segment(
                    #[trigger] g[k],
                ) by {
                    assert(agent_id::valid_segment(f[k]));
                }
                assert forall|i: int| 0 <= i < last.len() implies agent_id::is_id_char(
                    #[trigger] last[i],
                ) by {
                    if i < f.last().len() {
                        assert(last[i] == f.last()[i]);
                    }
                }
            }
        }
    }
}

/// A text is an agent id exactly where it does not mix slashes and dots and,
/// with the one that it has for a separator: it is not empty and does not end in
/// the separator; it has no other characters than lower-case letters, digits,
/// underscores, hyphens and the separator; every segment begins with a letter or
/// a digit and has at most 63 characters; and there are at most 16 segments.
pub proof fn lemma_valid_iff(s: Seq<char>)
    ensures
        agent_id::valid_agent_id(s) <==> {
            let sep = if s.contains('/') {
                '/'
            } else {
                '.'
            };
            &&& s.len() > 0
            &&& s.last() != sep
            &&& well_spelt(s, sep)
            &&& occurrences(s, sep) <= 15
        },
{
    let sep = if s.contains('/') {
        '/'
    } else {
        '.'
    };
    let g = agent_id::split(s, sep);
    assert(sep == agent_id::separator(s));
    lemma_tail(s, sep);
    lemma_well_split_iff(s, sep);
    if agent_id::valid_agent_id(s) {
        assert(agent_id::valid_segment(g[g.len() - 1]));
        if s.len() > 0 && s.last() == sep {
            assert(tail_len(s, sep) == 0);
        }
    }
    if s.len() > 0 && s.last() != sep && well_split(s, sep) {
        assert(g.last().len() > 0);
        assert(agent_id::valid_segment(g.last()));
        assert forall|k: int| 0 <= k < g.len() implies agent_id::valid_segment(
            #[trigger] g[k],
        ) by {
            if k == g.len() - 1 {
                assert(g[k] == g.last());
            }
        }
    }
}

/// Parsing gives the id as it was written, and gives one exactly where the text
/// is one.
pub proof fn lemma_parsed(input: &str, r: Result<AgentId, AgentdError>)
    requires
        call_ensures(AgentId::parse, (input,), r),
    ensures
        r is Ok <==> {
            let sep = if input@.contains('/') {
                '/'
            } else {
                '.'
            };
            &&& input@.len() > 0
            &&& input@.last() != sep
            &&& well_spelt(input@, sep)
            &&& occurrences(input@, sep) <= 15
        },
        r is Ok ==> r->Ok_0@ == input@,
        r is Err ==> r->Err_0 is InvalidAgentId,
{
    lemma_valid_iff(input@);
}

/// A segment is accepted exactly where it has between 1 and 63 characters, all
/// of them those of segments, the first a letter or a digit.
pub proof fn lemma_segment(segment: &str, r: Result<(), AgentdError>)
    requires
        call_ensures(agent_id::validate_segment, (segment,), r),
    ensures
        r is Ok <==> {
            &&& 1 <= segment@.len() <= 63
            &&& is_letter_or_digit(segment@[0])
            &&& forall|i: int|
                0 <= i < segment@.len() ==> is_segment_char(#[trigger] segment@[i])
        },
{
    agent_id::lemma_segment_fault(segment@);
    if agent_id::valid_segment(segment@) {
        assert forall|i: int| 0 <= i < segment@.len() implies is_segment_char(
            #[trigger] segment@[i],
        ) by {
            assert(agent_id::is_id_char(segment@[i]));
        }
    }
    if segment@.len() > 0 && forall|i: int|
        0 <= i < segment@.len() ==> is_segment_char(#[trigger] segment@[i]) {
        assert forall|i: int| 0 <= i < segment@.len() implies agent_id::is_id_char(
            #[trigger] segment@[i],
        ) by {
            assert(is_segment_char(segment@[i]));
        }
    }
}

/// A subject is the prefix and the id, character for character, with a dot for
/// every slash.
pub proof fn lemma_subject(id: AgentId, s: String)
    requires
        call_ensures(AgentId::subject, (&id,), s),
    ensures
        s@.len() == 13 + id@.len(),
        s@.take(13) == "agent.events."@,
        forall|i: int|
            0 <= i < id@.len() ==> #[trigger] s@[13 + i] == if id@[i] == '/' {
                '.'
            } else {
                id@[i]
            },
{
    reveal_strlit("agent.events.");
    reveal_strlit("agent.events");
    reveal_strlit(".");
    assert(s@.take(13) =~= "agent.events."@);
    assert forall|i: int| 0 <= i < id@.len() implies #[trigger] s@[13 + i] == if id@[i] == '/' {
        '.'
    } else {
        id@[i]
    } by {
        assert(s@[13 + i] == agent_id::dotted(id@)[i]);
    }
}

/// Two ids are the same exactly where they are written the same; one comes
/// before another as its text does.
pub proof fn lemma_compared(a: AgentId, b: AgentId, same: bool, order: text::Relation)
    requires
        call_ensures(AgentId::same, (&a, &b), same),
        call_ensures(AgentId::relation, (&a, &b), order),
    ensures
        same <==> a@ == b@,
        order is Same <==> a@ == b@,
        order is Before <==> exists|k: int|
            0 <= k <= a@.len() && k < b@.len() && #[trigger] a@.take(k) == b@.take(k) && (k
                == a@.len() || (a@[k] as int) < (b@[k] as int)),
{
    text::laws::lemma_lex_order(a@, b@);
    text::lemma_lex_irreflexive(a@);
    if text::lex_lt(a@, b@) && text::lex_lt(b@, a@) {
        text::lemma_lex_transitive(a@, b@, a@);
    }
}

/// An id that was parsed reads as what it was parsed from, and so does a copy
/// of it.
pub proof fn lemma_reads_as_parsed(input: &str, id: AgentId, copy: AgentId, s: &str)
    requires
        call_ensures(AgentId::parse, (input,), Ok::<AgentId, AgentdError>(id)),
        call_ensures(AgentId::clone, (&id,), copy),
        call_ensures(AgentId::as_str, (&copy,), s),
    ensures
        s@ == input@,
{
}

} // verus!
