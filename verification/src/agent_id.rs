//! Logical agent identity and the names derived from it.
//!
//! Grammar:
//!
//! ```text
//! agent_id := segment ("/" segment)*
//!           | segment ("." segment)*
//! segment  := [a-z0-9][a-z0-9_-]{0,62}
//! ```
//!
//! The two separators do not mix, and an id has at most 16 segments. On the
//! relay every separator becomes `.`; the ids of one separator therefore map
//! injectively onto subjects.

use vstd::prelude::*;
use vstd::string::*;

use crate::error::AgentdError;
use crate::text;
use crate::text::{append_decimal, chars_of, compare, quote_char, quote_str, same_text, Relation};

pub mod laws;

verus! {

/// Subject prefix every agent's events live under.
pub const SUBJECT_PREFIX: &'static str = "agent.events";

/// Maximum number of segments in one agent id (keeps subjects well within the
/// relay's limits).
pub const MAX_SEGMENTS: usize = 16;

/// Maximum length of one segment, in bytes.
pub const MAX_SEGMENT_LEN: usize = 63;

/// `[a-z0-9]`
pub open spec fn is_alnum(c: char) -> bool {
    ('a' <= c && c <= 'z') || ('0' <= c && c <= '9')
}

/// `[a-z0-9_-]`
pub open spec fn is_id_char(c: char) -> bool {
    is_alnum(c) || c == '_' || c == '-'
}

/// The separator an id is split at: `/` where it occurs, `.` otherwise.
pub open spec fn separator(s: Seq<char>) -> char {
    if s.contains('/') {
        '/'
    } else {
        '.'
    }
}

/// The pieces of `s` between the occurrences of `sep`.
pub open spec fn split(s: Seq<char>, sep: char) -> Seq<Seq<char>>
    decreases s.len(),
{
    if s.len() == 0 {
        seq![Seq::empty()]
    } else {
        let front = split(s.drop_last(), sep);
        if s.last() == sep {
            front.push(Seq::empty())
        } else {
            front.drop_last().push(front.last().push(s.last()))
        }
    }
}

/// One segment of the grammar.
pub open spec fn valid_segment(s: Seq<char>) -> bool {
    &&& 1 <= s.len() <= MAX_SEGMENT_LEN
    &&& is_alnum(s[0])
    &&& forall|i: int| 0 <= i < s.len() ==> is_id_char(#[trigger] s[i])
}

/// The whole grammar.
pub open spec fn valid_agent_id(s: Seq<char>) -> bool {
    let segments = split(s, separator(s));
    &&& segments.len() <= MAX_SEGMENTS
    &&& forall|i: int| 0 <= i < segments.len() ==> valid_segment(#[trigger] segments[i])
}

/// The first character of `s` after its first one that no segment may hold.
pub open spec fn first_bad_char(s: Seq<char>, from: int) -> Option<char>
    decreases s.len() - from,
{
    if from < 0 || from >= s.len() {
        None
    } else if !is_id_char(s[from]) {
        Some(s[from])
    } else {
        first_bad_char(s, from + 1)
    }
}

/// Why `s` is no segment, if it is none.
pub open spec fn segment_fault(s: Seq<char>) -> Option<Seq<char>> {
    if s.len() == 0 {
        Some("empty segment"@)
    } else if !is_alnum(s[0]) {
        Some("segment "@ + text::debug_str(s) + ": first character must be [a-z0-9]"@)
    } else if vstd::utf8::encode_utf8(s).len() > MAX_SEGMENT_LEN {
        Some(
            "segment "@ + text::debug_str(s) + ": length "@ + text::decimal(vstd::utf8::encode_utf8(s).len()) + " > "@
                + text::decimal(MAX_SEGMENT_LEN as nat),
        )
    } else {
        match first_bad_char(s, 1) {
            Some(c) => Some(
                "segment "@ + text::debug_str(s) + ": character "@ + text::debug_char(c) + " not allowed"@,
            ),
            None => None,
        }
    }
}

/// The fault of the first faulty segment at or after position `from`.
pub open spec fn first_fault(segments: Seq<Seq<char>>, from: int) -> Option<Seq<char>>
    decreases segments.len() - from,
{
    if from < 0 || from >= segments.len() {
        None
    } else {
        match segment_fault(segments[from]) {
            Some(m) => Some(m),
            None => first_fault(segments, from + 1),
        }
    }
}

/// Why `s` is no agent id, if it is none.
pub open spec fn agent_id_fault(s: Seq<char>) -> Option<Seq<char>> {
    let segments = split(s, separator(s));
    if segments.len() > MAX_SEGMENTS {
        Some(
            "too many segments ("@ + text::decimal(segments.len()) + " > "@ + text::decimal(
                MAX_SEGMENTS as nat,
            ) + ")"@,
        )
    } else {
        first_fault(segments, 0)
    }
}

/// `s` with every `/` turned into `.`.
pub open spec fn dotted(s: Seq<char>) -> Seq<char> {
    s.map_values(
        |c: char|
            if c == '/' {
                '.'
            } else {
                c
            },
    )
}

/// The subject that an agent's events are published to.
pub open spec fn subject_of(s: Seq<char>) -> Seq<char> {
    SUBJECT_PREFIX@ + "."@ + dotted(s)
}

proof fn lemma_split_nonempty(s: Seq<char>, sep: char)
    ensures
        split(s, sep).len() >= 1,
    decreases s.len(),
{
    if s.len() > 0 {
        lemma_split_nonempty(s.drop_last(), sep);
    }
}

/// Characters of the grammar take one byte each.
proof fn lemma_ascii_length(s: Seq<char>)
    requires
        forall|i: int| 0 <= i < s.len() ==> is_id_char(#[trigger] s[i]),
    ensures
        vstd::utf8::encode_utf8(s).len() == s.len(),
{
    assert(vstd::utf8::is_ascii_chars(s)) by {
        assert forall|i: int| 0 <= i < s.len() implies 0 <= #[trigger] s[i] < 128 by {
            assert(is_id_char(s[i]));
        }
    }
    vstd::utf8::is_ascii_chars_encode_utf8(s);
}

proof fn lemma_first_bad_char(s: Seq<char>, from: int)
    requires
        0 <= from,
    ensures
        (first_bad_char(s, from) is None) == (forall|i: int|
            from <= i < s.len() ==> is_id_char(#[trigger] s[i])),
    decreases s.len() - from,
{
    if from < s.len() {
        lemma_first_bad_char(s, from + 1);
        if is_id_char(s[from]) && first_bad_char(s, from + 1) is None {
            assert forall|i: int| from <= i < s.len() implies is_id_char(#[trigger] s[i]) by {
                if i > from {
                    assert(is_id_char(s[i]));
                }
            }
        }
    }
}

/// A segment without a fault is a segment of the grammar, and no other is.
pub proof fn lemma_segment_fault(s: Seq<char>)
    ensures
        (segment_fault(s) is None) == valid_segment(s),
{
    lemma_first_bad_char(s, 1);
    if valid_segment(s) {
        lemma_ascii_length(s);
    }
    if segment_fault(s) is None {
        assert forall|i: int| 0 <= i < s.len() implies is_id_char(#[trigger] s[i]) by {
            if i > 0 {
                assert(is_id_char(s[i]));
            }
        }
        lemma_ascii_length(s);
    }
}

proof fn lemma_first_fault(segments: Seq<Seq<char>>, from: int)
    requires
        0 <= from,
    ensures
        (first_fault(segments, from) is None) == (forall|i: int|
            from <= i < segments.len() ==> valid_segment(#[trigger] segments[i])),
    decreases segments.len() - from,
{
    if from < segments.len() {
        lemma_segment_fault(segments[from]);
        lemma_first_fault(segments, from + 1);
        if first_fault(segments, from) is None {
            assert forall|i: int| from <= i < segments.len() implies valid_segment(
                #[trigger] segments[i],
            ) by {
                if i > from {
                    assert(valid_segment(segments[i]));
                }
            }
        }
    }
}

/// The grammar and the reported faults agree: an id is rejected exactly where
/// the grammar does not produce it.
pub proof fn lemma_agent_id_fault(s: Seq<char>)
    ensures
        (agent_id_fault(s) is None) == valid_agent_id(s),
{
    lemma_first_fault(split(s, separator(s)), 0);
}

fn contains(v: &Vec<char>, c: char) -> (r: bool)
    ensures
        r == v@.contains(c),
{
    for i in 0..v.len()
        invariant
            forall|j: int| 0 <= j < i ==> v@[j] != c,
    {
        if v[i] == c {
            return true;
        }
    }
    false
}

/// The pieces of `v` between the separators, in order.
fn pieces(v: &Vec<char>, sep: char) -> (r: Vec<String>)
    ensures
        r@.map_values(|s: String| s@) == split(v@, sep),
{
    let mut done: Vec<String> = Vec::new();
    let mut current = String::new();
    assert(v@.take(0) =~= Seq::<char>::empty());
    assert(done@.map_values(|s: String| s@).push(current@) =~= split(v@.take(0), sep));
    for i in 0..v.len()
        invariant
            done@.map_values(|s: String| s@).push(current@) == split(v@.take(i as int), sep),
    {
        let ghost before = done@.map_values(|s: String| s@);
        let c = v[i];
        assert(v@.take(i + 1).drop_last() =~= v@.take(i as int));
        if c == sep {
            done.push(current);
            assert(done@.map_values(|s: String| s@) =~= before.push(done@.last()@));
            current = String::new();
        } else {
            let ghost was = current@;
            current.push(c);
            assert(before.push(was).drop_last() =~= before);
        }
    }
    assert(v@.take(v@.len() as int) =~= v@);
    let ghost before = done@.map_values(|s: String| s@);
    done.push(current);
    assert(done@.map_values(|s: String| s@) =~= before.push(done@.last()@));
    done
}

fn alnum(c: char) -> (r: bool)
    ensures
        r == is_alnum(c),
{
    ('a' <= c && c <= 'z') || ('0' <= c && c <= '9')
}

/// Checks one segment against the grammar.
pub fn validate_segment(segment: &str) -> (r: Result<(), AgentdError>)
    ensures
        match r {
            Ok(_) => segment_fault(segment@) is None,
            Err(e) => e matches AgentdError::InvalidAgentId(m) && segment_fault(segment@) == Some(
                m@,
            ),
        },
{
    let v = chars_of(segment);
    if v.len() == 0 {
        return Err(AgentdError::invalid_agent_id("empty segment".to_owned()));
    }
    if !alnum(v[0]) {
        let mut m = "segment ".to_owned();
        m.append(quote_str(segment).as_str());
        m.append(": first character must be [a-z0-9]");
        return Err(AgentdError::invalid_agent_id(m));
    }
    let len: usize = segment.as_bytes().len();
    if len > MAX_SEGMENT_LEN {
        let mut m = "segment ".to_owned();
        m.append(quote_str(segment).as_str());
        m.append(": length ");
        append_decimal(&mut m, len as u64);
        m.append(" > ");
        append_decimal(&mut m, MAX_SEGMENT_LEN as u64);
        return Err(AgentdError::invalid_agent_id(m));
    }
    for i in 1..v.len()
        invariant
            v@ == segment@,
            v@.len() >= 1,
            is_alnum(segment@[0]),
            vstd::utf8::encode_utf8(segment@).len() <= MAX_SEGMENT_LEN,
            first_bad_char(segment@, 1) == first_bad_char(segment@, i as int),
    {
        let c = v[i];
        if !(alnum(c) || c == '_' || c == '-') {
            let mut m = "segment ".to_owned();
            m.append(quote_str(segment).as_str());
            m.append(": character ");
            m.append(quote_char(c).as_str());
            m.append(" not allowed");
            return Err(AgentdError::invalid_agent_id(m));
        }
    }
    Ok(())
}

/// A validated agent id, e.g. `coding.main`.
#[derive(Debug, PartialEq, Eq, Hash, PartialOrd, Ord)]
pub struct AgentId {
    raw: String,
}

impl View for AgentId {
    type V = Seq<char>;

    closed spec fn view(&self) -> Seq<char> {
        self.raw@
    }
}

impl Clone for AgentId {
    fn clone(&self) -> (r: AgentId)
        ensures
            r == *self,
    {
        proof {
            use_type_invariant(self);
        }
        AgentId { raw: self.raw.clone() }
    }
}

impl AgentId {
    /// Only ids of the grammar exist.
    #[verifier::type_invariant]
    pub closed spec fn well_formed(self) -> bool {
        valid_agent_id(self.raw@)
    }

    /// Parses and validates an agent id.
    pub fn parse(input: &str) -> (r: Result<AgentId, AgentdError>)
        ensures
            r is Ok <==> valid_agent_id(input@),
            match r {
                Ok(id) => id@ == input@,
                Err(e) => e matches AgentdError::InvalidAgentId(m) && agent_id_fault(input@)
                    == Some(m@),
            },
    {
        proof {
            lemma_agent_id_fault(input@);
        }
        let v = chars_of(input);
        let sep = if contains(&v, '/') {
            '/'
        } else {
            '.'
        };
        let segments = pieces(&v, sep);
        let ghost texts = segments@.map_values(|s: String| s@);
        assert(texts == split(input@, separator(input@)));
        if segments.len() > MAX_SEGMENTS {
            let mut m = "too many segments (".to_owned();
            append_decimal(&mut m, segments.len() as u64);
            m.append(" > ");
            append_decimal(&mut m, MAX_SEGMENTS as u64);
            m.append(")");
            return Err(AgentdError::invalid_agent_id(m));
        }
        for i in 0..segments.len()
            invariant
                texts == segments@.map_values(|s: String| s@),
                texts == split(input@, separator(input@)),
                texts.len() <= MAX_SEGMENTS,
                first_fault(texts, 0) == first_fault(texts, i as int),
                (agent_id_fault(input@) is None) == valid_agent_id(input@),
        {
            assert(texts[i as int] == segments@[i as int]@);
            match validate_segment(segments[i].as_str()) {
                Ok(_) => {},
                Err(e) => {
                    return Err(e);
                },
            }
        }
        Ok(AgentId { raw: input.to_owned() })
    }

    /// The canonical form as given at parse time.
    pub fn as_str(&self) -> (s: &str)
        ensures
            s@ == self@,
            valid_agent_id(s@),
    {
        proof {
            use_type_invariant(self);
        }
        self.raw.as_str()
    }

    /// The canonical form as an owned string.
    pub fn to_string(&self) -> (s: String)
        ensures
            s@ == self@,
    {
        self.raw.clone()
    }

    /// The relay's filter subject for this agent, e.g. `agent.events.coding.main`.
    pub fn subject(&self) -> (s: String)
        ensures
            s@ == subject_of(self@),
    {
        let v = chars_of(self.raw.as_str());
        let mut s = SUBJECT_PREFIX.to_owned();
        s.append(".");
        let ghost head = s@;
        for i in 0..v.len()
            invariant
                v@ == self@,
                head == SUBJECT_PREFIX@ + "."@,
                s@ == head + dotted(self@).take(i as int),
        {
            let c = if v[i] == '/' {
                '.'
            } else {
                v[i]
            };
            s.push(c);
            assert(dotted(self@).take(i + 1) =~= dotted(self@).take(i as int).push(
                dotted(self@)[i as int],
            ));
        }
        assert(dotted(self@).take(v@.len() as int) =~= dotted(self@));
        s
    }

    /// Whether two ids are the same.
    pub fn same(&self, other: &AgentId) -> (r: bool)
        ensures
            r == (self@ == other@),
    {
        same_text(self.raw.as_str(), other.raw.as_str())
    }

    /// How two ids compare in the order that listings use.
    pub fn relation(&self, other: &AgentId) -> (r: Relation)
        ensures
            match r {
                Relation::Before => text::lex_lt(self@, other@),
                Relation::Same => self@ == other@,
                Relation::After => text::lex_lt(other@, self@),
            },
    {
        compare(self.raw.as_str(), other.raw.as_str())
    }
}

// ---------------------------------------------------------------------------
// Laws
// ---------------------------------------------------------------------------

proof fn lemma_split_chars(s: Seq<char>, sep: char, i: int) -> (k: int)
    requires
        0 <= i < s.len(),
        s[i] != sep,
    ensures
        0 <= k < split(s, sep).len(),
        split(s, sep)[k].contains(s[i]),
    decreases s.len(),
{
    let rest = s.drop_last();
    let front = split(rest, sep);
    lemma_split_nonempty(rest, sep);
    if i == s.len() - 1 {
        let last = front.last().push(s.last());
        assert(last[last.len() - 1] == s[i]);
        front.len() - 1
    } else {
        assert(rest[i] == s[i]);
        let k = lemma_split_chars(rest, sep, i);
        if s.last() != sep && k == front.len() - 1 {
            let j = choose|j: int| 0 <= j < front[k].len() && front[k][j] == s[i];
            assert(front[k].push(s.last())[j] == s[i]);
        }
        k
    }
}

/// An agent id holds the characters of its segments and its separator, and
/// nothing else.
pub proof fn lemma_id_chars(s: Seq<char>, i: int)
    requires
        valid_agent_id(s),
        0 <= i < s.len(),
    ensures
        is_id_char(s[i]) || s[i] == separator(s),
{
    if s[i] != separator(s) {
        let segments = split(s, separator(s));
        let k = lemma_split_chars(s, separator(s), i);
        assert(valid_segment(segments[k]));
        let j = choose|j: int| 0 <= j < segments[k].len() && segments[k][j] == s[i];
        assert(is_id_char(segments[k][j]));
    }
}

/// The separators do not mix in one agent id.
pub proof fn lemma_separators_do_not_mix(s: Seq<char>)
    requires
        valid_agent_id(s),
    ensures
        !(s.contains('/') && s.contains('.')),
{
    if s.contains('/') && s.contains('.') {
        let i = choose|i: int| 0 <= i < s.len() && s[i] == '.';
        lemma_id_chars(s, i);
    }
}

/// No agent id is empty.
pub proof fn lemma_id_nonempty(s: Seq<char>)
    requires
        valid_agent_id(s),
    ensures
        s.len() > 0,
{
    if s.len() == 0 {
        assert(split(s, separator(s)) =~= seq![Seq::<char>::empty()]);
        assert(valid_segment(split(s, separator(s))[0]));
    }
}

/// Different agent ids have different subjects, as long as one is not written
/// with slashes where the other has dots.
pub proof fn lemma_subject_injective(a: Seq<char>, b: Seq<char>)
    requires
        valid_agent_id(a),
        valid_agent_id(b),
        !(a.contains('/') && b.contains('.')),
        !(a.contains('.') && b.contains('/')),
        subject_of(a) == subject_of(b),
    ensures
        a == b,
{
    let head = SUBJECT_PREFIX@ + "."@;
    assert(dotted(a) =~= subject_of(a).skip(head.len() as int));
    assert(dotted(b) =~= subject_of(b).skip(head.len() as int));
    assert forall|i: int| 0 <= i < a.len() implies a[i] == b[i] by {
        assert(dotted(a)[i] == dotted(b)[i]);
        assert(a.contains(a[i]) && b.contains(b[i]));
    }
    assert(a.len() == dotted(a).len() && b.len() == dotted(b).len());
    assert(a =~= b);
}

/// A dotted agent id is its own subject below the prefix.
pub proof fn lemma_dotted_subject(a: Seq<char>)
    requires
        valid_agent_id(a),
        !a.contains('/'),
    ensures
        subject_of(a) == SUBJECT_PREFIX@ + "."@ + a,
{
    assert forall|i: int| 0 <= i < a.len() implies dotted(a)[i] == a[i] by {
        assert(a.contains(a[i]));
    }
    assert(dotted(a) =~= a);
}

/// What follows the prefix in a subject has no slash, no wildcard and no blank:
/// it is made of the characters of the segments and of dots.
pub proof fn lemma_subject_chars(a: Seq<char>, i: int)
    requires
        valid_agent_id(a),
        0 <= i < dotted(a).len(),
    ensures
        is_id_char(dotted(a)[i]) || dotted(a)[i] == '.',
{
    lemma_id_chars(a, i);
}

} // verus!
