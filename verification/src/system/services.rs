//! Mapping of probe outcomes to service states, and the reading of an HTTP
//! status line.
use vstd::prelude::*;
use crate::system::model::ServiceStatus;
use crate::text::{utf8_text, chars_of, is_whitespace, char_is_whitespace, parse_u64, parse_u64_spec, starts_with, chars_start_with};

verus! {

/// What a service probe observed.
#[derive(Debug, Clone, Copy, PartialEq, Eq, Structural)]
pub enum ProbeOutcome {
    Reachable,
    Unreachable,
    Missing,
    TimedOut,
    InvalidResponse,
    Failed,
}

pub open spec fn status_spec(outcome: ProbeOutcome) -> ServiceStatus {
    match outcome {
        ProbeOutcome::Reachable => ServiceStatus::Running,
        ProbeOutcome::Unreachable | ProbeOutcome::TimedOut => ServiceStatus::Stopped,
        ProbeOutcome::Missing => ServiceStatus::Unavailable,
        ProbeOutcome::InvalidResponse | ProbeOutcome::Failed => ServiceStatus::Unknown,
    }
}

/// A reachable service runs; an unreachable or silent one is stopped; a
/// missing one is unavailable; anything else is unknown.
pub fn status_from_probe(outcome: ProbeOutcome) -> (r: ServiceStatus)
    ensures
        r == status_spec(outcome),
{
    match outcome {
        ProbeOutcome::Reachable => ServiceStatus::Running,
        ProbeOutcome::Unreachable | ProbeOutcome::TimedOut => ServiceStatus::Stopped,
        ProbeOutcome::Missing => ServiceStatus::Unavailable,
        ProbeOutcome::InvalidResponse | ProbeOutcome::Failed => ServiceStatus::Unknown,
    }
}

/// An unreachable Ollama without its executable is unavailable, not stopped.
pub fn ollama_status_from_probe(outcome: ProbeOutcome, executable_available: bool) -> (r: ServiceStatus)
    ensures
        r == if (outcome == ProbeOutcome::Unreachable || outcome == ProbeOutcome::TimedOut)
            && !executable_available {
            ServiceStatus::Unavailable
        } else {
            status_spec(outcome)
        },
{
    if (outcome == ProbeOutcome::Unreachable || outcome == ProbeOutcome::TimedOut)
        && !executable_available {
        ServiceStatus::Unavailable
    } else {
        status_from_probe(outcome)
    }
}

/// The bytes before the first line feed.
pub open spec fn first_line(bytes: Seq<u8>) -> Seq<u8>
    decreases bytes.len(),
{
    if bytes.len() == 0 {
        Seq::empty()
    } else if bytes[0] == 10u8 {
        Seq::empty()
    } else {
        seq![bytes[0]] + first_line(bytes.drop_first())
    }
}

/// How many whitespace characters lead the text.
pub open spec fn leading_space(s: Seq<char>) -> nat
    decreases s.len(),
{
    if s.len() > 0 && is_whitespace(s[0]) {
        1 + leading_space(s.drop_first())
    } else {
        0
    }
}

/// How many non-whitespace characters lead the text.
pub open spec fn leading_word(s: Seq<char>) -> nat
    decreases s.len(),
{
    if s.len() > 0 && !is_whitespace(s[0]) {
        1 + leading_word(s.drop_first())
    } else {
        0
    }
}

/// The first whitespace-separated word and what follows it.
pub open spec fn split_word(s: Seq<char>) -> (Seq<char>, Seq<char>) {
    let t = s.skip(leading_space(s) as int);
    let n = leading_word(t);
    (t.take(n as int), t.skip(n as int))
}

/// The outcome of an HTTP status line: reachable only for an HTTP protocol
/// token followed by the status 200.
pub open spec fn http_outcome(line: Seq<char>) -> ProbeOutcome {
    let (protocol, rest) = split_word(line);
    let (status, _) = split_word(rest);
    if protocol.len() > 0 && starts_with(protocol, "HTTP/"@) && status.len() > 0 && parse_u64_spec(status)
        == Some(200u64) {
        ProbeOutcome::Reachable
    } else {
        ProbeOutcome::InvalidResponse
    }
}

fn first_line_of(bytes: &[u8]) -> (r: Vec<u8>)
    ensures
        r@ == first_line(bytes@),
{
    let mut k: usize = 0;
    while k < bytes.len() && bytes[k] != 10u8
        invariant
            k <= bytes@.len(),
            forall|j: int| 0 <= j < k ==> bytes@[j] != 10u8,
        decreases bytes@.len() - k,
    {
        k = k + 1;
    }
    let mut r: Vec<u8> = Vec::new();
    let mut i: usize = 0;
    while i < k
        invariant
            i <= k <= bytes@.len(),
            r@ == bytes@.take(i as int),
        decreases k - i,
    {
        r.push(bytes[i]);
        i = i + 1;
        assert(r@ =~= bytes@.take(i as int));
    }
    proof {
        lemma_first_line(bytes@, k as int);
    }
    r
}

proof fn lemma_first_line(b: Seq<u8>, k: int)
    requires
        0 <= k <= b.len(),
        forall|j: int| 0 <= j < k ==> b[j] != 10u8,
        k == b.len() || b[k] == 10u8,
    ensures
        first_line(b) == b.take(k),
    decreases k,
{
    if k == 0 {
        assert(b.take(0) =~= Seq::<u8>::empty());
    } else {
        lemma_first_line(b.drop_first(), k - 1);
        assert(b.take(k) =~= seq![b[0]] + b.drop_first().take(k - 1));
    }
}

proof fn lemma_leading_space(s: Seq<char>, i: int)
    requires
        0 <= i <= s.len(),
        forall|j: int| 0 <= j < i ==> is_whitespace(#[trigger] s[j]),
        i == s.len() || !is_whitespace(s[i]),
    ensures
        leading_space(s) == i,
    decreases i,
{
    if i > 0 {
        lemma_leading_space(s.drop_first(), i - 1);
    }
}

proof fn lemma_leading_word(s: Seq<char>, i: int)
    requires
        0 <= i <= s.len(),
        forall|j: int| 0 <= j < i ==> !is_whitespace(#[trigger] s[j]),
        i == s.len() || is_whitespace(s[i]),
    ensures
        leading_word(s) == i,
    decreases i,
{
    if i > 0 {
        lemma_leading_word(s.drop_first(), i - 1);
    }
}

/// The bounds of the first word of `s[from..]`: where it starts and ends.
fn word_bounds(s: &Vec<char>, from: usize) -> (r: (usize, usize))
    requires
        from <= s@.len(),
    ensures
        from <= r.0 <= r.1 <= s@.len(),
        split_word(s@.skip(from as int)).0 == s@.subrange(r.0 as int, r.1 as int),
        split_word(s@.skip(from as int)).1 == s@.skip(r.1 as int),
{
    let mut a: usize = from;
    while a < s.len() && char_is_whitespace(s[a])
        invariant
            from <= a <= s@.len(),
            forall|j: int| from <= j < a ==> is_whitespace(#[trigger] s@[j]),
        decreases s@.len() - a,
    {
        a = a + 1;
    }
    let mut b: usize = a;
    while b < s.len() && !char_is_whitespace(s[b])
        invariant
            a <= b <= s@.len(),
            forall|j: int| a <= j < b ==> !is_whitespace(#[trigger] s@[j]),
        decreases s@.len() - b,
    {
        b = b + 1;
    }
    proof {
        let t = s@.skip(from as int);
        lemma_leading_space(t, a - from);
        let u = t.skip(a - from);
        assert(u =~= s@.skip(a as int));
        lemma_leading_word(u, b - a);
        assert(u.take(b - a) =~= s@.subrange(a as int, b as int));
        assert(u.skip(b - a) =~= s@.skip(b as int));
    }
    (a, b)
}

/// Reads the status line of an HTTP response: reachable only for status 200
/// of an HTTP protocol; invalid for anything else, invalid UTF-8 included.
pub fn parse_http_status(response: &[u8]) -> (r: ProbeOutcome)
    ensures
        r == if vstd::utf8::valid_utf8(first_line(response@)) {
            http_outcome(vstd::utf8::decode_utf8(first_line(response@)))
        } else {
            ProbeOutcome::InvalidResponse
        },
{
    let line = first_line_of(response);
    let text = match utf8_text(line.as_slice()) {
        Ok(t) => t,
        Err(_) => {
            return ProbeOutcome::InvalidResponse;
        },
    };
    let chars = chars_of(text);
    let (p0, p1) = word_bounds(&chars, 0);
    let (s0, s1) = word_bounds(&chars, p1);
    proof {
        assert(chars@.skip(0) =~= chars@);
    }
    let mut protocol: Vec<char> = Vec::new();
    let mut i: usize = p0;
    while i < p1
        invariant
            p0 <= i <= p1 <= chars@.len(),
            protocol@ == chars@.subrange(p0 as int, i as int),
        decreases p1 - i,
    {
        protocol.push(chars[i]);
        i = i + 1;
        assert(protocol@ =~= chars@.subrange(p0 as int, i as int));
    }
    let mut status: Vec<char> = Vec::new();
    let mut i: usize = s0;
    while i < s1
        invariant
            s0 <= i <= s1 <= chars@.len(),
            status@ == chars@.subrange(s0 as int, i as int),
        decreases s1 - i,
    {
        status.push(chars[i]);
        i = i + 1;
        assert(status@ =~= chars@.subrange(s0 as int, i as int));
    }
    let http: Vec<char> = chars_of("HTTP/");
    proof {
        reveal_strlit("HTTP/");
    }
    if protocol.len() > 0 && chars_start_with(&protocol, &http) && status.len() > 0 {
        match parse_u64(&status) {
            Some(v) => {
                if v == 200 {
                    return ProbeOutcome::Reachable;
                }
            },
            None => {},
        }
    }
    ProbeOutcome::InvalidResponse
}

/// A command probe that exited successfully reached the service; any other
/// exit did not.
pub fn command_status_outcome(success: bool) -> (r: ProbeOutcome)
    ensures
        r == if success {
            ProbeOutcome::Reachable
        } else {
            ProbeOutcome::Unreachable
        },
{
    if success {
        ProbeOutcome::Reachable
    } else {
        ProbeOutcome::Unreachable
    }
}

} // verus!
