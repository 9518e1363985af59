//! Trace contexts in the W3C `traceparent` form, and command spans.
use vstd::prelude::*;
use std::time::{Duration, Instant};
use crate::observability::logging::instant_elapsed;
use crate::text::{
    hex_fixed_spec, lemma_split_concat, lemma_split_single, push_hex_fixed, push_str,
    split_chars, split_spec, str_eq, string_of, views,
};

verus! {

/// Nanoseconds since the Unix epoch (std's `SystemTime::now`), truncated to
/// 64 bits, 0 before the epoch; it depends on the clock.
pub(crate) fn unix_time_nanos() -> (r: u64) {
    let now = crate::clock::system_now();
    match crate::clock::since_epoch(&now) {
        Ok(d) => crate::clock::duration_as_nanos(&d) as u64,
        Err(_) => 0,
    }
}

/// `x` hashed with freshly seeded keys (std's `RandomState`); it depends on
/// chance.
pub(crate) fn random_hash(x: u64) -> (r: u64) {
    let keys = crate::clock::fresh_random_state();
    crate::clock::hash_with(&keys, x)
}

/// A random id word: the clock plus `salt`, hashed with fresh keys.
pub fn random_u64(salt: u64) -> (r: u64) {
    random_hash(unix_time_nanos().wrapping_add(salt))
}

/// The current instant (std's `Instant::now`); it depends on the clock.
#[verifier::external_body]
pub(crate) fn instant_now() -> (r: Instant) {
    Instant::now()
}

/// A trace context.
#[derive(Debug, Clone)]
pub struct TraceContext {
    /// Trace id: 32 hexadecimal digits.
    pub trace_id: String,
    /// Span id: 16 hexadecimal digits.
    pub span_id: String,
    /// Parent span id, if any.
    pub parent_span_id: Option<String>,
    /// Whether the trace is sampled.
    pub sampled: bool,
}

/// Whether `s` consists of lower-case hexadecimal digits.
pub open spec fn is_hex_text(s: Seq<char>) -> bool {
    forall|i: int| 0 <= i < s.len() ==> ('0' <= #[trigger] s[i] <= '9' || 'a' <= s[i] <= 'f')
}

pub(crate) proof fn lemma_hex_fixed(n: nat, w: nat)
    ensures
        hex_fixed_spec(n, w).len() == w,
        is_hex_text(hex_fixed_spec(n, w)),
    decreases w,
{
    if w > 0 {
        lemma_hex_fixed(n / 16, (w - 1) as nat);
    }
}

/// The `traceparent` header of a context.
pub open spec fn traceparent_spec(trace_id: Seq<char>, span_id: Seq<char>, sampled: bool) -> Seq<char> {
    "00-"@ + trace_id + "-"@ + span_id + "-"@ + if sampled {
        "01"@
    } else {
        "00"@
    }
}

/// The (trace id, span id, sampled) that a header carries: four pieces
/// between `-`, the first being "00".
pub open spec fn parse_traceparent_spec(header: Seq<char>) -> Option<(Seq<char>, Seq<char>, bool)> {
    let parts = split_spec(header, '-');
    if parts.len() == 4 && parts[0] == "00"@ {
        Some((parts[1], parts[2], parts[3] == "01"@))
    } else {
        None
    }
}

fn new_span_id() -> (r: String)
    ensures
        r@.len() == 16,
        is_hex_text(r@),
{
    let mut s = String::new();
    let v = random_u64(0);
    push_hex_fixed(&mut s, v, 16);
    proof {
        lemma_hex_fixed(v as nat, 16);
        assert(s@ =~= hex_fixed_spec(v as nat, 16));
    }
    s
}

impl TraceContext {
    /// A sampled root context with fresh random ids.
    pub fn new() -> (r: Self)
        ensures
            r.trace_id@.len() == 32,
            is_hex_text(r.trace_id@),
            r.span_id@.len() == 16,
            is_hex_text(r.span_id@),
            r.parent_span_id is None,
            r.sampled,
    {
        let mut t = String::new();
        let a = random_u64(0);
        let b = random_u64(1);
        push_hex_fixed(&mut t, a, 16);
        push_hex_fixed(&mut t, b, 16);
        proof {
            lemma_hex_fixed(a as nat, 16);
            lemma_hex_fixed(b as nat, 16);
            let ha = hex_fixed_spec(a as nat, 16);
            let hb = hex_fixed_spec(b as nat, 16);
            assert(t@ =~= ha + hb);
            assert forall|i: int| 0 <= i < t@.len() implies ('0' <= #[trigger] t@[i] <= '9' || 'a' <= t@[i] <= 'f') by {
                if i < 16 {
                    assert(t@[i] == ha[i]);
                } else {
                    assert(t@[i] == hb[i - 16]);
                }
            }
        }
        TraceContext { trace_id: t, span_id: new_span_id(), parent_span_id: None, sampled: true }
    }

    /// A child context: same trace and sampling, a fresh span id, and this
    /// span as parent.
    pub fn child(&self) -> (r: Self)
        ensures
            r.trace_id@ == self.trace_id@,
            r.span_id@.len() == 16,
            is_hex_text(r.span_id@),
            r.parent_span_id matches Some(p) && p@ == self.span_id@,
            r.sampled == self.sampled,
    {
        TraceContext {
            trace_id: self.trace_id.clone(),
            span_id: new_span_id(),
            parent_span_id: Some(self.span_id.clone()),
            sampled: self.sampled,
        }
    }

    /// The W3C `traceparent` header: `00-<trace>-<span>-<01|00>`.
    pub fn to_traceparent(&self) -> (r: String)
        ensures
            r@ == traceparent_spec(self.trace_id@, self.span_id@, self.sampled),
    {
        let mut s = string_of("00-");
        push_str(&mut s, self.trace_id.as_str());
        push_str(&mut s, "-");
        push_str(&mut s, self.span_id.as_str());
        push_str(&mut s, "-");
        if self.sampled {
            push_str(&mut s, "01");
        } else {
            push_str(&mut s, "00");
        }
        s
    }

    /// Reads a `traceparent` header (see `parse_traceparent_spec`); the
    /// result has no parent.
    pub fn from_traceparent(header: &str) -> (r: Option<Self>)
        ensures
            match (r, parse_traceparent_spec(header@)) {
                (Some(c), Some((t, s, smp))) => c.trace_id@ == t && c.span_id@ == s && c.sampled == smp
                    && c.parent_span_id is None,
                (None, None) => true,
                _ => false,
            },
    {
        let parts = split_chars(header, '-');
        proof {
            assert(views(parts@).len() == parts@.len());
        }
        if parts.len() != 4 {
            return None;
        }
        proof {
            assert(views(parts@)[0] == parts@[0]@);
            assert(views(parts@)[1] == parts@[1]@);
            assert(views(parts@)[2] == parts@[2]@);
            assert(views(parts@)[3] == parts@[3]@);
        }
        if !str_eq(parts[0].as_str(), "00") {
            return None;
        }
        let sampled = str_eq(parts[3].as_str(), "01");
        Some(TraceContext {
            trace_id: parts[1].clone(),
            span_id: parts[2].clone(),
            parent_span_id: None,
            sampled,
        })
    }
}

/// Reading the header written for a trace id and span id that hold no `-`
/// gives back both ids and the sampling flag.
pub proof fn law_traceparent_round_trip(trace_id: Seq<char>, span_id: Seq<char>, sampled: bool)
    requires
        !trace_id.contains('-'),
        !span_id.contains('-'),
    ensures
        parse_traceparent_spec(traceparent_spec(trace_id, span_id, sampled)) == Some((trace_id, span_id, sampled)),
{
    reveal_strlit("00-");
    reveal_strlit("-");
    reveal_strlit("01");
    reveal_strlit("00");
    let zero = seq!['0', '0'];
    let flag = if sampled {
        seq!['0', '1']
    } else {
        seq!['0', '0']
    };
    assert("00"@ =~= zero);
    assert("01"@ =~= seq!['0', '1']);
    let h = traceparent_spec(trace_id, span_id, sampled);
    assert(h =~= zero + seq!['-'] + (trace_id + seq!['-'] + (span_id + seq!['-'] + flag)));
    lemma_split_concat(zero, trace_id + seq!['-'] + (span_id + seq!['-'] + flag), '-');
    lemma_split_concat(trace_id, span_id + seq!['-'] + flag, '-');
    lemma_split_concat(span_id, flag, '-');
    assert(!zero.contains('-')) by {
        assert(forall|i: int| 0 <= i < zero.len() ==> zero[i] != '-');
    }
    assert(!flag.contains('-')) by {
        assert(forall|i: int| 0 <= i < flag.len() ==> flag[i] != '-');
    }
    lemma_split_single(zero, '-');
    lemma_split_single(trace_id, '-');
    lemma_split_single(span_id, '-');
    lemma_split_single(flag, '-');
    let parts = split_spec(h, '-');
    assert(parts =~= seq![zero, trace_id, span_id, flag]);
    if !sampled {
        assert(flag != seq!['0', '1']) by {
            assert(flag[1] != '1');
        }
    }
}

/// A traced command.
#[derive(Debug)]
pub struct CommandSpan {
    /// Command name.
    pub command: String,
    /// When the span started.
    pub start: Instant,
    /// Trace context.
    pub context: TraceContext,
    /// Attributes, in the order added.
    pub attributes: Vec<(String, String)>,
}

impl CommandSpan {
    /// A span for `command` in a new trace.
    pub fn new(command: &str) -> (r: Self)
        ensures
            r.command@ == command@,
            r.attributes@.len() == 0,
            r.context.parent_span_id is None,
            r.context.sampled,
    {
        CommandSpan {
            command: string_of(command),
            start: instant_now(),
            context: TraceContext::new(),
            attributes: Vec::new(),
        }
    }

    /// A span for `command` under the parent context.
    pub fn with_parent(command: &str, parent: &TraceContext) -> (r: Self)
        ensures
            r.command@ == command@,
            r.attributes@.len() == 0,
            r.context.trace_id@ == parent.trace_id@,
            r.context.parent_span_id matches Some(p) && p@ == parent.span_id@,
    {
        CommandSpan {
            command: string_of(command),
            start: instant_now(),
            context: parent.child(),
            attributes: Vec::new(),
        }
    }

    /// Adds an attribute after the others.
    pub fn add_attribute(&mut self, key: &str, value: &str)
        ensures
            final(self).attributes@.len() == old(self).attributes@.len() + 1,
            forall|i: int| 0 <= i < old(self).attributes@.len() ==> #[trigger] final(self).attributes@[i] == old(self).attributes@[i],
            final(self).attributes@.last().0@ == key@,
            final(self).attributes@.last().1@ == value@,
            final(self).command == old(self).command,
            final(self).context == old(self).context,
            final(self).start == old(self).start,
    {
        self.attributes.push((string_of(key), string_of(value)));
    }

    /// Time since the span started.
    pub fn elapsed(&self) -> (r: Duration) {
        instant_elapsed(&self.start)
    }

    /// Ends the span, giving its duration.
    pub fn finish(self) -> (r: Duration) {
        instant_elapsed(&self.start)
    }
}

} // verus!
