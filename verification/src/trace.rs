//! W3C Trace Context propagation via MQTT v5 User Properties.
//!
//! Format: `00-{trace_id}-{span_id}-{flags}`
//! See: <https://www.w3.org/TR/trace-context/>
use vstd::prelude::*;

use crate::codec::properties::{
    user_pairs, Entry, Properties, PropertyId, PropertyValue, PropertyValueView,
};
use crate::codec::types::{clone_text, text_view};
use crate::text::{chars_of, digit, hex, hex_byte, push_hex, push_hex_byte, same_text};

verus! {

const TRACEPARENT_KEY: &'static str = "traceparent";

const TRACESTATE_KEY: &'static str = "tracestate";

#[derive(Debug, PartialEq, Eq)]
pub struct TraceContext {
    pub trace_id: [u8; 16],
    pub span_id: [u8; 8],
    pub trace_flags: u8,
    pub tracestate: Option<String>,
}

/// What a [`TraceContext`] holds.
#[verifier::ext_equal]
pub struct TraceContextView {
    pub trace_id: Seq<u8>,
    pub span_id: Seq<u8>,
    pub trace_flags: u8,
    pub tracestate: Option<Seq<char>>,
}

impl View for TraceContext {
    type V = TraceContextView;

    open spec fn view(&self) -> TraceContextView {
        TraceContextView {
            trace_id: self.trace_id@,
            span_id: self.span_id@,
            trace_flags: self.trace_flags,
            tracestate: text_view(self.tracestate),
        }
    }
}

impl Clone for TraceContext {
    fn clone(&self) -> (r: Self)
        ensures
            r@ == self@,
    {
        TraceContext {
            trace_id: self.trace_id,
            span_id: self.span_id,
            trace_flags: self.trace_flags,
            tracestate: clone_text(&self.tracestate),
        }
    }
}

/// Whether an identifier holds zero bytes only.
pub open spec fn all_zero(id: Seq<u8>) -> bool {
    forall|i: int| 0 <= i < id.len() ==> id[i] == 0
}

/// The value of a hexadecimal digit, in either case.
pub open spec fn nibble(c: char) -> Option<int> {
    if '0' <= c <= '9' {
        Some(c as int - '0' as int)
    } else if 'a' <= c <= 'f' {
        Some(c as int - 'a' as int + 10)
    } else if 'A' <= c <= 'F' {
        Some(c as int - 'A' as int + 10)
    } else {
        None
    }
}

/// Whether the characters from `from` to `to` are hexadecimal digits.
pub open spec fn all_hex(s: Seq<char>, from: int, to: int) -> bool {
    forall|i: int| from <= i < to ==> nibble(#[trigger] s[i]) is Some
}

/// The bytes that the `2 * n` hexadecimal digits at `from` stand for.
pub open spec fn unhex(s: Seq<char>, from: int, n: nat) -> Seq<u8> {
    Seq::new(
        n,
        |i: int|
            (nibble(s[from + 2 * i])->Some_0 * 16 + nibble(s[from + 2 * i + 1])->Some_0) as u8,
    )
}

/// The identifiers and flags in a `traceparent` value of version 00, if it is one:
/// `00-{32 hex}-{16 hex}-{2 hex}`.
pub open spec fn traceparent_fields(s: Seq<char>) -> Option<(Seq<u8>, Seq<u8>, u8)> {
    if s.len() == 55 && s[0] == '0' && s[1] == '0' && s[2] == '-' && all_hex(s, 3, 35) && s[35]
        == '-' && all_hex(s, 36, 52) && s[52] == '-' && all_hex(s, 53, 55) {
        Some((unhex(s, 3, 16), unhex(s, 36, 8), unhex(s, 53, 1)[0]))
    } else {
        None
    }
}

/// The trace context with this `traceparent` value, if it is well-formed.
pub open spec fn parsed(traceparent: Seq<char>, tracestate: Option<Seq<char>>) -> Option<
    TraceContextView,
> {
    match traceparent_fields(traceparent) {
        Some((trace_id, span_id, trace_flags)) => Some(
            TraceContextView { trace_id, span_id, trace_flags, tracestate },
        ),
        None => None,
    }
}

/// The value of the last user property with this key.
pub open spec fn last_value(pairs: Seq<(Seq<char>, Seq<char>)>, key: Seq<char>) -> Option<Seq<char>>
    decreases pairs.len(),
{
    if pairs.len() == 0 {
        None
    } else if pairs.last().0 == key {
        Some(pairs.last().1)
    } else {
        last_value(pairs.drop_last(), key)
    }
}

/// The trace context that a message with these properties carries.
pub open spec fn carried(properties: Seq<Entry>) -> Option<TraceContextView> {
    match last_value(user_pairs(properties), "traceparent"@) {
        Some(traceparent) => parsed(
            traceparent,
            last_value(user_pairs(properties), "tracestate"@),
        ),
        None => None,
    }
}

impl TraceContextView {
    /// The context's `traceparent` value.
    pub open spec fn traceparent(self) -> Seq<char> {
        seq!['0', '0', '-'] + hex(self.trace_id) + seq!['-'] + hex(self.span_id) + seq!['-']
            + hex_byte(self.trace_flags)
    }

    /// The properties with the context added.
    pub open spec fn injected(self, properties: Seq<Entry>) -> Seq<Entry> {
        let with_parent = properties.push(
            (
                PropertyId::UserProperty,
                PropertyValueView::StringPair("traceparent"@, self.traceparent()),
            ),
        );
        match self.tracestate {
            Some(state) => with_parent.push(
                (
                    PropertyId::UserProperty,
                    PropertyValueView::StringPair("tracestate"@, state),
                ),
            ),
            None => with_parent,
        }
    }
}

fn is_all_zero(id: &[u8]) -> (r: bool)
    ensures
        r == all_zero(id@),
{
    let mut i: usize = 0;
    while i < id.len()
        invariant
            i <= id.len(),
            forall|j: int| 0 <= j < i ==> id@[j] == 0,
        decreases id.len() - i,
    {
        if id[i] != 0 {
            return false;
        }
        i += 1;
    }
    true
}

impl TraceContext {
    /// Create a new root trace context from caller-provided random bytes, or `None` for
    /// an all-zero trace or span identifier.
    /// The caller is responsible for providing randomness (avoids pulling in a
    /// random number generator dependency).
    pub fn new_root(trace_id: [u8; 16], span_id: [u8; 8]) -> (r: Option<Self>)
        ensures
            if all_zero(trace_id@) || all_zero(span_id@) {
                r is None
            } else {
                r matches Some(ctx) && ctx@ == (TraceContextView {
                    trace_id: trace_id@,
                    span_id: span_id@,
                    trace_flags: 1,
                    tracestate: None,
                })
            },
    {
        if is_all_zero(&trace_id) || is_all_zero(&span_id) {
            return None;
        }
        Some(
            Self {
                trace_id,
                span_id,
                trace_flags: 0x01,  // sampled
                tracestate: None,
            },
        )
    }

    /// Create a child span under this trace (new span_id, same trace_id), or `None` for
    /// an all-zero trace or span identifier.
    pub fn child(&self, span_id: [u8; 8]) -> (r: Option<Self>)
        ensures
            if all_zero(self@.trace_id) || all_zero(span_id@) {
                r is None
            } else {
                r matches Some(ctx) && ctx@ == (TraceContextView { span_id: span_id@, ..self@ })
            },
    {
        if is_all_zero(&self.trace_id) || is_all_zero(&span_id) {
            return None;
        }
        Some(
            Self {
                trace_id: self.trace_id,
                span_id,
                trace_flags: self.trace_flags,
                tracestate: clone_text(&self.tracestate),
            },
        )
    }

    /// Extract trace context from MQTT v5 User Properties on a received message.
    pub fn from_properties(props: &Properties) -> (r: Option<Self>)
        ensures
            match carried(props@) {
                Some(view) => r matches Some(ctx) && ctx@ == view,
                None => r is None,
            },
    {
        let pairs = props.user_properties();
        let ghost all = user_pairs(props@);
        let mut traceparent: Option<&str> = None;
        let mut tracestate: Option<&str> = None;
        let mut i: usize = 0;
        proof {
            keys_differ();
        }
        assert(all.take(0) =~= Seq::empty());
        while i < pairs.len()
            invariant
                i <= pairs.len(),
                all == user_pairs(props@),
                pairs@.len() == all.len(),
                forall|j: int|
                    0 <= j < pairs@.len() ==> (#[trigger] pairs@[j]).0@ == all[j].0
                        && pairs@[j].1@ == all[j].1,
                "traceparent"@ != "tracestate"@,
                match last_value(all.take(i as int), "traceparent"@) {
                    Some(v) => traceparent matches Some(t) && t@ == v,
                    None => traceparent is None,
                },
                match last_value(all.take(i as int), "tracestate"@) {
                    Some(v) => tracestate matches Some(t) && t@ == v,
                    None => tracestate is None,
                },
            decreases pairs.len() - i,
        {
            let (key, value) = pairs[i];
            assert(all.take(i + 1).drop_last() =~= all.take(i as int));
            assert(all.take(i + 1).last() == all[i as int]);
            if same_text(key, TRACEPARENT_KEY) {
                traceparent = Some(value);
            } else if same_text(key, TRACESTATE_KEY) {
                tracestate = Some(value);
            }
            i += 1;
        }
        assert(all.take(i as int) =~= all);
        match traceparent {
            Some(tp) => Self::parse_traceparent(tp, tracestate),
            None => None,
        }
    }

    /// Inject trace context into MQTT v5 User Properties for publishing.
    pub fn inject(&self, props: &mut Properties)
        ensures
            final(props)@ == self@.injected(old(props)@),
    {
        props.push(
            PropertyId::UserProperty,
            PropertyValue::StringPair(TRACEPARENT_KEY.to_owned(), self.traceparent_string()),
        );
        if let Some(state) = &self.tracestate {
            props.push(
                PropertyId::UserProperty,
                PropertyValue::StringPair(TRACESTATE_KEY.to_owned(), state.clone()),
            );
        }
    }

    /// The context's `traceparent` value, which also is how the context is displayed.
    pub fn traceparent_string(&self) -> (r: String)
        ensures
            r@ == self@.traceparent(),
    {
        proof {
            reveal_strlit("00-");
            reveal_strlit("-");
        }
        let mut s = "00-".to_owned();
        push_hex(&mut s, &self.trace_id);
        s.append("-");
        push_hex(&mut s, &self.span_id);
        s.append("-");
        push_hex_byte(&mut s, self.trace_flags);
        assert("00-"@ =~= seq!['0', '0', '-']);
        assert("-"@ =~= seq!['-']);
        assert(s@ =~= self@.traceparent());
        s
    }

    /// Parse a `traceparent` value; version 00 is supported.
    pub fn parse_traceparent(s: &str, tracestate: Option<&str>) -> (r: Option<Self>)
        ensures
            match parsed(
                s@,
                match tracestate {
                    Some(state) => Some(state@),
                    None => None,
                },
            ) {
                Some(view) => r matches Some(ctx) && ctx@ == view,
                None => r is None,
            },
    {
        // Format: "00-{32 hex}-{16 hex}-{2 hex}"
        let c = chars_of(s);
        if c.len() != 55 || c[0] != '0' || c[1] != '0' || c[2] != '-' || c[35] != '-' || c[52]
            != '-' {
            return None;
        }
        let t = hex_decode(&c, 3, 16)?;
        let p = hex_decode(&c, 36, 8)?;
        let f = hex_decode(&c, 53, 1)?;
        let trace_id: [u8; 16] = [
            t[0],
            t[1],
            t[2],
            t[3],
            t[4],
            t[5],
            t[6],
            t[7],
            t[8],
            t[9],
            t[10],
            t[11],
            t[12],
            t[13],
            t[14],
            t[15],
        ];
        let span_id: [u8; 8] = [p[0], p[1], p[2], p[3], p[4], p[5], p[6], p[7]];
        assert(trace_id@ =~= t@);
        assert(span_id@ =~= p@);
        Some(
            Self {
                trace_id,
                span_id,
                trace_flags: f[0],
                tracestate: match tracestate {
                    Some(state) => Some(state.to_owned()),
                    None => None,
                },
            },
        )
    }
}

fn hex_decode(chars: &Vec<char>, from: usize, n: usize) -> (r: Option<Vec<u8>>)
    requires
        from + 2 * n <= chars.len(),
    ensures
        if all_hex(chars@, from as int, from + 2 * n) {
            r matches Some(bytes) && bytes@ == unhex(chars@, from as int, n as nat)
        } else {
            r is None
        },
{
    let mut bytes: Vec<u8> = Vec::new();
    let mut i: usize = 0;
    while i < n
        invariant
            i <= n,
            from + 2 * n <= chars.len(),
            all_hex(chars@, from as int, from + 2 * i),
            bytes@ == unhex(chars@, from as int, i as nat),
        decreases n - i,
    {
        let at: usize = from + 2 * i;
        assert(nibble(chars@[at as int]) is None ==> !all_hex(chars@, from as int, from + 2 * n));
        assert(nibble(chars@[at + 1]) is None ==> !all_hex(chars@, from as int, from + 2 * n));
        let hi: u8 = hex_nibble(chars[at])?;
        let lo: u8 = hex_nibble(chars[at + 1])?;
        bytes.push(hi * 16 + lo);
        i += 1;
        assert(bytes@ =~= unhex(chars@, from as int, i as nat));
    }
    Some(bytes)
}

fn hex_nibble(c: char) -> (r: Option<u8>)
    ensures
        match nibble(c) {
            Some(v) => r matches Some(n) && n == v && n < 16,
            None => r is None,
        },
{
    match c {
        '0' => Some(0),
        '1' => Some(1),
        '2' => Some(2),
        '3' => Some(3),
        '4' => Some(4),
        '5' => Some(5),
        '6' => Some(6),
        '7' => Some(7),
        '8' => Some(8),
        '9' => Some(9),
        'a' | 'A' => Some(10),
        'b' | 'B' => Some(11),
        'c' | 'C' => Some(12),
        'd' | 'D' => Some(13),
        'e' | 'E' => Some(14),
        'f' | 'F' => Some(15),
        _ => None,
    }
}

proof fn keys_differ()
    ensures
        "traceparent"@ != "tracestate"@,
{
    reveal_strlit("traceparent");
    reveal_strlit("tracestate");
    assert("traceparent"@.len() == 11);
    assert("tracestate"@.len() == 10);
}

pub(crate) proof fn hex_len(bytes: Seq<u8>)
    ensures
        hex(bytes).len() == 2 * bytes.len(),
    decreases bytes.len(),
{
    if bytes.len() > 0 {
        hex_len(bytes.drop_last());
    }
}

proof fn hex_digits(bytes: Seq<u8>, i: int)
    requires
        0 <= i < bytes.len(),
    ensures
        hex(bytes).len() == 2 * bytes.len(),
        hex(bytes)[2 * i] == digit(bytes[i] as int / 16),
        hex(bytes)[2 * i + 1] == digit(bytes[i] as int % 16),
    decreases bytes.len(),
{
    hex_len(bytes);
    hex_len(bytes.drop_last());
    if i < bytes.len() - 1 {
        hex_digits(bytes.drop_last(), i);
    }
}

proof fn digit_nibble(d: int)
    requires
        0 <= d < 16,
    ensures
        nibble(digit(d)) == Some(d),
{
}

pub(crate) proof fn hex_round_trip(s: Seq<char>, from: int, bytes: Seq<u8>)
    requires
        0 <= from,
        from + 2 * bytes.len() <= s.len(),
        s.subrange(from, from + 2 * bytes.len()) == hex(bytes),
    ensures
        all_hex(s, from, from + 2 * bytes.len()),
        unhex(s, from, bytes.len()) == bytes,
{
    let part = s.subrange(from, from + 2 * bytes.len());
    assert forall|i: int| from <= i < from + 2 * bytes.len() implies nibble(
        #[trigger] s[i],
    ) is Some by {
        let k = (i - from) / 2;
        hex_digits(bytes, k);
        digit_nibble(bytes[k] as int / 16);
        digit_nibble(bytes[k] as int % 16);
        assert(part[i - from] == s[i]);
    }
    assert forall|i: int| 0 <= i < bytes.len() implies unhex(s, from, bytes.len())[i]
        == bytes[i] by {
        hex_digits(bytes, i);
        digit_nibble(bytes[i] as int / 16);
        digit_nibble(bytes[i] as int % 16);
        assert(part[2 * i] == s[from + 2 * i]);
        assert(part[2 * i + 1] == s[from + 2 * i + 1]);
    }
    assert(unhex(s, from, bytes.len()) =~= bytes);
}

/// Parsing the `traceparent` value of a context gives back its identifiers and flags.
pub proof fn traceparent_round_trip(ctx: TraceContextView)
    requires
        ctx.trace_id.len() == 16,
        ctx.span_id.len() == 8,
    ensures
        parsed(ctx.traceparent(), ctx.tracestate) == Some(ctx),
{
    let s = ctx.traceparent();
    hex_len(ctx.trace_id);
    hex_len(ctx.span_id);
    let flags = seq![ctx.trace_flags];
    assert(flags.drop_last() =~= Seq::empty());
    assert(flags.last() == ctx.trace_flags);
    reveal_with_fuel(hex, 2);
    assert(hex(flags) =~= hex_byte(ctx.trace_flags));
    assert(s.subrange(3, 35) =~= hex(ctx.trace_id));
    assert(s.subrange(36, 52) =~= hex(ctx.span_id));
    assert(s.subrange(53, 55) =~= hex(flags));
    hex_round_trip(s, 3, ctx.trace_id);
    hex_round_trip(s, 36, ctx.span_id);
    hex_round_trip(s, 53, flags);
    assert(parsed(s, ctx.tracestate)->Some_0 =~= ctx);
}

/// Extracting the context from properties that it was injected into gives it back. (A
/// context without `tracestate` takes over the one that the properties already have.)
pub proof fn inject_then_extract(ctx: TraceContextView, properties: Seq<Entry>)
    requires
        ctx.trace_id.len() == 16,
        ctx.span_id.len() == 8,
        ctx.tracestate is Some || last_value(user_pairs(properties), "tracestate"@) is None,
    ensures
        carried(ctx.injected(properties)) == Some(ctx),
{
    keys_differ();
    traceparent_round_trip(ctx);
    let parent = (
        PropertyId::UserProperty,
        PropertyValueView::StringPair("traceparent"@, ctx.traceparent()),
    );
    let one = properties.push(parent);
    assert(one.drop_last() =~= properties);
    let before = user_pairs(properties);
    let pairs = user_pairs(one);
    assert(pairs == before.push(("traceparent"@, ctx.traceparent())));
    assert(pairs.drop_last() =~= before);
    assert(last_value(pairs, "traceparent"@) == Some(ctx.traceparent()));
    assert(last_value(pairs, "tracestate"@) == last_value(before, "tracestate"@));
    if let Some(state) = ctx.tracestate {
        let two = ctx.injected(properties);
        assert(two.drop_last() =~= one);
        let more = user_pairs(two);
        assert(more == pairs.push(("tracestate"@, state)));
        assert(more.drop_last() =~= pairs);
        assert(last_value(more, "traceparent"@) == last_value(pairs, "traceparent"@));
        assert(last_value(more, "tracestate"@) == Some(state));
    }
}

} // verus!
