//! The parsed shape of a delivery payload: an envelope of per-page entries,
//! each carrying the page id and the page's batch of messaging events. All
//! strings are raw byte strings taken verbatim from the request body.

use vstd::prelude::*;
use crate::registry::bytes_eq;

verus! {


/// Parse failure for a delivery payload: the body is not a structurally
/// valid envelope.
#[derive(Clone, Copy, Debug, PartialEq, Eq, Structural)]
pub struct MalformedPayload;

/// The content of one messaging event: a text message, or any other event
/// kind carried through unmodified as the raw bytes of its JSON object.
pub enum EventPayload {
    Message { mid: Vec<u8>, text: Vec<u8> },
    Other { raw: Vec<u8> },
}

/// Spec-level mirror of `EventPayload`.
pub enum EventPayloadV {
    Message { mid: Seq<u8>, text: Seq<u8> },
    Other { raw: Seq<u8> },
}

impl DeepView for EventPayload {
    type V = EventPayloadV;

    open spec fn deep_view(&self) -> EventPayloadV {
        match self {
            EventPayload::Message { mid, text } => EventPayloadV::Message {
                mid: mid@,
                text: text@,
            },
            EventPayload::Other { raw } => EventPayloadV::Other { raw: raw@ },
        }
    }
}

/// One messaging event: who sent it, which page received it, when, and its
/// content.
pub struct MessagingEvent {
    pub sender_id: Vec<u8>,
    pub recipient_id: Vec<u8>,
    pub timestamp: i64,
    pub payload: EventPayload,
}

/// Spec-level mirror of `MessagingEvent`.
pub struct MessagingEventV {
    pub sender_id: Seq<u8>,
    pub recipient_id: Seq<u8>,
    pub timestamp: int,
    pub payload: EventPayloadV,
}

impl DeepView for MessagingEvent {
    type V = MessagingEventV;

    open spec fn deep_view(&self) -> MessagingEventV {
        MessagingEventV {
            sender_id: self.sender_id@,
            recipient_id: self.recipient_id@,
            timestamp: self.timestamp as int,
            payload: self.payload.deep_view(),
        }
    }
}

/// One page's batch of events within an envelope.
pub struct Entry {
    pub page_id: Vec<u8>,
    pub events: Vec<MessagingEvent>,
}

/// Spec-level mirror of `Entry`.
pub struct EntryV {
    pub page_id: Seq<u8>,
    pub events: Seq<MessagingEventV>,
}

impl DeepView for Entry {
    type V = EntryV;

    open spec fn deep_view(&self) -> EntryV {
        EntryV { page_id: self.page_id@, events: self.events.deep_view() }
    }
}

/// The parsed top-level delivery payload: an ordered sequence of entries.
pub struct InboundEnvelope {
    pub entries: Vec<Entry>,
}

/// Spec-level mirror of `InboundEnvelope`.
pub struct InboundEnvelopeV {
    pub entries: Seq<EntryV>,
}

impl DeepView for InboundEnvelope {
    type V = InboundEnvelopeV;

    open spec fn deep_view(&self) -> InboundEnvelopeV {
        InboundEnvelopeV { entries: self.entries.deep_view() }
    }
}

/// JSON whitespace.
pub open spec fn is_ws(c: u8) -> bool {
    c == 32u8 || c == 9u8 || c == 10u8 || c == 13u8
}

/// The first position at or after `i` that holds no whitespace.
pub open spec fn sp_ws(s: Seq<u8>, i: int) -> int
    decreases s.len() - i,
{
    if 0 <= i < s.len() && is_ws(s[i]) {
        sp_ws(s, i + 1)
    } else {
        i
    }
}

/// A decimal digit.
pub open spec fn is_digit(c: u8) -> bool {
    48u8 <= c && c <= 57u8
}

/// The first position at or after `i` that holds no digit.
pub open spec fn sp_digits_end(s: Seq<u8>, i: int) -> int
    decreases s.len() - i,
{
    if 0 <= i < s.len() && is_digit(s[i]) {
        sp_digits_end(s, i + 1)
    } else {
        i
    }
}

/// The value of the digit run `s[i .. e)`.
pub open spec fn digits_val(s: Seq<u8>, i: int, e: int) -> int
    decreases e - i,
{
    if i >= e {
        0
    } else {
        digits_val(s, i, e - 1) * 10 + (s[e - 1] - 48u8)
    }
}

/// An integer at `i`: an optional minus sign and one to eighteen digits
/// (enough for any timestamp; a longer run is not accepted). Yields the
/// value and the position after the digits.
pub open spec fn sp_i64(s: Seq<u8>, i: int) -> Option<(int, int)> {
    if !(0 <= i < s.len()) {
        None
    } else if s[i] == 45u8 {
        let e = sp_digits_end(s, i + 1);
        if e - (i + 1) < 1 || e - (i + 1) > 18 {
            None
        } else {
            Some((-digits_val(s, i + 1, e), e))
        }
    } else {
        let e = sp_digits_end(s, i);
        if e - i < 1 || e - i > 18 {
            None
        } else {
            Some((digits_val(s, i, e), e))
        }
    }
}

/// A byte that may occur in a skipped number (liberal: sign, digits,
/// decimal point, exponent marks).
pub open spec fn is_num_byte(c: u8) -> bool {
    is_digit(c) || c == 45u8 || c == 43u8 || c == 46u8 || c == 101u8 || c == 69u8
}

/// The first position at or after `i` outside a skipped number.
pub open spec fn sp_num_end(s: Seq<u8>, i: int) -> int
    decreases s.len() - i,
{
    if 0 <= i < s.len() && is_num_byte(s[i]) {
        sp_num_end(s, i + 1)
    } else {
        i
    }
}

/// A backslash escape this grammar accepts (the simple JSON escapes; a
/// unicode escape is not accepted).
pub open spec fn is_escape(c: u8) -> bool {
    c == 34u8 || c == 92u8 || c == 47u8 || c == 98u8 || c == 102u8 || c == 110u8 || c == 114u8
        || c == 116u8
}

/// The byte an accepted escape denotes.
pub open spec fn escape_char(c: u8) -> u8 {
    if c == 98u8 {
        8u8
    } else if c == 102u8 {
        12u8
    } else if c == 110u8 {
        10u8
    } else if c == 114u8 {
        13u8
    } else if c == 116u8 {
        9u8
    } else {
        c
    }
}

/// The rest of a string after its opening quote: the decoded bytes and the
/// position after the closing quote. Control bytes and unknown escapes make
/// the string malformed.
pub open spec fn sp_str_body(s: Seq<u8>, i: int) -> Option<(Seq<u8>, int)>
    decreases s.len() - i,
{
    if !(0 <= i < s.len()) {
        None
    } else if s[i] == 34u8 {
        Some((seq![], i + 1))
    } else if s[i] == 92u8 {
        if i + 1 < s.len() && is_escape(s[i + 1]) {
            match sp_str_body(s, i + 2) {
                Some(t) => Some((seq![escape_char(s[i + 1])] + t.0, t.1)),
                None => None,
            }
        } else {
            None
        }
    } else if s[i] < 32u8 {
        None
    } else {
        match sp_str_body(s, i + 1) {
            Some(t) => Some((seq![s[i]] + t.0, t.1)),
            None => None,
        }
    }
}

/// A string at `i`: an opening quote, the decoded body, a closing quote.
pub open spec fn sp_string(s: Seq<u8>, i: int) -> Option<(Seq<u8>, int)> {
    if 0 <= i < s.len() && s[i] == 34u8 {
        sp_str_body(s, i + 1)
    } else {
        None
    }
}

/// A `true`, `false` or `null` literal at `i`.
pub open spec fn sp_lit(s: Seq<u8>, i: int) -> Option<int> {
    if 0 <= i && i + 4 <= s.len() && s[i] == 116u8 && s[i + 1] == 114u8 && s[i + 2] == 117u8 && s[i
        + 3] == 101u8 {
        Some(i + 4)
    } else if 0 <= i && i + 5 <= s.len() && s[i] == 102u8 && s[i + 1] == 97u8 && s[i + 2] == 108u8
        && s[i + 3] == 115u8 && s[i + 4] == 101u8 {
        Some(i + 5)
    } else if 0 <= i && i + 4 <= s.len() && s[i] == 110u8 && s[i + 1] == 117u8 && s[i + 2] == 108u8
        && s[i + 3] == 108u8 {
        Some(i + 4)
    } else {
        None
    }
}

/// Prefix the decoded bytes of a string-body result.
pub open spec fn opt_prepend(p: Seq<u8>, o: Option<(Seq<u8>, int)>) -> Option<(Seq<u8>, int)> {
    match o {
        Some(t) => Some((p + t.0, t.1)),
        None => None,
    }
}

proof fn lemma_prepend_nil(o: Option<(Seq<u8>, int)>)
    ensures
        opt_prepend(Seq::<u8>::empty(), o) == o,
{
    match o {
        Some(t) => {
            assert(Seq::<u8>::empty() + t.0 =~= t.0);
        },
        None => {},
    }
}

proof fn lemma_prepend_assoc(p: Seq<u8>, q: Seq<u8>, o: Option<(Seq<u8>, int)>)
    ensures
        opt_prepend(p, opt_prepend(q, o)) == opt_prepend(p + q, o),
{
    match o {
        Some(t) => {
            assert(p + (q + t.0) =~= (p + q) + t.0);
        },
        None => {},
    }
}

fn ws(s: &[u8], i: usize) -> (r: usize)
    requires
        i <= s@.len(),
    ensures
        r as int == sp_ws(s@, i as int),
        i <= r <= s@.len(),
{
    let mut j = i;
    while j < s.len() && (s[j] == 32u8 || s[j] == 9u8 || s[j] == 10u8 || s[j] == 13u8)
        invariant
            i <= j <= s@.len(),
            sp_ws(s@, i as int) == sp_ws(s@, j as int),
        decreases s@.len() - j,
    {
        j += 1;
    }
    j
}

fn digits_end(s: &[u8], i: usize) -> (r: usize)
    requires
        i <= s@.len(),
    ensures
        r as int == sp_digits_end(s@, i as int),
        i <= r <= s@.len(),
{
    let mut j = i;
    while j < s.len() && 48u8 <= s[j] && s[j] <= 57u8
        invariant
            i <= j <= s@.len(),
            sp_digits_end(s@, i as int) == sp_digits_end(s@, j as int),
        decreases s@.len() - j,
    {
        j += 1;
    }
    j
}

fn num_end(s: &[u8], i: usize) -> (r: usize)
    requires
        i <= s@.len(),
    ensures
        r as int == sp_num_end(s@, i as int),
        i <= r <= s@.len(),
{
    let mut j = i;
    while j < s.len() && (48u8 <= s[j] && s[j] <= 57u8 || s[j] == 45u8 || s[j] == 43u8 || s[j]
        == 46u8 || s[j] == 101u8 || s[j] == 69u8)
        invariant
            i <= j <= s@.len(),
            sp_num_end(s@, i as int) == sp_num_end(s@, j as int),
        decreases s@.len() - j,
    {
        j += 1;
    }
    j
}

/// Ten to the `n`.
pub open spec fn pow10(n: nat) -> int
    decreases n,
{
    if n == 0 {
        1
    } else {
        10 * pow10((n - 1) as nat)
    }
}

proof fn lemma_pow10_pos(n: nat)
    ensures
        pow10(n) >= 1,
    decreases n,
{
    if n > 0 {
        lemma_pow10_pos((n - 1) as nat);
    }
}

proof fn lemma_pow10_mono(a: nat, b: nat)
    requires
        a <= b,
    ensures
        pow10(a) <= pow10(b),
    decreases b,
{
    if a < b {
        lemma_pow10_mono(a, (b - 1) as nat);
        lemma_pow10_pos((b - 1) as nat);
    }
}

proof fn lemma_digits_in_range(s: Seq<u8>, i: int)
    requires
        0 <= i <= s.len(),
    ensures
        i <= sp_digits_end(s, i) <= s.len(),
        forall|j: int| i <= j < sp_digits_end(s, i) ==> is_digit(s[j]),
    decreases s.len() - i,
{
    if i < s.len() && is_digit(s[i]) {
        lemma_digits_in_range(s, i + 1);
    }
}

proof fn lemma_digits_val_bound(s: Seq<u8>, i: int, e: int)
    requires
        forall|j: int| i <= j < e ==> is_digit(s[j]),
    ensures
        0 <= digits_val(s, i, e),
        e >= i ==> digits_val(s, i, e) < pow10((e - i) as nat),
    decreases e - i,
{
    if i < e {
        lemma_digits_val_bound(s, i, e - 1);
    } else {
        lemma_pow10_pos(if e >= i {
            (e - i) as nat
        } else {
            0
        });
    }
}

fn parse_i64(s: &[u8], i: usize) -> (r: Option<(i64, usize)>)
    requires
        i <= s@.len(),
    ensures
        match r {
            Some(t) => sp_i64(s@, i as int) == Some((t.0 as int, t.1 as int)) && i < t.1
                <= s@.len(),
            None => sp_i64(s@, i as int) is None,
        },
{
    if i >= s.len() {
        return None;
    }
    let neg = s[i] == 45u8;
    let d0 = if neg {
        i + 1
    } else {
        i
    };
    let e = digits_end(s, d0);
    let n = e - d0;
    if n < 1 || n > 18 {
        return None;
    }
    proof {
        lemma_digits_in_range(s@, d0 as int);
    }
    let mut v: u64 = 0;
    let mut k = d0;
    while k < e
        invariant
            d0 <= k <= e <= s@.len(),
            e - d0 <= 18,
            forall|j: int| d0 <= j < e ==> is_digit(s@[j]),
            v as int == digits_val(s@, d0 as int, k as int),
        decreases e - k,
    {
        proof {
            lemma_digits_val_bound(s@, d0 as int, k as int);
            lemma_pow10_mono((k - d0) as nat, 17);
            reveal_with_fuel(pow10, 20);
            assert(pow10(17) == 100000000000000000);
        }
        v = v * 10 + ((s[k] - 48u8) as u64);
        k += 1;
    }
    proof {
        lemma_digits_val_bound(s@, d0 as int, e as int);
        lemma_pow10_mono((e - d0) as nat, 18);
        reveal_with_fuel(pow10, 20);
        assert(pow10(18) == 1000000000000000000);
    }
    if neg {
        Some((-(v as i64), e))
    } else {
        Some((v as i64, e))
    }
}

fn parse_lit(s: &[u8], i: usize) -> (r: Option<usize>)
    requires
        i <= s@.len(),
    ensures
        match r {
            Some(j) => sp_lit(s@, i as int) == Some(j as int) && i < j <= s@.len(),
            None => sp_lit(s@, i as int) is None,
        },
{
    let rem = s.len() - i;
    if rem >= 4 && s[i] == 116u8 && s[i + 1] == 114u8 && s[i + 2] == 117u8 && s[i + 3] == 101u8 {
        Some(i + 4)
    } else if rem >= 5 && s[i] == 102u8 && s[i + 1] == 97u8 && s[i + 2] == 108u8 && s[i + 3]
        == 115u8 && s[i + 4] == 101u8 {
        Some(i + 5)
    } else if rem >= 4 && s[i] == 110u8 && s[i + 1] == 117u8 && s[i + 2] == 108u8 && s[i + 3]
        == 108u8 {
        Some(i + 4)
    } else {
        None
    }
}

fn is_escape_exec(c: u8) -> (r: bool)
    ensures
        r == is_escape(c),
{
    c == 34u8 || c == 92u8 || c == 47u8 || c == 98u8 || c == 102u8 || c == 110u8 || c == 114u8 || c
        == 116u8
}

fn escape_char_exec(c: u8) -> (r: u8)
    ensures
        r == escape_char(c),
{
    if c == 98u8 {
        8u8
    } else if c == 102u8 {
        12u8
    } else if c == 110u8 {
        10u8
    } else if c == 114u8 {
        13u8
    } else if c == 116u8 {
        9u8
    } else {
        c
    }
}

fn parse_string(s: &[u8], i: usize) -> (r: Option<(Vec<u8>, usize)>)
    requires
        i <= s@.len(),
    ensures
        match r {
            Some(t) => sp_string(s@, i as int) == Some((t.0@, t.1 as int)) && i < t.1 <= s@.len(),
            None => sp_string(s@, i as int) is None,
        },
{
    if i >= s.len() || s[i] != 34u8 {
        return None;
    }
    let mut acc: Vec<u8> = Vec::new();
    let mut j = i + 1;
    proof {
        lemma_prepend_nil(sp_str_body(s@, (i + 1) as int));
    }
    while j < s.len()
        invariant
            i + 1 <= j <= s@.len(),
            s@[i as int] == 34u8,
            i < s@.len(),
            sp_str_body(s@, (i + 1) as int) == opt_prepend(acc@, sp_str_body(s@, j as int)),
        decreases s@.len() - j,
    {
        let c = s[j];
        if c == 34u8 {
            proof {
                assert(sp_str_body(s@, j as int) == Some((Seq::<u8>::empty(), j + 1)));
                assert(acc@ + Seq::<u8>::empty() =~= acc@);
            }
            return Some((acc, j + 1));
        } else if c == 92u8 {
            if j + 1 < s.len() && is_escape_exec(s[j + 1]) {
                let ghost pre = acc@;
                let ec = escape_char_exec(s[j + 1]);
                acc.push(ec);
                proof {
                    lemma_prepend_assoc(pre, seq![ec], sp_str_body(s@, (j + 2) as int));
                    assert(pre + seq![ec] =~= acc@);
                }
                j += 2;
            } else {
                return None;
            }
        } else if c < 32u8 {
            return None;
        } else {
            let ghost pre = acc@;
            acc.push(c);
            proof {
                lemma_prepend_assoc(pre, seq![c], sp_str_body(s@, (j + 1) as int));
                assert(pre + seq![c] =~= acc@);
            }
            j += 1;
        }
    }
    None
}

/// The fuel that bounds the parser's recursion for an input: generous for
/// any well-formed payload, and the same bound the executable parser uses.
pub open spec fn fuel_of(s: Seq<u8>) -> nat {
    (2 * s.len() + 4) as nat
}

/// The key naming the entry list in the top-level object.
pub open spec fn entry_key() -> Seq<u8> {
    seq![101u8, 110u8, 116u8, 114u8, 121u8]
}

/// The key naming an entry's page id.
pub open spec fn id_key() -> Seq<u8> {
    seq![105u8, 100u8]
}

/// The key naming an entry's event list.
pub open spec fn messaging_key() -> Seq<u8> {
    seq![109u8, 101u8, 115u8, 115u8, 97u8, 103u8, 105u8, 110u8, 103u8]
}

/// The key naming an event's sender object.
pub open spec fn sender_key() -> Seq<u8> {
    seq![115u8, 101u8, 110u8, 100u8, 101u8, 114u8]
}

/// The key naming an event's recipient object.
pub open spec fn recipient_key() -> Seq<u8> {
    seq![114u8, 101u8, 99u8, 105u8, 112u8, 105u8, 101u8, 110u8, 116u8]
}

/// The key naming an event's timestamp.
pub open spec fn timestamp_key() -> Seq<u8> {
    seq![116u8, 105u8, 109u8, 101u8, 115u8, 116u8, 97u8, 109u8, 112u8]
}

/// The key naming an event's message object.
pub open spec fn message_key() -> Seq<u8> {
    seq![109u8, 101u8, 115u8, 115u8, 97u8, 103u8, 101u8]
}

/// The key naming a message's id.
pub open spec fn mid_key() -> Seq<u8> {
    seq![109u8, 105u8, 100u8]
}

/// The key naming a message's text.
pub open spec fn text_key() -> Seq<u8> {
    seq![116u8, 101u8, 120u8, 116u8]
}

/// Skip one JSON value starting at `i` (leading whitespace allowed); the
/// position after it.
pub open spec fn sp_skip_value(s: Seq<u8>, i: int, f: nat) -> Option<int>
    decreases f,
{
    if f == 0 {
        None
    } else {
        let j = sp_ws(s, i);
        if !(0 <= j < s.len()) {
            None
        } else if s[j] == 34u8 {
            match sp_string(s, j) {
                Some(t) => Some(t.1),
                None => None,
            }
        } else if s[j] == 123u8 {
            sp_skip_members(s, j + 1, (f - 1) as nat, true)
        } else if s[j] == 91u8 {
            sp_skip_elems(s, j + 1, (f - 1) as nat, true)
        } else if s[j] == 45u8 || is_digit(s[j]) {
            Some(sp_num_end(s, j))
        } else {
            sp_lit(s, j)
        }
    }
}

/// Skip the elements of an array from just after `[` or `,`; the position
/// after the closing bracket.
pub open spec fn sp_skip_elems(s: Seq<u8>, i: int, f: nat, first: bool) -> Option<int>
    decreases f,
{
    if f == 0 {
        None
    } else {
        let j = sp_ws(s, i);
        if !(0 <= j < s.len()) {
            None
        } else if s[j] == 93u8 && first {
            Some(j + 1)
        } else {
            match sp_skip_value(s, j, (f - 1) as nat) {
                None => None,
                Some(j2) => {
                    let k = sp_ws(s, j2);
                    if !(0 <= k < s.len()) {
                        None
                    } else if s[k] == 44u8 {
                        sp_skip_elems(s, k + 1, (f - 1) as nat, false)
                    } else if s[k] == 93u8 {
                        Some(k + 1)
                    } else {
                        None
                    }
                },
            }
        }
    }
}

/// Skip the members of an object from just after `{` or `,`; the position
/// after the closing brace.
pub open spec fn sp_skip_members(s: Seq<u8>, i: int, f: nat, first: bool) -> Option<int>
    decreases f,
{
    if f == 0 {
        None
    } else {
        let j = sp_ws(s, i);
        if !(0 <= j < s.len()) {
            None
        } else if s[j] == 125u8 && first {
            Some(j + 1)
        } else {
            match sp_string(s, j) {
                None => None,
                Some(t) => {
                    let k = sp_ws(s, t.1);
                    if !(0 <= k < s.len() && s[k] == 58u8) {
                        None
                    } else {
                        match sp_skip_value(s, k + 1, (f - 1) as nat) {
                            None => None,
                            Some(j2) => {
                                let k2 = sp_ws(s, j2);
                                if !(0 <= k2 < s.len()) {
                                    None
                                } else if s[k2] == 44u8 {
                                    sp_skip_members(s, k2 + 1, (f - 1) as nat, false)
                                } else if s[k2] == 125u8 {
                                    Some(k2 + 1)
                                } else {
                                    None
                                }
                            },
                        }
                    }
                },
            }
        }
    }
}

/// The members of a sender or recipient object from just after `{` or `,`:
/// an `id` member must hold a string; unknown members are skipped; a later
/// duplicate replaces an earlier one. Yields the id and the position after
/// the closing brace.
pub open spec fn sp_id_members(s: Seq<u8>, i: int, f: nat, first: bool, id: Option<Seq<u8>>)
    -> Option<(Seq<u8>, int)>
    decreases f,
{
    if f == 0 {
        None
    } else {
        let j = sp_ws(s, i);
        if !(0 <= j < s.len()) {
            None
        } else if s[j] == 125u8 && first {
            match id {
                Some(v) => Some((v, j + 1)),
                None => None,
            }
        } else {
            match sp_string(s, j) {
                None => None,
                Some(t) => {
                    let k = sp_ws(s, t.1);
                    if !(0 <= k < s.len() && s[k] == 58u8) {
                        None
                    } else {
                        let step: Option<(Option<Seq<u8>>, int)> = if t.0 == id_key() {
                            match sp_string(s, sp_ws(s, k + 1)) {
                                Some(v) => Some((Some(v.0), v.1)),
                                None => None,
                            }
                        } else {
                            match sp_skip_value(s, k + 1, (f - 1) as nat) {
                                Some(j2) => Some((id, j2)),
                                None => None,
                            }
                        };
                        match step {
                            None => None,
                            Some(st) => {
                                let k2 = sp_ws(s, st.1);
                                if !(0 <= k2 < s.len()) {
                                    None
                                } else if s[k2] == 44u8 {
                                    sp_id_members(s, k2 + 1, (f - 1) as nat, false, st.0)
                                } else if s[k2] == 125u8 {
                                    match st.0 {
                                        Some(v) => Some((v, k2 + 1)),
                                        None => None,
                                    }
                                } else {
                                    None
                                }
                            },
                        }
                    }
                },
            }
        }
    }
}

/// A sender or recipient object at `i`: an object carrying an `id` string.
pub open spec fn sp_id_obj(s: Seq<u8>, i: int, f: nat) -> Option<(Seq<u8>, int)>
    decreases f,
{
    if f == 0 {
        None
    } else {
        let j = sp_ws(s, i);
        if 0 <= j < s.len() && s[j] == 123u8 {
            sp_id_members(s, j + 1, (f - 1) as nat, true, None)
        } else {
            None
        }
    }
}

/// The members of a message object from just after `{` or `,`: `mid` and
/// `text` members must hold strings; unknown members are skipped. Yields
/// whichever of the two were present and the position after the brace.
pub open spec fn sp_msg_members(
    s: Seq<u8>,
    i: int,
    f: nat,
    first: bool,
    mid: Option<Seq<u8>>,
    text: Option<Seq<u8>>,
) -> Option<((Option<Seq<u8>>, Option<Seq<u8>>), int)>
    decreases f,
{
    if f == 0 {
        None
    } else {
        let j = sp_ws(s, i);
        if !(0 <= j < s.len()) {
            None
        } else if s[j] == 125u8 && first {
            Some(((mid, text), j + 1))
        } else {
            match sp_string(s, j) {
                None => None,
                Some(t) => {
                    let k = sp_ws(s, t.1);
                    if !(0 <= k < s.len() && s[k] == 58u8) {
                        None
                    } else {
                        let step: Option<((Option<Seq<u8>>, Option<Seq<u8>>), int)> = if t.0
                            == mid_key() {
                            match sp_string(s, sp_ws(s, k + 1)) {
                                Some(v) => Some(((Some(v.0), text), v.1)),
                                None => None,
                            }
                        } else if t.0 == text_key() {
                            match sp_string(s, sp_ws(s, k + 1)) {
                                Some(v) => Some(((mid, Some(v.0)), v.1)),
                                None => None,
                            }
                        } else {
                            match sp_skip_value(s, k + 1, (f - 1) as nat) {
                                Some(j2) => Some(((mid, text), j2)),
                                None => None,
                            }
                        };
                        match step {
                            None => None,
                            Some(st) => {
                                let k2 = sp_ws(s, st.1);
                                if !(0 <= k2 < s.len()) {
                                    None
                                } else if s[k2] == 44u8 {
                                    sp_msg_members(s, k2 + 1, (f - 1) as nat, false, st.0.0, st.0.1)
                                } else if s[k2] == 125u8 {
                                    Some((st.0, k2 + 1))
                                } else {
                                    None
                                }
                            },
                        }
                    }
                },
            }
        }
    }
}

/// A message object at `i`.
pub open spec fn sp_message(s: Seq<u8>, i: int, f: nat) -> Option<(
    (Option<Seq<u8>>, Option<Seq<u8>>),
    int,
)>
    decreases f,
{
    if f == 0 {
        None
    } else {
        let j = sp_ws(s, i);
        if 0 <= j < s.len() && s[j] == 123u8 {
            sp_msg_members(s, j + 1, (f - 1) as nat, true, None, None)
        } else {
            None
        }
    }
}

/// The content of an event given what its members held: a text message when
/// a message object carried both `mid` and `text`, otherwise the event's own
/// raw bytes, passed through unmodified.
pub open spec fn payload_of(
    s: Seq<u8>,
    start: int,
    end: int,
    msg: Option<(Option<Seq<u8>>, Option<Seq<u8>>)>,
) -> EventPayloadV {
    match msg {
        Some(m) => match m.0 {
            Some(mid) => match m.1 {
                Some(text) => EventPayloadV::Message { mid, text },
                None => EventPayloadV::Other { raw: s.subrange(start, end) },
            },
            None => EventPayloadV::Other { raw: s.subrange(start, end) },
        },
        None => EventPayloadV::Other { raw: s.subrange(start, end) },
    }
}

/// The members of an event object from just after `{` or `,`. Yields the
/// sender id, recipient id, timestamp and message fields seen so far and
/// the position after the closing brace.
pub open spec fn sp_event_members(
    s: Seq<u8>,
    i: int,
    f: nat,
    first: bool,
    sender: Option<Seq<u8>>,
    recipient: Option<Seq<u8>>,
    ts: Option<int>,
    msg: Option<(Option<Seq<u8>>, Option<Seq<u8>>)>,
) -> Option<(
    (Option<Seq<u8>>, Option<Seq<u8>>, Option<int>, Option<(Option<Seq<u8>>, Option<Seq<u8>>)>),
    int,
)>
    decreases f,
{
    if f == 0 {
        None
    } else {
        let j = sp_ws(s, i);
        if !(0 <= j < s.len()) {
            None
        } else if s[j] == 125u8 && first {
            Some(((sender, recipient, ts, msg), j + 1))
        } else {
            match sp_string(s, j) {
                None => None,
                Some(t) => {
                    let k = sp_ws(s, t.1);
                    if !(0 <= k < s.len() && s[k] == 58u8) {
                        None
                    } else {
                        let step: Option<(
                            (
                                Option<Seq<u8>>,
                                Option<Seq<u8>>,
                                Option<int>,
                                Option<(Option<Seq<u8>>, Option<Seq<u8>>)>,
                            ),
                            int,
                        )> = if t.0 == sender_key() {
                            match sp_id_obj(s, k + 1, (f - 1) as nat) {
                                Some(v) => Some(((Some(v.0), recipient, ts, msg), v.1)),
                                None => None,
                            }
                        } else if t.0 == recipient_key() {
                            match sp_id_obj(s, k + 1, (f - 1) as nat) {
                                Some(v) => Some(((sender, Some(v.0), ts, msg), v.1)),
                                None => None,
                            }
                        } else if t.0 == timestamp_key() {
                            match sp_i64(s, sp_ws(s, k + 1)) {
                                Some(v) => Some(((sender, recipient, Some(v.0), msg), v.1)),
                                None => None,
                            }
                        } else if t.0 == message_key() {
                            match sp_message(s, k + 1, (f - 1) as nat) {
                                Some(v) => Some(((sender, recipient, ts, Some(v.0)), v.1)),
                                None => None,
                            }
                        } else {
                            match sp_skip_value(s, k + 1, (f - 1) as nat) {
                                Some(j2) => Some(((sender, recipient, ts, msg), j2)),
                                None => None,
                            }
                        };
                        match step {
                            None => None,
                            Some(st) => {
                                let k2 = sp_ws(s, st.1);
                                if !(0 <= k2 < s.len()) {
                                    None
                                } else if s[k2] == 44u8 {
                                    sp_event_members(
                                        s,
                                        k2 + 1,
                                        (f - 1) as nat,
                                        false,
                                        st.0.0,
                                        st.0.1,
                                        st.0.2,
                                        st.0.3,
                                    )
                                } else if s[k2] == 125u8 {
                                    Some((st.0, k2 + 1))
                                } else {
                                    None
                                }
                            },
                        }
                    }
                },
            }
        }
    }
}

/// One event object at `i`: sender, recipient and timestamp are required;
/// a message with both `mid` and `text` makes a text message, anything else
/// is carried through as the event's raw bytes.
pub open spec fn sp_event(s: Seq<u8>, i: int, f: nat) -> Option<(MessagingEventV, int)>
    decreases f,
{
    if f == 0 {
        None
    } else {
        let j = sp_ws(s, i);
        if !(0 <= j < s.len() && s[j] == 123u8) {
            None
        } else {
            match sp_event_members(s, j + 1, (f - 1) as nat, true, None, None, None, None) {
                None => None,
                Some(r) => match r.0.0 {
                    None => None,
                    Some(sid) => match r.0.1 {
                        None => None,
                        Some(rid) => match r.0.2 {
                            None => None,
                            Some(ts) => Some(
                                (
                                    MessagingEventV {
                                        sender_id: sid,
                                        recipient_id: rid,
                                        timestamp: ts,
                                        payload: payload_of(s, j, r.1, r.0.3),
                                    },
                                    r.1,
                                ),
                            ),
                        },
                    },
                },
            }
        }
    }
}

/// The elements of an event list from just after `[` or `,`.
pub open spec fn sp_event_list(s: Seq<u8>, i: int, f: nat, first: bool, acc: Seq<MessagingEventV>)
    -> Option<(Seq<MessagingEventV>, int)>
    decreases f,
{
    if f == 0 {
        None
    } else {
        let j = sp_ws(s, i);
        if !(0 <= j < s.len()) {
            None
        } else if s[j] == 93u8 && first {
            Some((acc, j + 1))
        } else {
            match sp_event(s, j, (f - 1) as nat) {
                None => None,
                Some(t) => {
                    let k = sp_ws(s, t.1);
                    if !(0 <= k < s.len()) {
                        None
                    } else if s[k] == 44u8 {
                        sp_event_list(s, k + 1, (f - 1) as nat, false, acc.push(t.0))
                    } else if s[k] == 93u8 {
                        Some((acc.push(t.0), k + 1))
                    } else {
                        None
                    }
                },
            }
        }
    }
}

/// An event array at `i`.
pub open spec fn sp_events(s: Seq<u8>, i: int, f: nat) -> Option<(Seq<MessagingEventV>, int)>
    decreases f,
{
    if f == 0 {
        None
    } else {
        let j = sp_ws(s, i);
        if 0 <= j < s.len() && s[j] == 91u8 {
            sp_event_list(s, j + 1, (f - 1) as nat, true, seq![])
        } else {
            None
        }
    }
}

/// The members of an entry object from just after `{` or `,`: `id` must
/// hold a string and `messaging` an event array; unknown members skipped.
pub open spec fn sp_entry_members(
    s: Seq<u8>,
    i: int,
    f: nat,
    first: bool,
    id: Option<Seq<u8>>,
    evs: Option<Seq<MessagingEventV>>,
) -> Option<((Option<Seq<u8>>, Option<Seq<MessagingEventV>>), int)>
    decreases f,
{
    if f == 0 {
        None
    } else {
        let j = sp_ws(s, i);
        if !(0 <= j < s.len()) {
            None
        } else if s[j] == 125u8 && first {
            Some(((id, evs), j + 1))
        } else {
            match sp_string(s, j) {
                None => None,
                Some(t) => {
                    let k = sp_ws(s, t.1);
                    if !(0 <= k < s.len() && s[k] == 58u8) {
                        None
                    } else {
                        let step: Option<((Option<Seq<u8>>, Option<Seq<MessagingEventV>>), int)> =
                            if t.0 == id_key() {
                            match sp_string(s, sp_ws(s, k + 1)) {
                                Some(v) => Some(((Some(v.0), evs), v.1)),
                                None => None,
                            }
                        } else if t.0 == messaging_key() {
                            match sp_events(s, k + 1, (f - 1) as nat) {
                                Some(v) => Some(((id, Some(v.0)), v.1)),
                                None => None,
                            }
                        } else {
                            match sp_skip_value(s, k + 1, (f - 1) as nat) {
                                Some(j2) => Some(((id, evs), j2)),
                                None => None,
                            }
                        };
                        match step {
                            None => None,
                            Some(st) => {
                                let k2 = sp_ws(s, st.1);
                                if !(0 <= k2 < s.len()) {
                                    None
                                } else if s[k2] == 44u8 {
                                    sp_entry_members(s, k2 + 1, (f - 1) as nat, false, st.0.0, st.0.1)
                                } else if s[k2] == 125u8 {
                                    Some((st.0, k2 + 1))
                                } else {
                                    None
                                }
                            },
                        }
                    }
                },
            }
        }
    }
}

/// One entry object at `i`: its page id and its events are both required.
pub open spec fn sp_entry(s: Seq<u8>, i: int, f: nat) -> Option<(EntryV, int)>
    decreases f,
{
    if f == 0 {
        None
    } else {
        let j = sp_ws(s, i);
        if !(0 <= j < s.len() && s[j] == 123u8) {
            None
        } else {
            match sp_entry_members(s, j + 1, (f - 1) as nat, true, None, None) {
                None => None,
                Some(r) => match r.0.0 {
                    None => None,
                    Some(id) => match r.0.1 {
                        None => None,
                        Some(evs) => Some((EntryV { page_id: id, events: evs }, r.1)),
                    },
                },
            }
        }
    }
}

/// The elements of the entry list from just after `[` or `,`.
pub open spec fn sp_entry_list(s: Seq<u8>, i: int, f: nat, first: bool, acc: Seq<EntryV>) -> Option<
    (Seq<EntryV>, int),
>
    decreases f,
{
    if f == 0 {
        None
    } else {
        let j = sp_ws(s, i);
        if !(0 <= j < s.len()) {
            None
        } else if s[j] == 93u8 && first {
            Some((acc, j + 1))
        } else {
            match sp_entry(s, j, (f - 1) as nat) {
                None => None,
                Some(t) => {
                    let k = sp_ws(s, t.1);
                    if !(0 <= k < s.len()) {
                        None
                    } else if s[k] == 44u8 {
                        sp_entry_list(s, k + 1, (f - 1) as nat, false, acc.push(t.0))
                    } else if s[k] == 93u8 {
                        Some((acc.push(t.0), k + 1))
                    } else {
                        None
                    }
                },
            }
        }
    }
}

/// The entry array at `i`.
pub open spec fn sp_entries(s: Seq<u8>, i: int, f: nat) -> Option<(Seq<EntryV>, int)>
    decreases f,
{
    if f == 0 {
        None
    } else {
        let j = sp_ws(s, i);
        if 0 <= j < s.len() && s[j] == 91u8 {
            sp_entry_list(s, j + 1, (f - 1) as nat, true, seq![])
        } else {
            None
        }
    }
}

/// The members of the top-level object from just after `{` or `,`: an
/// `entry` member must hold the entry array; unknown members are skipped.
pub open spec fn sp_env_members(s: Seq<u8>, i: int, f: nat, first: bool, acc: Option<Seq<EntryV>>)
    -> Option<(Option<Seq<EntryV>>, int)>
    decreases f,
{
    if f == 0 {
        None
    } else {
        let j = sp_ws(s, i);
        if !(0 <= j < s.len()) {
            None
        } else if s[j] == 125u8 && first {
            Some((acc, j + 1))
        } else {
            match sp_string(s, j) {
                None => None,
                Some(t) => {
                    let k = sp_ws(s, t.1);
                    if !(0 <= k < s.len() && s[k] == 58u8) {
                        None
                    } else {
                        let step: Option<(Option<Seq<EntryV>>, int)> = if t.0 == entry_key() {
                            match sp_entries(s, k + 1, (f - 1) as nat) {
                                Some(v) => Some((Some(v.0), v.1)),
                                None => None,
                            }
                        } else {
                            match sp_skip_value(s, k + 1, (f - 1) as nat) {
                                Some(j2) => Some((acc, j2)),
                                None => None,
                            }
                        };
                        match step {
                            None => None,
                            Some(st) => {
                                let k2 = sp_ws(s, st.1);
                                if !(0 <= k2 < s.len()) {
                                    None
                                } else if s[k2] == 44u8 {
                                    sp_env_members(s, k2 + 1, (f - 1) as nat, false, st.0)
                                } else if s[k2] == 125u8 {
                                    Some((st.0, k2 + 1))
                                } else {
                                    None
                                }
                            },
                        }
                    }
                },
            }
        }
    }
}

/// What a delivery body parses to: a top-level object whose `entry` member
/// holds the entries, each with its page id and events; unknown members are
/// skipped; nothing but whitespace may follow. `None` is a malformed body.
pub open spec fn sp_envelope(s: Seq<u8>) -> Option<InboundEnvelopeV> {
    let j = sp_ws(s, 0);
    if !(0 <= j < s.len() && s[j] == 123u8) {
        None
    } else {
        match sp_env_members(s, j + 1, fuel_of(s), true, None) {
            None => None,
            Some(r) => {
                let k = sp_ws(s, r.1);
                if k == s.len() {
                    match r.0 {
                        Some(es) => Some(InboundEnvelopeV { entries: es }),
                        None => None,
                    }
                } else {
                    None
                }
            },
        }
    }
}

broadcast use crate::views::lemma_bytes_deep_view;

/// The timestamp field as the grammar sees it.
pub open spec fn view_ts(o: Option<i64>) -> Option<int> {
    match o {
        Some(v) => Some(v as int),
        None => None,
    }
}

/// The message field as the grammar sees it.
pub open spec fn view_msg(o: Option<(Option<Vec<u8>>, Option<Vec<u8>>)>) -> Option<(
    Option<Seq<u8>>,
    Option<Seq<u8>>,
)> {
    match o {
        Some(m) => Some((m.0.deep_view(), m.1.deep_view())),
        None => None,
    }
}

/// Copy `s[a .. b)` into an owned vector.
pub fn copy_range(s: &[u8], a: usize, b: usize) -> (r: Vec<u8>)
    requires
        a <= b <= s@.len(),
    ensures
        r@ == s@.subrange(a as int, b as int),
{
    let mut r: Vec<u8> = Vec::new();
    let mut i = a;
    while i < b
        invariant
            a <= i <= b <= s@.len(),
            r@ == s@.subrange(a as int, i as int),
        decreases b - i,
    {
        r.push(s[i]);
        proof {
            assert(r@ =~= s@.subrange(a as int, i + 1));
        }
        i += 1;
    }
    r
}

fn k_entry() -> (r: Vec<u8>)
    ensures
        r@ == entry_key(),
{
    let mut v: Vec<u8> = Vec::new();
    v.push(101u8);
    v.push(110u8);
    v.push(116u8);
    v.push(114u8);
    v.push(121u8);
    proof {
        assert(v@ =~= entry_key());
    }
    v
}

fn k_id() -> (r: Vec<u8>)
    ensures
        r@ == id_key(),
{
    let mut v: Vec<u8> = Vec::new();
    v.push(105u8);
    v.push(100u8);
    proof {
        assert(v@ =~= id_key());
    }
    v
}

fn k_messaging() -> (r: Vec<u8>)
    ensures
        r@ == messaging_key(),
{
    let mut v: Vec<u8> = Vec::new();
    v.push(109u8);
    v.push(101u8);
    v.push(115u8);
    v.push(115u8);
    v.push(97u8);
    v.push(103u8);
    v.push(105u8);
    v.push(110u8);
    v.push(103u8);
    proof {
        assert(v@ =~= messaging_key());
    }
    v
}

fn k_sender() -> (r: Vec<u8>)
    ensures
        r@ == sender_key(),
{
    let mut v: Vec<u8> = Vec::new();
    v.push(115u8);
    v.push(101u8);
    v.push(110u8);
    v.push(100u8);
    v.push(101u8);
    v.push(114u8);
    proof {
        assert(v@ =~= sender_key());
    }
    v
}

fn k_recipient() -> (r: Vec<u8>)
    ensures
        r@ == recipient_key(),
{
    let mut v: Vec<u8> = Vec::new();
    v.push(114u8);
    v.push(101u8);
    v.push(99u8);
    v.push(105u8);
    v.push(112u8);
    v.push(105u8);
    v.push(101u8);
    v.push(110u8);
    v.push(116u8);
    proof {
        assert(v@ =~= recipient_key());
    }
    v
}

fn k_timestamp() -> (r: Vec<u8>)
    ensures
        r@ == timestamp_key(),
{
    let mut v: Vec<u8> = Vec::new();
    v.push(116u8);
    v.push(105u8);
    v.push(109u8);
    v.push(101u8);
    v.push(115u8);
    v.push(116u8);
    v.push(97u8);
    v.push(109u8);
    v.push(112u8);
    proof {
        assert(v@ =~= timestamp_key());
    }
    v
}

fn k_message() -> (r: Vec<u8>)
    ensures
        r@ == message_key(),
{
    let mut v: Vec<u8> = Vec::new();
    v.push(109u8);
    v.push(101u8);
    v.push(115u8);
    v.push(115u8);
    v.push(97u8);
    v.push(103u8);
    v.push(101u8);
    proof {
        assert(v@ =~= message_key());
    }
    v
}

fn k_mid() -> (r: Vec<u8>)
    ensures
        r@ == mid_key(),
{
    let mut v: Vec<u8> = Vec::new();
    v.push(109u8);
    v.push(105u8);
    v.push(100u8);
    proof {
        assert(v@ =~= mid_key());
    }
    v
}

fn k_text() -> (r: Vec<u8>)
    ensures
        r@ == text_key(),
{
    let mut v: Vec<u8> = Vec::new();
    v.push(116u8);
    v.push(101u8);
    v.push(120u8);
    v.push(116u8);
    proof {
        assert(v@ =~= text_key());
    }
    v
}


fn skip_value(s: &[u8], i: usize, f: usize) -> (r: Option<usize>)
    requires
        i <= s@.len(),
    ensures
        match r {
            Some(j) => sp_skip_value(s@, i as int, f as nat) == Some(j as int) && j <= s@.len() && i <= j,
            None => sp_skip_value(s@, i as int, f as nat) is None,
        },
    decreases f,
{
    if f == 0 {
        return None;
    }
    let j = ws(s, i);
    if j >= s.len() {
        return None;
    }
    let c = s[j];
    if c == 34u8 {
        match parse_string(s, j) {
            Some(t) => Some(t.1),
            None => None,
        }
    } else if c == 123u8 {
        skip_members(s, j + 1, f - 1, true)
    } else if c == 91u8 {
        skip_elems(s, j + 1, f - 1, true)
    } else if c == 45u8 || (48u8 <= c && c <= 57u8) {
        Some(num_end(s, j))
    } else {
        parse_lit(s, j)
    }
}

fn skip_elems(s: &[u8], i: usize, f: usize, first: bool) -> (r: Option<usize>)
    requires
        i <= s@.len(),
    ensures
        match r {
            Some(j) => sp_skip_elems(s@, i as int, f as nat, first) == Some(j as int) && j
                <= s@.len() && i <= j,
            None => sp_skip_elems(s@, i as int, f as nat, first) is None,
        },
    decreases f,
{
    if f == 0 {
        return None;
    }
    let j = ws(s, i);
    if j >= s.len() {
        return None;
    }
    if s[j] == 93u8 && first {
        return Some(j + 1);
    }
    let j2 = match skip_value(s, j, f - 1) {
        Some(j2) => j2,
        None => {
            return None;
        },
    };
    let k = ws(s, j2);
    if k >= s.len() {
        return None;
    }
    if s[k] == 44u8 {
        skip_elems(s, k + 1, f - 1, false)
    } else if s[k] == 93u8 {
        Some(k + 1)
    } else {
        None
    }
}

fn skip_members(s: &[u8], i: usize, f: usize, first: bool) -> (r: Option<usize>)
    requires
        i <= s@.len(),
    ensures
        match r {
            Some(j) => sp_skip_members(s@, i as int, f as nat, first) == Some(j as int) && j
                <= s@.len() && i <= j,
            None => sp_skip_members(s@, i as int, f as nat, first) is None,
        },
    decreases f,
{
    if f == 0 {
        return None;
    }
    let j = ws(s, i);
    if j >= s.len() {
        return None;
    }
    if s[j] == 125u8 && first {
        return Some(j + 1);
    }
    let t = match parse_string(s, j) {
        Some(t) => t,
        None => {
            return None;
        },
    };
    let k = ws(s, t.1);
    if !(k < s.len() && s[k] == 58u8) {
        return None;
    }
    let j2 = match skip_value(s, k + 1, f - 1) {
        Some(j2) => j2,
        None => {
            return None;
        },
    };
    let k2 = ws(s, j2);
    if k2 >= s.len() {
        return None;
    }
    if s[k2] == 44u8 {
        skip_members(s, k2 + 1, f - 1, false)
    } else if s[k2] == 125u8 {
        Some(k2 + 1)
    } else {
        None
    }
}

fn id_members(s: &[u8], i: usize, f: usize, first: bool, id: Option<Vec<u8>>) -> (r: Option<
    (Vec<u8>, usize),
>)
    requires
        i <= s@.len(),
    ensures
        match r {
            Some(t) => sp_id_members(s@, i as int, f as nat, first, id.deep_view()) == Some(
                (t.0@, t.1 as int),
            ) && t.1 <= s@.len() && i <= t.1,
            None => sp_id_members(s@, i as int, f as nat, first, id.deep_view()) is None,
        },
    decreases f,
{
    if f == 0 {
        return None;
    }
    let j = ws(s, i);
    if j >= s.len() {
        return None;
    }
    if s[j] == 125u8 && first {
        return match id {
            Some(v) => Some((v, j + 1)),
            None => None,
        };
    }
    let t = match parse_string(s, j) {
        Some(t) => t,
        None => {
            return None;
        },
    };
    let k = ws(s, t.1);
    if !(k < s.len() && s[k] == 58u8) {
        return None;
    }
    let kid = k_id();
    let st: (Option<Vec<u8>>, usize) = if bytes_eq(t.0.as_slice(), kid.as_slice()) {
        let jj = ws(s, k + 1);
        match parse_string(s, jj) {
            Some(v) => (Some(v.0), v.1),
            None => {
                return None;
            },
        }
    } else {
        match skip_value(s, k + 1, f - 1) {
            Some(j2) => (id, j2),
            None => {
                return None;
            },
        }
    };
    let k2 = ws(s, st.1);
    if k2 >= s.len() {
        return None;
    }
    if s[k2] == 44u8 {
        id_members(s, k2 + 1, f - 1, false, st.0)
    } else if s[k2] == 125u8 {
        match st.0 {
            Some(v) => Some((v, k2 + 1)),
            None => None,
        }
    } else {
        None
    }
}

fn parse_id_obj(s: &[u8], i: usize, f: usize) -> (r: Option<(Vec<u8>, usize)>)
    requires
        i <= s@.len(),
    ensures
        match r {
            Some(t) => sp_id_obj(s@, i as int, f as nat) == Some((t.0@, t.1 as int)) && t.1
                <= s@.len() && i <= t.1,
            None => sp_id_obj(s@, i as int, f as nat) is None,
        },
    decreases f,
{
    if f == 0 {
        return None;
    }
    let j = ws(s, i);
    if j < s.len() && s[j] == 123u8 {
        id_members(s, j + 1, f - 1, true, None)
    } else {
        None
    }
}

fn msg_members(
    s: &[u8],
    i: usize,
    f: usize,
    first: bool,
    mid: Option<Vec<u8>>,
    text: Option<Vec<u8>>,
) -> (r: Option<((Option<Vec<u8>>, Option<Vec<u8>>), usize)>)
    requires
        i <= s@.len(),
    ensures
        match r {
            Some(t) => sp_msg_members(
                s@,
                i as int,
                f as nat,
                first,
                mid.deep_view(),
                text.deep_view(),
            ) == Some(((t.0.0.deep_view(), t.0.1.deep_view()), t.1 as int)) && t.1 <= s@.len() && i <= t.1,
            None => sp_msg_members(
                s@,
                i as int,
                f as nat,
                first,
                mid.deep_view(),
                text.deep_view(),
            ) is None,
        },
    decreases f,
{
    if f == 0 {
        return None;
    }
    let j = ws(s, i);
    if j >= s.len() {
        return None;
    }
    if s[j] == 125u8 && first {
        return Some(((mid, text), j + 1));
    }
    let t = match parse_string(s, j) {
        Some(t) => t,
        None => {
            return None;
        },
    };
    let k = ws(s, t.1);
    if !(k < s.len() && s[k] == 58u8) {
        return None;
    }
    let kmid = k_mid();
    let ktext = k_text();
    let st: ((Option<Vec<u8>>, Option<Vec<u8>>), usize) = if bytes_eq(
        t.0.as_slice(),
        kmid.as_slice(),
    ) {
        let jj = ws(s, k + 1);
        match parse_string(s, jj) {
            Some(v) => ((Some(v.0), text), v.1),
            None => {
                return None;
            },
        }
    } else if bytes_eq(t.0.as_slice(), ktext.as_slice()) {
        let jj = ws(s, k + 1);
        match parse_string(s, jj) {
            Some(v) => ((mid, Some(v.0)), v.1),
            None => {
                return None;
            },
        }
    } else {
        match skip_value(s, k + 1, f - 1) {
            Some(j2) => ((mid, text), j2),
            None => {
                return None;
            },
        }
    };
    let k2 = ws(s, st.1);
    if k2 >= s.len() {
        return None;
    }
    if s[k2] == 44u8 {
        msg_members(s, k2 + 1, f - 1, false, st.0.0, st.0.1)
    } else if s[k2] == 125u8 {
        Some((st.0, k2 + 1))
    } else {
        None
    }
}

fn parse_message(s: &[u8], i: usize, f: usize) -> (r: Option<(
    (Option<Vec<u8>>, Option<Vec<u8>>),
    usize,
)>)
    requires
        i <= s@.len(),
    ensures
        match r {
            Some(t) => sp_message(s@, i as int, f as nat) == Some(
                ((t.0.0.deep_view(), t.0.1.deep_view()), t.1 as int),
            ) && t.1 <= s@.len() && i <= t.1,
            None => sp_message(s@, i as int, f as nat) is None,
        },
    decreases f,
{
    if f == 0 {
        return None;
    }
    let j = ws(s, i);
    if j < s.len() && s[j] == 123u8 {
        msg_members(s, j + 1, f - 1, true, None, None)
    } else {
        None
    }
}

#[verifier::rlimit(60)]
fn event_members(
    s: &[u8],
    i: usize,
    f: usize,
    first: bool,
    sender: Option<Vec<u8>>,
    recipient: Option<Vec<u8>>,
    ts: Option<i64>,
    msg: Option<(Option<Vec<u8>>, Option<Vec<u8>>)>,
) -> (r: Option<(
    (Option<Vec<u8>>, Option<Vec<u8>>, Option<i64>, Option<(Option<Vec<u8>>, Option<Vec<u8>>)>),
    usize,
)>)
    requires
        i <= s@.len(),
    ensures
        match r {
            Some(t) => sp_event_members(
                s@,
                i as int,
                f as nat,
                first,
                sender.deep_view(),
                recipient.deep_view(),
                view_ts(ts),
                view_msg(msg),
            ) == Some(
                (
                    (t.0.0.deep_view(), t.0.1.deep_view(), view_ts(t.0.2), view_msg(t.0.3)),
                    t.1 as int,
                ),
            ) && t.1 <= s@.len() && i <= t.1,
            None => sp_event_members(
                s@,
                i as int,
                f as nat,
                first,
                sender.deep_view(),
                recipient.deep_view(),
                view_ts(ts),
                view_msg(msg),
            ) is None,
        },
    decreases f,
{
    if f == 0 {
        return None;
    }
    let j = ws(s, i);
    if j >= s.len() {
        return None;
    }
    if s[j] == 125u8 && first {
        return Some(((sender, recipient, ts, msg), j + 1));
    }
    let t = match parse_string(s, j) {
        Some(t) => t,
        None => {
            return None;
        },
    };
    let k = ws(s, t.1);
    if !(k < s.len() && s[k] == 58u8) {
        return None;
    }
    let ksender = k_sender();
    let krecipient = k_recipient();
    let ktimestamp = k_timestamp();
    let kmessage = k_message();
    let st: (
        (Option<Vec<u8>>, Option<Vec<u8>>, Option<i64>, Option<(Option<Vec<u8>>, Option<Vec<u8>>)>),
        usize,
    ) = if bytes_eq(t.0.as_slice(), ksender.as_slice()) {
        match parse_id_obj(s, k + 1, f - 1) {
            Some(v) => ((Some(v.0), recipient, ts, msg), v.1),
            None => {
                return None;
            },
        }
    } else if bytes_eq(t.0.as_slice(), krecipient.as_slice()) {
        match parse_id_obj(s, k + 1, f - 1) {
            Some(v) => ((sender, Some(v.0), ts, msg), v.1),
            None => {
                return None;
            },
        }
    } else if bytes_eq(t.0.as_slice(), ktimestamp.as_slice()) {
        let jj = ws(s, k + 1);
        match parse_i64(s, jj) {
            Some(v) => ((sender, recipient, Some(v.0), msg), v.1),
            None => {
                return None;
            },
        }
    } else if bytes_eq(t.0.as_slice(), kmessage.as_slice()) {
        match parse_message(s, k + 1, f - 1) {
            Some(v) => ((sender, recipient, ts, Some(v.0)), v.1),
            None => {
                return None;
            },
        }
    } else {
        match skip_value(s, k + 1, f - 1) {
            Some(j2) => ((sender, recipient, ts, msg), j2),
            None => {
                return None;
            },
        }
    };
    let k2 = ws(s, st.1);
    if k2 >= s.len() {
        return None;
    }
    if s[k2] == 44u8 {
        event_members(s, k2 + 1, f - 1, false, st.0.0, st.0.1, st.0.2, st.0.3)
    } else if s[k2] == 125u8 {
        Some((st.0, k2 + 1))
    } else {
        None
    }
}

fn parse_event(s: &[u8], i: usize, f: usize) -> (r: Option<(MessagingEvent, usize)>)
    requires
        i <= s@.len(),
    ensures
        match r {
            Some(t) => sp_event(s@, i as int, f as nat) == Some((t.0.deep_view(), t.1 as int))
                && t.1 <= s@.len() && i <= t.1,
            None => sp_event(s@, i as int, f as nat) is None,
        },
    decreases f,
{
    if f == 0 {
        return None;
    }
    let j = ws(s, i);
    if !(j < s.len() && s[j] == 123u8) {
        return None;
    }
    let r = match event_members(s, j + 1, f - 1, true, None, None, None, None) {
        Some(r) => r,
        None => {
            return None;
        },
    };
    let end = r.1;
    let (sender, recipient, ts, msg) = r.0;
    let sid = match sender {
        Some(v) => v,
        None => {
            return None;
        },
    };
    let rid = match recipient {
        Some(v) => v,
        None => {
            return None;
        },
    };
    let tsv = match ts {
        Some(v) => v,
        None => {
            return None;
        },
    };
    let payload = match msg {
        Some((Some(mid), Some(text))) => EventPayload::Message { mid, text },
        _ => EventPayload::Other { raw: copy_range(s, j, end) },
    };
    let ev = MessagingEvent { sender_id: sid, recipient_id: rid, timestamp: tsv, payload };
    Some((ev, end))
}

fn event_list(s: &[u8], i: usize, f: usize, first: bool, acc: Vec<MessagingEvent>) -> (r: Option<
    (Vec<MessagingEvent>, usize),
>)
    requires
        i <= s@.len(),
    ensures
        match r {
            Some(t) => sp_event_list(s@, i as int, f as nat, first, acc.deep_view()) == Some(
                (t.0.deep_view(), t.1 as int),
            ) && t.1 <= s@.len() && i <= t.1,
            None => sp_event_list(s@, i as int, f as nat, first, acc.deep_view()) is None,
        },
    decreases f,
{
    if f == 0 {
        return None;
    }
    let j = ws(s, i);
    if j >= s.len() {
        return None;
    }
    if s[j] == 93u8 && first {
        return Some((acc, j + 1));
    }
    let t = match parse_event(s, j, f - 1) {
        Some(t) => t,
        None => {
            return None;
        },
    };
    let k = ws(s, t.1);
    if k >= s.len() {
        return None;
    }
    let ghost acc0 = acc.deep_view();
    let mut acc = acc;
    let ghost evv = t.0.deep_view();
    acc.push(t.0);
    proof {
        assert(acc.deep_view() =~= acc0.push(evv));
    }
    if s[k] == 44u8 {
        event_list(s, k + 1, f - 1, false, acc)
    } else if s[k] == 93u8 {
        Some((acc, k + 1))
    } else {
        None
    }
}

fn parse_events(s: &[u8], i: usize, f: usize) -> (r: Option<(Vec<MessagingEvent>, usize)>)
    requires
        i <= s@.len(),
    ensures
        match r {
            Some(t) => sp_events(s@, i as int, f as nat) == Some((t.0.deep_view(), t.1 as int))
                && t.1 <= s@.len() && i <= t.1,
            None => sp_events(s@, i as int, f as nat) is None,
        },
    decreases f,
{
    if f == 0 {
        return None;
    }
    let j = ws(s, i);
    if j < s.len() && s[j] == 91u8 {
        let acc: Vec<MessagingEvent> = Vec::new();
        proof {
            assert(acc.deep_view() =~= Seq::<MessagingEventV>::empty());
        }
        event_list(s, j + 1, f - 1, true, acc)
    } else {
        None
    }
}

fn entry_members(
    s: &[u8],
    i: usize,
    f: usize,
    first: bool,
    id: Option<Vec<u8>>,
    evs: Option<Vec<MessagingEvent>>,
) -> (r: Option<((Option<Vec<u8>>, Option<Vec<MessagingEvent>>), usize)>)
    requires
        i <= s@.len(),
    ensures
        match r {
            Some(t) => sp_entry_members(
                s@,
                i as int,
                f as nat,
                first,
                id.deep_view(),
                evs.deep_view(),
            ) == Some(((t.0.0.deep_view(), t.0.1.deep_view()), t.1 as int)) && t.1 <= s@.len() && i <= t.1,
            None => sp_entry_members(
                s@,
                i as int,
                f as nat,
                first,
                id.deep_view(),
                evs.deep_view(),
            ) is None,
        },
    decreases f,
{
    if f == 0 {
        return None;
    }
    let j = ws(s, i);
    if j >= s.len() {
        return None;
    }
    if s[j] == 125u8 && first {
        return Some(((id, evs), j + 1));
    }
    let t = match parse_string(s, j) {
        Some(t) => t,
        None => {
            return None;
        },
    };
    let k = ws(s, t.1);
    if !(k < s.len() && s[k] == 58u8) {
        return None;
    }
    let kid = k_id();
    let kmessaging = k_messaging();
    let st: ((Option<Vec<u8>>, Option<Vec<MessagingEvent>>), usize) = if bytes_eq(
        t.0.as_slice(),
        kid.as_slice(),
    ) {
        let jj = ws(s, k + 1);
        match parse_string(s, jj) {
            Some(v) => ((Some(v.0), evs), v.1),
            None => {
                return None;
            },
        }
    } else if bytes_eq(t.0.as_slice(), kmessaging.as_slice()) {
        match parse_events(s, k + 1, f - 1) {
            Some(v) => ((id, Some(v.0)), v.1),
            None => {
                return None;
            },
        }
    } else {
        match skip_value(s, k + 1, f - 1) {
            Some(j2) => ((id, evs), j2),
            None => {
                return None;
            },
        }
    };
    let k2 = ws(s, st.1);
    if k2 >= s.len() {
        return None;
    }
    if s[k2] == 44u8 {
        entry_members(s, k2 + 1, f - 1, false, st.0.0, st.0.1)
    } else if s[k2] == 125u8 {
        Some((st.0, k2 + 1))
    } else {
        None
    }
}

fn parse_entry(s: &[u8], i: usize, f: usize) -> (r: Option<(Entry, usize)>)
    requires
        i <= s@.len(),
    ensures
        match r {
            Some(t) => sp_entry(s@, i as int, f as nat) == Some((t.0.deep_view(), t.1 as int))
                && t.1 <= s@.len() && i <= t.1,
            None => sp_entry(s@, i as int, f as nat) is None,
        },
    decreases f,
{
    if f == 0 {
        return None;
    }
    let j = ws(s, i);
    if !(j < s.len() && s[j] == 123u8) {
        return None;
    }
    let r = match entry_members(s, j + 1, f - 1, true, None, None) {
        Some(r) => r,
        None => {
            return None;
        },
    };
    let (id, evs) = r.0;
    let idv = match id {
        Some(v) => v,
        None => {
            return None;
        },
    };
    let evsv = match evs {
        Some(v) => v,
        None => {
            return None;
        },
    };
    Some((Entry { page_id: idv, events: evsv }, r.1))
}

fn entry_list(s: &[u8], i: usize, f: usize, first: bool, acc: Vec<Entry>) -> (r: Option<
    (Vec<Entry>, usize),
>)
    requires
        i <= s@.len(),
    ensures
        match r {
            Some(t) => sp_entry_list(s@, i as int, f as nat, first, acc.deep_view()) == Some(
                (t.0.deep_view(), t.1 as int),
            ) && t.1 <= s@.len() && i <= t.1,
            None => sp_entry_list(s@, i as int, f as nat, first, acc.deep_view()) is None,
        },
    decreases f,
{
    if f == 0 {
        return None;
    }
    let j = ws(s, i);
    if j >= s.len() {
        return None;
    }
    if s[j] == 93u8 && first {
        return Some((acc, j + 1));
    }
    let t = match parse_entry(s, j, f - 1) {
        Some(t) => t,
        None => {
            return None;
        },
    };
    let k = ws(s, t.1);
    if k >= s.len() {
        return None;
    }
    let ghost acc0 = acc.deep_view();
    let mut acc = acc;
    let ghost env = t.0.deep_view();
    acc.push(t.0);
    proof {
        assert(acc.deep_view() =~= acc0.push(env));
    }
    if s[k] == 44u8 {
        entry_list(s, k + 1, f - 1, false, acc)
    } else if s[k] == 93u8 {
        Some((acc, k + 1))
    } else {
        None
    }
}

fn parse_entries(s: &[u8], i: usize, f: usize) -> (r: Option<(Vec<Entry>, usize)>)
    requires
        i <= s@.len(),
    ensures
        match r {
            Some(t) => sp_entries(s@, i as int, f as nat) == Some((t.0.deep_view(), t.1 as int))
                && t.1 <= s@.len() && i <= t.1,
            None => sp_entries(s@, i as int, f as nat) is None,
        },
    decreases f,
{
    if f == 0 {
        return None;
    }
    let j = ws(s, i);
    if j < s.len() && s[j] == 91u8 {
        let acc: Vec<Entry> = Vec::new();
        proof {
            assert(acc.deep_view() =~= Seq::<EntryV>::empty());
        }
        entry_list(s, j + 1, f - 1, true, acc)
    } else {
        None
    }
}

fn env_members(s: &[u8], i: usize, f: usize, first: bool, acc: Option<Vec<Entry>>) -> (r: Option<
    (Option<Vec<Entry>>, usize),
>)
    requires
        i <= s@.len(),
    ensures
        match r {
            Some(t) => sp_env_members(s@, i as int, f as nat, first, acc.deep_view()) == Some(
                (t.0.deep_view(), t.1 as int),
            ) && t.1 <= s@.len() && i <= t.1,
            None => sp_env_members(s@, i as int, f as nat, first, acc.deep_view()) is None,
        },
    decreases f,
{
    if f == 0 {
        return None;
    }
    let j = ws(s, i);
    if j >= s.len() {
        return None;
    }
    if s[j] == 125u8 && first {
        return Some((acc, j + 1));
    }
    let t = match parse_string(s, j) {
        Some(t) => t,
        None => {
            return None;
        },
    };
    let k = ws(s, t.1);
    if !(k < s.len() && s[k] == 58u8) {
        return None;
    }
    let kentry = k_entry();
    let st: (Option<Vec<Entry>>, usize) = if bytes_eq(t.0.as_slice(), kentry.as_slice()) {
        match parse_entries(s, k + 1, f - 1) {
            Some(v) => (Some(v.0), v.1),
            None => {
                return None;
            },
        }
    } else {
        match skip_value(s, k + 1, f - 1) {
            Some(j2) => (acc, j2),
            None => {
                return None;
            },
        }
    };
    let k2 = ws(s, st.1);
    if k2 >= s.len() {
        return None;
    }
    if s[k2] == 44u8 {
        env_members(s, k2 + 1, f - 1, false, st.0)
    } else if s[k2] == 125u8 {
        Some((st.0, k2 + 1))
    } else {
        None
    }
}

/// Parse a delivery body into its envelope, or report it malformed. The
/// result is exactly what the envelope grammar assigns to the bytes.
pub fn parse_envelope(body: &[u8]) -> (r: Result<InboundEnvelope, MalformedPayload>)
    requires
        body@.len() < 0x10000000,
    ensures
        match r {
            Ok(env) => sp_envelope(body@) == Some(env.deep_view()),
            Err(e) => sp_envelope(body@) is None,
        },
{
    let f = 2 * body.len() + 4;
    let j = ws(body, 0);
    if !(j < body.len() && body[j] == 123u8) {
        return Err(MalformedPayload);
    }
    let r = match env_members(body, j + 1, f, true, None) {
        Some(r) => r,
        None => {
            return Err(MalformedPayload);
        },
    };
    let k = ws(body, r.1);
    if k != body.len() {
        return Err(MalformedPayload);
    }
    match r.0 {
        Some(es) => Ok(InboundEnvelope { entries: es }),
        None => Err(MalformedPayload),
    }
}

} // verus!
