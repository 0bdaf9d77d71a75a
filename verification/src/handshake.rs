//! The subscription handshake: parse the request's query string, compare the
//! supplied token against the configured verification token, and echo the
//! supplied challenge on a match. On a mismatch the response carries a fixed
//! diagnostic and the original query string, and nothing else: it does not
//! depend on the configured token.

use vstd::prelude::*;
use crate::payload::copy_range;
use crate::registry::bytes_eq;
use crate::signature::is_hex_digit;
use crate::signature::hex_val;

verus! {

broadcast use crate::views::lemma_bytes_deep_view;

/// An HTTP-shaped answer: a status code and a body.
pub struct Response {
    pub status: u16,
    pub body: Vec<u8>,
}

/// Spec-level mirror of `Response`.
pub struct ResponseV {
    pub status: int,
    pub body: Seq<u8>,
}

impl DeepView for Response {
    type V = ResponseV;

    open spec fn deep_view(&self) -> ResponseV {
        ResponseV { status: self.status as int, body: self.body@ }
    }
}

/// Percent-decoding of a form-encoded piece from position `i` on: `%xx`
/// becomes the byte the two hex digits denote, `+` becomes a space, an
/// invalid escape passes through unchanged.
pub open spec fn pct_decode_from(s: Seq<u8>, i: int) -> Seq<u8>
    decreases s.len() - i,
{
    if !(0 <= i < s.len()) {
        seq![]
    } else if s[i] == 37u8 && i + 2 < s.len() && is_hex_digit(s[i + 1]) && is_hex_digit(s[i + 2]) {
        seq![(hex_val(s[i + 1]) * 16 + hex_val(s[i + 2])) as u8] + pct_decode_from(s, i + 3)
    } else if s[i] == 43u8 {
        seq![32u8] + pct_decode_from(s, i + 1)
    } else {
        seq![s[i]] + pct_decode_from(s, i + 1)
    }
}

/// Percent-decoding of a whole form-encoded piece.
pub open spec fn pct_decoded(s: Seq<u8>) -> Seq<u8> {
    pct_decode_from(s, 0)
}

/// The end of the query segment starting at `i`: the next `&` or the end.
pub open spec fn seg_end(s: Seq<u8>, i: int) -> int
    decreases s.len() - i,
{
    if 0 <= i < s.len() && s[i] != 38u8 {
        seg_end(s, i + 1)
    } else {
        i
    }
}

proof fn lemma_seg_end(s: Seq<u8>, i: int)
    requires
        0 <= i <= s.len(),
    ensures
        i <= seg_end(s, i) <= s.len(),
    decreases s.len() - i,
{
    if i < s.len() && s[i] != 38u8 {
        lemma_seg_end(s, i + 1);
    }
}

/// The position of the first `=` in `s[i .. e)`, or `e` when there is none.
pub open spec fn eq_pos(s: Seq<u8>, i: int, e: int) -> int
    decreases e - i,
{
    if i < e && s[i] != 61u8 {
        eq_pos(s, i + 1, e)
    } else {
        i
    }
}

/// The decoded key and value of the segment `s[a .. e)`: split at the first
/// `=`, both halves percent-decoded; a segment without `=` is a key with an
/// empty value.
pub open spec fn pair_of_segment(s: Seq<u8>, a: int, e: int) -> (Seq<u8>, Seq<u8>) {
    let p = eq_pos(s, a, e);
    if p >= e {
        (pct_decoded(s.subrange(a, e)), seq![])
    } else {
        (pct_decoded(s.subrange(a, p)), pct_decoded(s.subrange(p + 1, e)))
    }
}

/// The decoded key-value pairs of the query string from `i` on, in order;
/// empty segments contribute nothing.
pub open spec fn params_from(s: Seq<u8>, i: int) -> Seq<(Seq<u8>, Seq<u8>)>
    decreases s.len() - i,
    via params_from_dec
{
    if !(0 <= i < s.len()) {
        seq![]
    } else {
        let e = seg_end(s, i);
        let pair_part: Seq<(Seq<u8>, Seq<u8>)> = if e == i {
            seq![]
        } else {
            seq![pair_of_segment(s, i, e)]
        };
        let rest: Seq<(Seq<u8>, Seq<u8>)> = if e >= s.len() {
            seq![]
        } else {
            params_from(s, e + 1)
        };
        pair_part + rest
    }
}

#[via_fn]
proof fn params_from_dec(s: Seq<u8>, i: int) {
    if 0 <= i < s.len() {
        lemma_seg_end(s, i);
    }
}

/// The value of the first pair whose key matches, if any.
pub open spec fn param_value(ps: Seq<(Seq<u8>, Seq<u8>)>, key: Seq<u8>) -> Option<Seq<u8>>
    decreases ps.len(),
{
    if ps.len() == 0 {
        None
    } else if ps[0].0 == key {
        Some(ps[0].1)
    } else {
        param_value(ps.drop_first(), key)
    }
}

/// The token parameter of the handshake request.
pub open spec fn verify_token_key() -> Seq<u8> {
    seq![104u8, 117u8, 98u8, 46u8, 118u8, 101u8, 114u8, 105u8, 102u8, 121u8, 95u8, 116u8, 111u8, 107u8, 101u8, 110u8]
}

/// The challenge parameter of the handshake request.
pub open spec fn challenge_key() -> Seq<u8> {
    seq![104u8, 117u8, 98u8, 46u8, 99u8, 104u8, 97u8, 108u8, 108u8, 101u8, 110u8, 103u8, 101u8]
}

/// The fixed diagnostic prefix of a failed handshake's body.
pub open spec fn fail_prefix() -> Seq<u8> {
    seq![73u8, 110u8, 99u8, 111u8, 114u8, 114u8, 101u8, 99u8, 116u8, 32u8, 119u8, 101u8, 98u8, 104u8, 111u8, 111u8, 107u8, 95u8, 118u8, 101u8, 114u8, 105u8, 102u8, 121u8, 95u8, 116u8, 111u8, 107u8, 101u8, 110u8, 32u8, 111u8, 114u8, 32u8, 78u8, 111u8, 32u8, 104u8, 117u8, 98u8, 46u8, 99u8, 104u8, 97u8, 108u8, 108u8, 101u8, 110u8, 103u8, 101u8, 32u8, 105u8, 110u8, 32u8]
}

/// What the handshake answers for a query under a configured token: the
/// challenge verbatim when the query's token parameter equals the configured
/// token and a challenge parameter is present, and `None` otherwise.
pub open spec fn hs_challenge(query: Seq<u8>, token: Seq<u8>) -> Option<Seq<u8>> {
    let ps = params_from(query, 0);
    if param_value(ps, verify_token_key()) == Some(token) {
        param_value(ps, challenge_key())
    } else {
        None
    }
}

/// The handshake response: the challenge with a success status on a match,
/// else a client error whose body is the fixed diagnostic and the original
/// query — a function of the query alone, never of the configured token.
pub open spec fn handshake_spec(query: Seq<u8>, token: Seq<u8>) -> ResponseV {
    match hs_challenge(query, token) {
        Some(c) => ResponseV { status: 200, body: c },
        None => ResponseV { status: 400, body: fail_prefix() + query },
    }
}

fn vt_key_vec() -> (r: Vec<u8>)
    ensures
        r@ == verify_token_key(),
{
    let mut v: Vec<u8> = Vec::new();
    v.push(104u8);
    v.push(117u8);
    v.push(98u8);
    v.push(46u8);
    v.push(118u8);
    v.push(101u8);
    v.push(114u8);
    v.push(105u8);
    v.push(102u8);
    v.push(121u8);
    v.push(95u8);
    v.push(116u8);
    v.push(111u8);
    v.push(107u8);
    v.push(101u8);
    v.push(110u8);
    proof {
        assert(v@ =~= verify_token_key());
    }
    v
}

fn ch_key_vec() -> (r: Vec<u8>)
    ensures
        r@ == challenge_key(),
{
    let mut v: Vec<u8> = Vec::new();
    v.push(104u8);
    v.push(117u8);
    v.push(98u8);
    v.push(46u8);
    v.push(99u8);
    v.push(104u8);
    v.push(97u8);
    v.push(108u8);
    v.push(108u8);
    v.push(101u8);
    v.push(110u8);
    v.push(103u8);
    v.push(101u8);
    proof {
        assert(v@ =~= challenge_key());
    }
    v
}

fn fail_prefix_vec() -> (r: Vec<u8>)
    ensures
        r@ == fail_prefix(),
{
    let mut v: Vec<u8> = Vec::new();
    v.push(73u8);
    v.push(110u8);
    v.push(99u8);
    v.push(111u8);
    v.push(114u8);
    v.push(114u8);
    v.push(101u8);
    v.push(99u8);
    v.push(116u8);
    v.push(32u8);
    v.push(119u8);
    v.push(101u8);
    v.push(98u8);
    v.push(104u8);
    v.push(111u8);
    v.push(111u8);
    v.push(107u8);
    v.push(95u8);
    v.push(118u8);
    v.push(101u8);
    v.push(114u8);
    v.push(105u8);
    v.push(102u8);
    v.push(121u8);
    v.push(95u8);
    v.push(116u8);
    v.push(111u8);
    v.push(107u8);
    v.push(101u8);
    v.push(110u8);
    v.push(32u8);
    v.push(111u8);
    v.push(114u8);
    v.push(32u8);
    v.push(78u8);
    v.push(111u8);
    v.push(32u8);
    v.push(104u8);
    v.push(117u8);
    v.push(98u8);
    v.push(46u8);
    v.push(99u8);
    v.push(104u8);
    v.push(97u8);
    v.push(108u8);
    v.push(108u8);
    v.push(101u8);
    v.push(110u8);
    v.push(103u8);
    v.push(101u8);
    v.push(32u8);
    v.push(105u8);
    v.push(110u8);
    v.push(32u8);
    proof {
        assert(v@ =~= fail_prefix());
    }
    v
}

/// Percent-decode a form-encoded piece.
pub fn pct_decode(s: &[u8]) -> (r: Vec<u8>)
    ensures
        r@ == pct_decoded(s@),
{
    let mut out: Vec<u8> = Vec::new();
    let mut i: usize = 0;
    proof {
        assert(Seq::<u8>::empty() + pct_decode_from(s@, 0) =~= pct_decode_from(s@, 0));
    }
    while i < s.len()
        invariant
            i <= s@.len(),
            pct_decoded(s@) == out@ + pct_decode_from(s@, i as int),
        decreases s@.len() - i,
    {
        let ghost pre = out@;
        let rem = s.len() - i;
        let c = s[i];
        if c == 37u8 && rem > 2 && crate::signature::is_hex_digit_exec(s[i + 1])
            && crate::signature::is_hex_digit_exec(s[i + 2]) {
            let hi = crate::signature::hex_val_exec(s[i + 1]);
            let lo = crate::signature::hex_val_exec(s[i + 2]);
            let b = hi * 16 + lo;
            out.push(b);
            proof {
                assert(pct_decode_from(s@, i as int) == seq![b] + pct_decode_from(s@, i + 3));
                assert(pre + (seq![b] + pct_decode_from(s@, i + 3)) =~= (pre + seq![b])
                    + pct_decode_from(s@, i + 3));
                assert(pre + seq![b] =~= out@);
            }
            i += 3;
        } else if c == 43u8 {
            out.push(32u8);
            proof {
                assert(pct_decode_from(s@, i as int) == seq![32u8] + pct_decode_from(s@, i + 1));
                assert(pre + (seq![32u8] + pct_decode_from(s@, i + 1)) =~= (pre + seq![32u8])
                    + pct_decode_from(s@, i + 1));
                assert(pre + seq![32u8] =~= out@);
            }
            i += 1;
        } else {
            out.push(c);
            proof {
                assert(pct_decode_from(s@, i as int) == seq![c] + pct_decode_from(s@, i + 1));
                assert(pre + (seq![c] + pct_decode_from(s@, i + 1)) =~= (pre + seq![c])
                    + pct_decode_from(s@, i + 1));
                assert(pre + seq![c] =~= out@);
            }
            i += 1;
        }
    }
    proof {
        assert(out@ + pct_decode_from(s@, i as int) =~= out@);
    }
    out
}

/// Parse a query string into its decoded key-value pairs, in order.
pub fn parse_params(q: &[u8]) -> (r: Vec<(Vec<u8>, Vec<u8>)>)
    ensures
        r.deep_view() == params_from(q@, 0),
{
    let mut out: Vec<(Vec<u8>, Vec<u8>)> = Vec::new();
    let mut i: usize = 0;
    proof {
        assert(out.deep_view() =~= Seq::<(Seq<u8>, Seq<u8>)>::empty());
        assert(out.deep_view() + params_from(q@, 0) =~= params_from(q@, 0));
    }
    while i < q.len()
        invariant
            i <= q@.len(),
            params_from(q@, 0) == out.deep_view() + params_from(q@, i as int),
        decreases q@.len() - i,
    {
        let ghost i0 = i as int;
        let ghost pre = out.deep_view();
        let mut e = i;
        while e < q.len() && q[e] != 38u8
            invariant
                i <= e <= q@.len(),
                seg_end(q@, i as int) == seg_end(q@, e as int),
            decreases q@.len() - e,
        {
            e += 1;
        }
        proof {
            assert(seg_end(q@, i0) == e as int);
        }
        if e > i {
            let mut p = i;
            while p < e && q[p] != 61u8
                invariant
                    i <= p <= e <= q@.len(),
                    eq_pos(q@, i as int, e as int) == eq_pos(q@, p as int, e as int),
                decreases e - p,
            {
                p += 1;
            }
            proof {
                assert(eq_pos(q@, i0, e as int) == p as int);
            }
            let pair: (Vec<u8>, Vec<u8>) = if p < e {
                let kraw = copy_range(q, i, p);
                let vraw = copy_range(q, p + 1, e);
                (pct_decode(kraw.as_slice()), pct_decode(vraw.as_slice()))
            } else {
                let kraw = copy_range(q, i, e);
                (pct_decode(kraw.as_slice()), Vec::new())
            };
            proof {
                assert(pair.deep_view() == pair_of_segment(q@, i0, e as int));
            }
            out.push(pair);
            proof {
                assert(out.deep_view() =~= pre.push(pair_of_segment(q@, i0, e as int)));
                assert(pre.push(pair_of_segment(q@, i0, e as int)) =~= pre + seq![
                    pair_of_segment(q@, i0, e as int),
                ]);
            }
        }
        if e < q.len() {
            i = e + 1;
        } else {
            i = e;
        }
        proof {
            let pair_part: Seq<(Seq<u8>, Seq<u8>)> = if e as int == i0 {
                seq![]
            } else {
                seq![pair_of_segment(q@, i0, e as int)]
            };
            let rest: Seq<(Seq<u8>, Seq<u8>)> = if e as int >= q@.len() {
                seq![]
            } else {
                params_from(q@, e + 1)
            };
            assert(params_from(q@, i0) == pair_part + rest);
            assert(out.deep_view() =~= pre + pair_part);
            assert((pre + pair_part) + rest =~= pre + (pair_part + rest));
            assert(params_from(q@, i as int) == rest) by {
                if e as int >= q@.len() {
                    assert(i as int == e as int);
                }
            }
        }
    }
    proof {
        assert(out.deep_view() + params_from(q@, i as int) =~= out.deep_view());
    }
    out
}

/// The value of the first parameter with the given key, if any.
pub fn get_param(ps: &Vec<(Vec<u8>, Vec<u8>)>, key: &[u8]) -> (r: Option<Vec<u8>>)
    ensures
        r.deep_view() == param_value(ps.deep_view(), key@),
{
    let mut i: usize = 0;
    proof {
        assert(ps.deep_view().subrange(0, ps.deep_view().len() as int) =~= ps.deep_view());
    }
    while i < ps.len()
        invariant
            i <= ps@.len(),
            param_value(ps.deep_view(), key@) == param_value(
                ps.deep_view().subrange(i as int, ps.deep_view().len() as int),
                key@,
            ),
        decreases ps@.len() - i,
    {
        let ghost tail = ps.deep_view().subrange(i as int, ps.deep_view().len() as int);
        proof {
            assert(tail.drop_first() =~= ps.deep_view().subrange(
                i + 1,
                ps.deep_view().len() as int,
            ));
            assert(tail[0] == ps.deep_view()[i as int]);
        }
        if bytes_eq(ps[i].0.as_slice(), key) {
            let v = crate::dispatch::copy_bytes(ps[i].1.as_slice());
            proof {
                assert(v.deep_view() =~= ps.deep_view()[i as int].1);
            }
            return Some(v);
        }
        i += 1;
    }
    proof {
        assert(ps.deep_view().subrange(i as int, ps.deep_view().len() as int) =~= Seq::<
            (Seq<u8>, Seq<u8>),
        >::empty());
    }
    None
}

/// The challenge to echo for a handshake query, when the query's token
/// parameter equals the configured verification token and a challenge is
/// present; `None` otherwise.
pub fn verify_webhook_query(query: &[u8], verify_token: &[u8]) -> (r: Option<Vec<u8>>)
    ensures
        r.deep_view() == hs_challenge(query@, verify_token@),
{
    let ps = parse_params(query);
    let vtk = vt_key_vec();
    match get_param(&ps, vtk.as_slice()) {
        Some(t) => {
            if bytes_eq(t.as_slice(), verify_token) {
                let chk = ch_key_vec();
                get_param(&ps, chk.as_slice())
            } else {
                None
            }
        },
        None => None,
    }
}

/// Answer a handshake request: the challenge with status 200 on a token
/// match, else status 400 with the fixed diagnostic and the original query.
pub fn handle_verification(query: &[u8], verify_token: &[u8]) -> (r: Response)
    ensures
        r.deep_view() == handshake_spec(query@, verify_token@),
{
    match verify_webhook_query(query, verify_token) {
        Some(c) => Response { status: 200, body: c },
        None => {
            let mut body = fail_prefix_vec();
            let mut qcopy = crate::dispatch::copy_bytes(query);
            body.append(&mut qcopy);
            proof {
                assert(body@ =~= fail_prefix() + query@);
            }
            Response { status: 400, body }
        },
    }
}

/// A matching token with a challenge present is answered with exactly that
/// challenge and a success status.
pub proof fn lemma_handshake_success(query: Seq<u8>, token: Seq<u8>, challenge: Seq<u8>)
    requires
        param_value(params_from(query, 0), verify_token_key()) == Some(token),
        param_value(params_from(query, 0), challenge_key()) == Some(challenge),
    ensures
        handshake_spec(query, token) == (ResponseV { status: 200, body: challenge }),
{
}

/// A token mismatch, a missing token or a missing challenge is answered with
/// a client error whose body is the fixed diagnostic and the query itself.
pub proof fn lemma_handshake_failure(query: Seq<u8>, token: Seq<u8>)
    requires
        param_value(params_from(query, 0), verify_token_key()) != Some(token) || (param_value(
            params_from(query, 0),
            challenge_key(),
        ) is None),
    ensures
        handshake_spec(query, token) == (ResponseV { status: 400, body: fail_prefix() + query }),
{
}

/// A failing handshake answers the same whatever the configured token is:
/// the failure response carries no information about the token's value.
pub proof fn lemma_handshake_failure_token_independent(query: Seq<u8>, t1: Seq<u8>, t2: Seq<u8>)
    requires
        (hs_challenge(query, t1) is None),
        (hs_challenge(query, t2) is None),
    ensures
        handshake_spec(query, t1) == handshake_spec(query, t2),
{
}

} // verus!
