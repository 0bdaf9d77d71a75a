//! Signature validation for delivery payloads: a keyed SHA-1 digest over the
//! raw request body, carried in a `sha1=<hex>` header, compared against the
//! locally computed digest in constant time. Every failure — missing header,
//! malformed header, wrong digest — is reported as the same uniform error.

use vstd::prelude::*;
use hmac::Mac;

verus! {

/// Uniform signature failure: a missing, malformed or mismatched signature
/// header is reported identically, leaking nothing about the cause.
#[derive(Clone, Copy, Debug, PartialEq, Eq, Structural)]
pub struct SignatureInvalid;

/// A hexadecimal digit: `0-9`, `a-f` or `A-F`.
pub open spec fn is_hex_digit(c: u8) -> bool {
    (48u8 <= c && c <= 57u8) || (97u8 <= c && c <= 102u8) || (65u8 <= c && c <= 70u8)
}

/// Numeric value of a hexadecimal digit.
pub open spec fn hex_val(c: u8) -> int {
    if 48u8 <= c && c <= 57u8 {
        c - 48u8
    } else if 97u8 <= c && c <= 102u8 {
        c - 97u8 + 10
    } else {
        c - 65u8 + 10
    }
}

/// Lower-case hexadecimal digit for a value in `[0, 16)`.
pub open spec fn hex_digit_of(n: int) -> u8 {
    if n < 10 {
        ((48u8 as int) + n) as u8
    } else {
        ((97u8 as int) + (n - 10)) as u8
    }
}

/// Hex encoding of a byte string: two lower-case digits per byte.
pub open spec fn hex_str_of(bytes: Seq<u8>) -> Seq<u8> {
    Seq::new(
        bytes.len() * 2,
        |i: int|
            if i % 2 == 0 {
                hex_digit_of((bytes[i / 2] as int) / 16)
            } else {
                hex_digit_of((bytes[i / 2] as int) % 16)
            },
    )
}

/// Whether a byte string is well-formed hex: even length, hex digits only.
pub open spec fn hex_decode_ok(s: Seq<u8>) -> bool {
    s.len() % 2 == 0 && (forall|i: int| 0 <= i < s.len() ==> is_hex_digit(s[i]))
}

/// The bytes a well-formed hex string denotes.
pub open spec fn hex_decoded(s: Seq<u8>) -> Seq<u8> {
    Seq::new(s.len() / 2, |i: int| (hex_val(s[2 * i]) * 16 + hex_val(s[2 * i + 1])) as u8)
}

fn hex_digit_exec(n: u8) -> (r: u8)
    requires
        n < 16,
    ensures
        r == hex_digit_of(n as int),
{
    if n < 10 {
        48u8 + n
    } else {
        97u8 + (n - 10)
    }
}

pub fn is_hex_digit_exec(c: u8) -> (r: bool)
    ensures
        r == is_hex_digit(c),
{
    (48u8 <= c && c <= 57u8) || (97u8 <= c && c <= 102u8) || (65u8 <= c && c <= 70u8)
}

pub fn hex_val_exec(c: u8) -> (r: u8)
    requires
        is_hex_digit(c),
    ensures
        r as int == hex_val(c),
        r < 16,
{
    if 48u8 <= c && c <= 57u8 {
        c - 48u8
    } else if 97u8 <= c && c <= 102u8 {
        c - 97u8 + 10
    } else {
        c - 65u8 + 10
    }
}

/// Hex-encode bytes as lower-case digits.
pub fn hex_encode(bytes: &[u8]) -> (r: Vec<u8>)
    ensures
        r@ == hex_str_of(bytes@),
{
    let mut r: Vec<u8> = Vec::new();
    let mut i: usize = 0;
    while i < bytes.len()
        invariant
            i <= bytes@.len(),
            r@.len() == 2 * i,
            forall|j: int| 0 <= j < r@.len() ==> r@[j] == hex_str_of(bytes@)[j],
        decreases bytes@.len() - i,
    {
        r.push(hex_digit_exec(bytes[i] / 16));
        r.push(hex_digit_exec(bytes[i] % 16));
        i += 1;
    }
    proof {
        assert(r@ =~= hex_str_of(bytes@));
    }
    r
}

/// Decode a hex string; `None` exactly when it is not well-formed hex.
pub fn hex_decode(s: &[u8]) -> (r: Option<Vec<u8>>)
    ensures
        r is Some <==> hex_decode_ok(s@),
        r matches Some(v) ==> v@ == hex_decoded(s@),
{
    if s.len() % 2 != 0 {
        return None;
    }
    let mut out: Vec<u8> = Vec::new();
    let mut i: usize = 0;
    while i < s.len()
        invariant
            s@.len() % 2 == 0,
            i % 2 == 0,
            i <= s@.len(),
            out@.len() == i / 2,
            forall|j: int| 0 <= j < i ==> is_hex_digit(s@[j]),
            forall|j: int| 0 <= j < out@.len() ==> out@[j] == hex_decoded(s@)[j],
        decreases s@.len() - i,
    {
        if !is_hex_digit_exec(s[i]) {
            return None;
        }
        if !is_hex_digit_exec(s[i + 1]) {
            return None;
        }
        let hi = hex_val_exec(s[i]);
        let lo = hex_val_exec(s[i + 1]);
        out.push(hi * 16 + lo);
        i += 2;
    }
    proof {
        assert(out@ =~= hex_decoded(s@));
    }
    Some(out)
}

/// Constant-time byte comparison: scans the full common length with no
/// data-dependent branch or early exit, accumulating differences bitwise.
pub fn ct_eq(a: &[u8], b: &[u8]) -> (r: bool)
    ensures
        r == (a@ == b@),
{
    if a.len() != b.len() {
        return false;
    }
    let mut diff: u8 = 0;
    let mut i: usize = 0;
    while i < a.len()
        invariant
            a@.len() == b@.len(),
            i <= a@.len(),
            (diff == 0) <==> (forall|j: int| 0 <= j < i ==> a@[j] == b@[j]),
        decreases a@.len() - i,
    {
        let ai = a[i];
        let bi = b[i];
        let x = ai ^ bi;
        proof {
            assert((ai ^ bi == 0) <==> ai == bi) by (bit_vector);
            assert(((diff | x) == 0) <==> (diff == 0 && x == 0)) by (bit_vector);
        }
        diff = diff | x;
        i += 1;
    }
    if diff == 0 {
        proof {
            assert(a@ =~= b@);
        }
        true
    } else {
        proof {
            assert(a@ != b@) by {
                if a@ == b@ {
                    assert(forall|j: int| 0 <= j < a@.len() ==> a@[j] == b@[j]);
                }
            }
        }
        false
    }
}

/// The keyed SHA-1 digest HMAC computes for a key and a message; a function
/// of the two arguments alone.
pub uninterp spec fn hmac_sha1_of(key: Seq<u8>, msg: Seq<u8>) -> Seq<u8>;

/// Relies on `hmac::Hmac<sha1::Sha1>` (hmac 0.12, sha1 0.10): returns the
/// HMAC-SHA-1 digest of `msg` keyed with `key`, 20 bytes, determined by the
/// two arguments alone. `Hmac::new_from_slice` accepts a key of any length
/// and never fails, so the call cannot panic.
#[verifier::external_body]
fn hmac_sha1(key: &[u8], msg: &[u8]) -> (r: Vec<u8>)
    ensures
        r@ == hmac_sha1_of(key@, msg@),
        r@.len() == 20,
{
    let mut mac: hmac::Hmac<sha1::Sha1> = hmac::Mac::new_from_slice(key).unwrap();
    mac.update(msg);
    mac.finalize().into_bytes().to_vec()
}

/// The signature-header scheme tag, `sha1=`.
pub open spec fn sha1_tag() -> Seq<u8> {
    seq![115u8, 104u8, 97u8, 49u8, 61u8]
}

/// The header value a correct signer produces for a body under a secret:
/// the scheme tag followed by the lower-case hex of the keyed digest.
pub open spec fn sign_header_of(secret: Seq<u8>, body: Seq<u8>) -> Seq<u8> {
    sha1_tag() + hex_str_of(hmac_sha1_of(secret, body))
}

/// When a supplied header authenticates a body under a secret: the scheme
/// tag, followed by well-formed hex that decodes to the keyed digest of the
/// body. An absent or malformed header never satisfies this.
pub open spec fn signature_ok(body: Seq<u8>, header: Seq<u8>, secret: Seq<u8>) -> bool {
    &&& header.len() >= 5
    &&& header.subrange(0, 5) == sha1_tag()
    &&& hex_decode_ok(header.skip(5))
    &&& hex_decoded(header.skip(5)) == hmac_sha1_of(secret, body)
}

/// Produce the signature header a correct signer sends for `body` under
/// `secret`.
pub fn sign(body: &[u8], secret: &[u8]) -> (r: Vec<u8>)
    ensures
        r@ == sign_header_of(secret@, body@),
{
    let digest = hmac_sha1(secret, body);
    let mut hex = hex_encode(digest.as_slice());
    let mut r: Vec<u8> = Vec::new();
    r.push(115u8);
    r.push(104u8);
    r.push(97u8);
    r.push(49u8);
    r.push(61u8);
    proof {
        assert(r@ =~= sha1_tag());
    }
    r.append(&mut hex);
    proof {
        assert(r@ =~= sign_header_of(secret@, body@));
    }
    r
}

/// Authenticate `body` against the supplied signature header under `secret`.
/// Succeeds exactly when the header carries the `sha1=` tag followed by
/// valid hex that decodes to the keyed digest of the body; every failure is
/// the uniform `SignatureInvalid`. The digest comparison is constant-time.
/// An empty secret is not special-cased: the digest is computed and compared
/// the same way, so such a deployment still fails closed on a wrong digest.
pub fn validate(body: &[u8], header: Option<&[u8]>, secret: &[u8]) -> (r: Result<
    (),
    SignatureInvalid,
>)
    ensures
        r is Ok <==> (header matches Some(h) && signature_ok(body@, h@, secret@)),
{
    let h = match header {
        Some(h) => h,
        None => {
            return Err(SignatureInvalid);
        },
    };
    if h.len() < 5 {
        return Err(SignatureInvalid);
    }
    let tag_ok = h[0] == 115u8 && h[1] == 104u8 && h[2] == 97u8 && h[3] == 49u8 && h[4] == 61u8;
    proof {
        assert(h@.subrange(0, 5) =~= sha1_tag() <==> (h@[0] == 115u8 && h@[1] == 104u8 && h@[2]
            == 97u8 && h@[3] == 49u8 && h@[4] == 61u8)) by {
            if h@.subrange(0, 5) =~= sha1_tag() {
                assert(h@.subrange(0, 5)[0] == sha1_tag()[0]);
                assert(h@.subrange(0, 5)[1] == sha1_tag()[1]);
                assert(h@.subrange(0, 5)[2] == sha1_tag()[2]);
                assert(h@.subrange(0, 5)[3] == sha1_tag()[3]);
                assert(h@.subrange(0, 5)[4] == sha1_tag()[4]);
            }
        }
    }
    if !tag_ok {
        return Err(SignatureInvalid);
    }
    let mut tail: Vec<u8> = Vec::new();
    let mut i: usize = 5;
    while i < h.len()
        invariant
            5 <= i <= h@.len(),
            tail@ == h@.subrange(5, i as int),
        decreases h@.len() - i,
    {
        tail.push(h[i]);
        proof {
            assert(tail@ =~= h@.subrange(5, i + 1));
        }
        i += 1;
    }
    proof {
        assert(tail@ =~= h@.skip(5));
    }
    match hex_decode(tail.as_slice()) {
        None => Err(SignatureInvalid),
        Some(d) => {
            let expected = hmac_sha1(secret, body);
            if ct_eq(d.as_slice(), expected.as_slice()) {
                Ok(())
            } else {
                Err(SignatureInvalid)
            }
        },
    }
}

/// Hex encoding decodes back to exactly the bytes it encodes.
pub proof fn lemma_hex_round_trip(bytes: Seq<u8>)
    ensures
        hex_decode_ok(hex_str_of(bytes)),
        hex_decoded(hex_str_of(bytes)) == bytes,
{
    let s = hex_str_of(bytes);
    assert forall|i: int| 0 <= i < s.len() implies is_hex_digit(s[i]) by {
        let b = bytes[i / 2] as int;
        assert(0 <= b / 16 < 16);
        assert(0 <= b % 16 < 16);
    }
    assert forall|i: int| 0 <= i < bytes.len() implies hex_decoded(s)[i] == bytes[i] by {
        let b = bytes[i] as int;
        assert(s[2 * i] == hex_digit_of(b / 16));
        assert(s[2 * i + 1] == hex_digit_of(b % 16));
        assert(hex_val(hex_digit_of(b / 16)) == b / 16);
        assert(hex_val(hex_digit_of(b % 16)) == b % 16);
        assert((b / 16) * 16 + (b % 16) == b);
    }
    assert(hex_decoded(s) =~= bytes);
}

/// A header produced by `sign` always validates: for every body and secret,
/// the signer's own header authenticates the body under that secret.
pub proof fn lemma_sign_validates(body: Seq<u8>, secret: Seq<u8>)
    ensures
        signature_ok(body, sign_header_of(secret, body), secret),
{
    let d = hmac_sha1_of(secret, body);
    let h = sign_header_of(secret, body);
    lemma_hex_round_trip(d);
    assert(h.subrange(0, 5) =~= sha1_tag());
    assert(h.skip(5) =~= hex_str_of(d));
}

/// An accepted header agrees with the signer's header digit value for digit
/// value: it has the signer's length and tag, and every hex digit of its
/// digest denotes the same value as the signer's. Changing any digest digit
/// to one of a different value therefore makes validation fail.
pub proof fn lemma_accepted_header_is_signers(body: Seq<u8>, secret: Seq<u8>, header: Seq<u8>)
    requires
        signature_ok(body, header, secret),
    ensures
        header.len() == sign_header_of(secret, body).len(),
        forall|i: int| 0 <= i < 5 ==> header[i] == sign_header_of(secret, body)[i],
        forall|i: int|
            5 <= i < header.len() ==> hex_val(header[i]) == hex_val(
                sign_header_of(secret, body)[i],
            ),
{
    let d = hmac_sha1_of(secret, body);
    let e = sign_header_of(secret, body);
    let hs = header.skip(5);
    lemma_hex_round_trip(d);
    assert(hex_decoded(hs).len() == d.len());
    assert(header.len() == 5 + 2 * d.len());
    assert(e.skip(5) =~= hex_str_of(d));
    assert forall|i: int| 0 <= i < 5 implies header[i] == e[i] by {
        assert(header.subrange(0, 5)[i] == header[i]);
        assert(header[i] == sha1_tag()[i]);
    }
    assert forall|i: int| 5 <= i < header.len() implies hex_val(header[i]) == hex_val(e[i]) by {
        let k = (i - 5) / 2;
        assert(0 <= k < d.len());
        let a1 = hex_val(hs[2 * k]);
        let b1 = hex_val(hs[2 * k + 1]);
        let a2 = hex_val(hex_str_of(d)[2 * k]);
        let b2 = hex_val(hex_str_of(d)[2 * k + 1]);
        assert(is_hex_digit(hs[2 * k]) && is_hex_digit(hs[2 * k + 1]));
        assert(0 <= a1 < 16 && 0 <= b1 < 16 && 0 <= a2 < 16 && 0 <= b2 < 16);
        assert(hex_decoded(hs)[k] == d[k]);
        assert(hex_decoded(hex_str_of(d))[k] == d[k]);
        assert((a1 * 16 + b1) as u8 == (a2 * 16 + b2) as u8);
        assert(a1 * 16 + b1 == a2 * 16 + b2);
        assert(a1 == a2 && b1 == b2);
        assert(hs[i - 5] == header[i]);
        assert(e.skip(5)[i - 5] == e[i]);
        assert(i - 5 == 2 * k || i - 5 == 2 * k + 1);
    }
}

} // verus!
