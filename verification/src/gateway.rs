//! The gateway: the composition root over the handshake, the signature
//! validator, the payload parser and the dispatcher. It routes a request by
//! verb and path, translates each outcome into a status code and body, and
//! never puts secret material into a response.

use vstd::prelude::*;
use crate::dispatch::dispatch;
use crate::dispatch::dispatch_spec;
use crate::dispatch::EntryOutcome;
use crate::dispatch::EntryOutcomeV;
use crate::handshake::handle_verification;
use crate::handshake::handshake_spec;
use crate::handshake::Response;
use crate::handshake::ResponseV;
use crate::payload::parse_envelope;
use crate::payload::sp_envelope;
use crate::registry::bytes_eq;
use crate::registry::PageRegistry;
use crate::signature::signature_ok;
use crate::signature::validate;

verus! {

broadcast use crate::views::lemma_bytes_deep_view;

/// The request verb, as far as the gateway routes on it.
#[derive(Clone, Copy, PartialEq, Eq, Structural, Debug)]
pub enum Method {
    Get,
    Post,
    Other,
}

/// The webhook path the gateway serves.
pub open spec fn webhook_path() -> Seq<u8> {
    seq![47u8, 119u8, 101u8, 98u8, 104u8, 111u8, 111u8, 107u8]
}

/// The body of a "not found" answer.
pub open spec fn not_found_body() -> Seq<u8> {
    seq![78u8, 111u8, 116u8, 32u8, 70u8, 111u8, 117u8, 110u8, 100u8]
}

/// The diagnostic body of a rejected delivery: a constant, carrying nothing
/// about the secret or the computed digest.
pub open spec fn sig_fail_body() -> Seq<u8> {
    seq![105u8, 110u8, 118u8, 97u8, 108u8, 105u8, 100u8, 32u8, 115u8, 105u8, 103u8, 110u8, 97u8, 116u8, 117u8, 114u8, 101u8]
}

/// The diagnostic body of a malformed delivery payload.
pub open spec fn parse_fail_body() -> Seq<u8> {
    seq![109u8, 97u8, 108u8, 102u8, 111u8, 114u8, 109u8, 101u8, 100u8, 32u8, 112u8, 97u8, 121u8, 108u8, 111u8, 97u8, 100u8]
}

/// A signature header as the contracts see it.
pub open spec fn header_view(h: Option<&[u8]>) -> Option<Seq<u8>> {
    match h {
        Some(v) => Some(v@),
        None => None,
    }
}

fn webhook_path_vec() -> (r: Vec<u8>)
    ensures
        r@ == webhook_path(),
{
    let mut v: Vec<u8> = Vec::new();
    v.push(47u8);
    v.push(119u8);
    v.push(101u8);
    v.push(98u8);
    v.push(104u8);
    v.push(111u8);
    v.push(111u8);
    v.push(107u8);
    proof {
        assert(v@ =~= webhook_path());
    }
    v
}

fn not_found_body_vec() -> (r: Vec<u8>)
    ensures
        r@ == not_found_body(),
{
    let mut v: Vec<u8> = Vec::new();
    v.push(78u8);
    v.push(111u8);
    v.push(116u8);
    v.push(32u8);
    v.push(70u8);
    v.push(111u8);
    v.push(117u8);
    v.push(110u8);
    v.push(100u8);
    proof {
        assert(v@ =~= not_found_body());
    }
    v
}

fn sig_fail_body_vec() -> (r: Vec<u8>)
    ensures
        r@ == sig_fail_body(),
{
    let mut v: Vec<u8> = Vec::new();
    v.push(105u8);
    v.push(110u8);
    v.push(118u8);
    v.push(97u8);
    v.push(108u8);
    v.push(105u8);
    v.push(100u8);
    v.push(32u8);
    v.push(115u8);
    v.push(105u8);
    v.push(103u8);
    v.push(110u8);
    v.push(97u8);
    v.push(116u8);
    v.push(117u8);
    v.push(114u8);
    v.push(101u8);
    proof {
        assert(v@ =~= sig_fail_body());
    }
    v
}

fn parse_fail_body_vec() -> (r: Vec<u8>)
    ensures
        r@ == parse_fail_body(),
{
    let mut v: Vec<u8> = Vec::new();
    v.push(109u8);
    v.push(97u8);
    v.push(108u8);
    v.push(102u8);
    v.push(111u8);
    v.push(114u8);
    v.push(109u8);
    v.push(101u8);
    v.push(100u8);
    v.push(32u8);
    v.push(112u8);
    v.push(97u8);
    v.push(121u8);
    v.push(108u8);
    v.push(111u8);
    v.push(97u8);
    v.push(100u8);
    proof {
        assert(v@ =~= parse_fail_body());
    }
    v
}

/// The gateway's process-wide configuration and state: the application
/// secret, the verification token, and the page registry, all set once at
/// startup and read-only while serving.
pub struct Gateway {
    pub app_secret: Vec<u8>,
    pub verify_token: Vec<u8>,
    pub registry: PageRegistry,
}

impl Gateway {
    /// Assemble a gateway from its configuration.
    pub fn new(app_secret: Vec<u8>, verify_token: Vec<u8>, registry: PageRegistry) -> (r: Gateway)
        ensures
            r.app_secret@ == app_secret@,
            r.verify_token@ == verify_token@,
            r.registry == registry,
    {
        Gateway { app_secret, verify_token, registry }
    }

    /// What a delivery request is answered with, and which outcomes are
    /// handed on: a rejected signature is a 401 with a constant body and no
    /// outcome; a malformed body is a 400 with a constant body and no
    /// outcome; otherwise a 200 with an empty body and the dispatch
    /// outcomes of the parsed envelope.
    pub open spec fn delivery_spec(&self, body: Seq<u8>, header: Option<Seq<u8>>) -> (
        ResponseV,
        Seq<EntryOutcomeV>,
    ) {
        if !(header matches Some(h) && signature_ok(body, h, self.app_secret@)) {
            (ResponseV { status: 401, body: sig_fail_body() }, seq![])
        } else {
            match sp_envelope(body) {
                None => (ResponseV { status: 400, body: parse_fail_body() }, seq![]),
                Some(env) => (
                    ResponseV { status: 200, body: seq![] },
                    dispatch_spec(self.registry.deep_view(), env),
                ),
            }
        }
    }

    /// Answer a delivery request: authenticate the raw body against the
    /// signature header, parse it, and dispatch its entries.
    pub fn handle_delivery(&self, body: &[u8], signature_header: Option<&[u8]>) -> (r: (
        Response,
        Vec<EntryOutcome>,
    ))
        requires
            body@.len() < 0x10000000,
        ensures
            r.0.deep_view() == self.delivery_spec(body@, header_view(signature_header)).0,
            r.1.deep_view() == self.delivery_spec(body@, header_view(signature_header)).1,
    {
        let empty_out: Vec<EntryOutcome> = Vec::new();
        proof {
            assert(empty_out.deep_view() =~= Seq::<EntryOutcomeV>::empty());
        }
        match validate(body, signature_header, self.app_secret.as_slice()) {
            Err(e) => (Response { status: 401, body: sig_fail_body_vec() }, empty_out),
            Ok(u) => match parse_envelope(body) {
                Err(e) => (Response { status: 400, body: parse_fail_body_vec() }, empty_out),
                Ok(env) => {
                    let outs = dispatch(&self.registry, &env);
                    let body_vec: Vec<u8> = Vec::new();
                    proof {
                        assert(body_vec@ =~= Seq::<u8>::empty());
                    }
                    (Response { status: 200, body: body_vec }, outs)
                },
            },
        }
    }

    /// What any request is answered with: requests off the webhook path or
    /// with an unknown verb are a 404; a GET is the handshake on the query;
    /// a POST is a delivery on the body and signature header.
    pub open spec fn route_spec(
        &self,
        method: Method,
        path: Seq<u8>,
        query: Seq<u8>,
        header: Option<Seq<u8>>,
        body: Seq<u8>,
    ) -> (ResponseV, Seq<EntryOutcomeV>) {
        if path != webhook_path() {
            (ResponseV { status: 404, body: not_found_body() }, seq![])
        } else {
            match method {
                Method::Get => (handshake_spec(query, self.verify_token@), seq![]),
                Method::Post => self.delivery_spec(body, header),
                Method::Other => (ResponseV { status: 404, body: not_found_body() }, seq![]),
            }
        }
    }

    /// Route one request by verb and path and answer it.
    pub fn route(
        &self,
        method: Method,
        path: &[u8],
        query: &[u8],
        signature_header: Option<&[u8]>,
        body: &[u8],
    ) -> (r: (Response, Vec<EntryOutcome>))
        requires
            body@.len() < 0x10000000,
        ensures
            r.0.deep_view() == self.route_spec(
                method,
                path@,
                query@,
                header_view(signature_header),
                body@,
            ).0,
            r.1.deep_view() == self.route_spec(
                method,
                path@,
                query@,
                header_view(signature_header),
                body@,
            ).1,
    {
        let empty_out: Vec<EntryOutcome> = Vec::new();
        proof {
            assert(empty_out.deep_view() =~= Seq::<EntryOutcomeV>::empty());
        }
        let wp = webhook_path_vec();
        if !bytes_eq(path, wp.as_slice()) {
            return (Response { status: 404, body: not_found_body_vec() }, empty_out);
        }
        match method {
            Method::Get => (handle_verification(query, self.verify_token.as_slice()), empty_out),
            Method::Post => self.handle_delivery(body, signature_header),
            Method::Other => (Response { status: 404, body: not_found_body_vec() }, empty_out),
        }
    }
}

/// A correctly signed, well-formed delivery is acknowledged with a success
/// status and an empty body, whatever the per-entry and per-event outcomes
/// were.
pub proof fn lemma_delivery_acknowledged(gw: Gateway, body: Seq<u8>, header: Seq<u8>)
    requires
        signature_ok(body, header, gw.app_secret@),
        (sp_envelope(body) is Some),
    ensures
        gw.delivery_spec(body, Some(header)).0.status == 200,
        gw.delivery_spec(body, Some(header)).0.body == Seq::<u8>::empty(),
{
    assert(gw.delivery_spec(body, Some(header)).0.body =~= Seq::<u8>::empty());
}

/// A rejected signature is answered with a client error whose body is a
/// constant: it carries nothing derived from the secret, the body or the
/// header.
pub proof fn lemma_rejected_signature_reveals_nothing(
    gw: Gateway,
    body: Seq<u8>,
    header: Option<Seq<u8>>,
)
    requires
        !(header matches Some(h) && signature_ok(body, h, gw.app_secret@)),
    ensures
        gw.delivery_spec(body, header).0 == (ResponseV { status: 401, body: sig_fail_body() }),
        gw.delivery_spec(body, header).1 == Seq::<EntryOutcomeV>::empty(),
{
    assert(gw.delivery_spec(body, header).1 =~= Seq::<EntryOutcomeV>::empty());
}

} // verus!
