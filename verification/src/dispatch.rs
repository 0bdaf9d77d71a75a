//! Event dispatch: route each entry of a parsed envelope to the handler and
//! credential bound to its page id, invoke the handler per event, and record
//! one outcome per entry and per event. An unregistered page id skips only
//! its own entry; a handler failure skips only its own event.

use vstd::prelude::*;
use crate::payload::EventPayload;
use crate::payload::EventPayloadV;
use crate::payload::InboundEnvelope;
use crate::payload::InboundEnvelopeV;
use crate::payload::MessagingEvent;
use crate::payload::MessagingEventV;
use crate::registry::lookup_spec;
use crate::registry::PageConfig;
use crate::registry::PageConfigV;
use crate::registry::PageRegistry;

verus! {

broadcast use crate::views::lemma_bytes_deep_view;

/// The handler bound to a page: echo the message text back, or echo it with
/// a fixed prefix. Selected at registration time (tagged dispatch).
#[derive(Clone)]
pub enum HandlerKind {
    Echo,
    PrefixEcho { prefix: Vec<u8> },
}

/// Spec-level mirror of `HandlerKind`.
pub enum HandlerKindV {
    Echo,
    PrefixEcho { prefix: Seq<u8> },
}

impl DeepView for HandlerKind {
    type V = HandlerKindV;

    open spec fn deep_view(&self) -> HandlerKindV {
        match self {
            HandlerKind::Echo => HandlerKindV::Echo,
            HandlerKind::PrefixEcho { prefix } => HandlerKindV::PrefixEcho { prefix: prefix@ },
        }
    }
}

/// What a handler replies to one event: the reply text, or `None` when the
/// handler fails on that event (an echo handler has no reply for an event
/// that carries no message text).
pub open spec fn handle_spec(h: HandlerKindV, e: MessagingEventV) -> Option<Seq<u8>> {
    match e.payload {
        EventPayloadV::Message { mid, text } => match h {
            HandlerKindV::Echo => Some(text),
            HandlerKindV::PrefixEcho { prefix } => Some(prefix + text),
        },
        EventPayloadV::Other { raw } => None,
    }
}

/// Copy a byte string into an owned vector.
pub fn copy_bytes(src: &[u8]) -> (r: Vec<u8>)
    ensures
        r@ == src@,
{
    let mut r: Vec<u8> = Vec::new();
    let mut i: usize = 0;
    while i < src.len()
        invariant
            i <= src@.len(),
            r@ == src@.subrange(0, i as int),
        decreases src@.len() - i,
    {
        r.push(src[i]);
        proof {
            assert(r@ =~= src@.subrange(0, i + 1));
        }
        i += 1;
    }
    proof {
        assert(r@ =~= src@);
    }
    r
}

/// Invoke a handler on one event.
pub fn handle(h: &HandlerKind, e: &MessagingEvent) -> (r: Option<Vec<u8>>)
    ensures
        r.deep_view() == handle_spec(h.deep_view(), e.deep_view()),
{
    match &e.payload {
        EventPayload::Message { mid, text } => match h {
            HandlerKind::Echo => {
                let t = copy_bytes(text.as_slice());
                proof {
                    assert(t.deep_view() =~= text@);
                }
                Some(t)
            },
            HandlerKind::PrefixEcho { prefix } => {
                let mut t = copy_bytes(prefix.as_slice());
                let mut tail = copy_bytes(text.as_slice());
                t.append(&mut tail);
                proof {
                    assert(t.deep_view() =~= prefix@ + text@);
                }
                Some(t)
            },
        },
        EventPayload::Other { raw } => None,
    }
}

/// The record of one event's processing: a reply to be sent to the event's
/// sender under the page's credential, or a caught handler failure.
pub enum EventOutcome {
    Replied { to: Vec<u8>, access_token: Vec<u8>, text: Vec<u8> },
    HandlerFailed,
}

/// Spec-level mirror of `EventOutcome`.
pub enum EventOutcomeV {
    Replied { to: Seq<u8>, access_token: Seq<u8>, text: Seq<u8> },
    HandlerFailed,
}

impl DeepView for EventOutcome {
    type V = EventOutcomeV;

    open spec fn deep_view(&self) -> EventOutcomeV {
        match self {
            EventOutcome::Replied { to, access_token, text } => EventOutcomeV::Replied {
                to: to@,
                access_token: access_token@,
                text: text@,
            },
            EventOutcome::HandlerFailed => EventOutcomeV::HandlerFailed,
        }
    }
}

/// The record of one entry's processing: skipped because its page id is not
/// registered, or delivered with one outcome per event.
pub enum EntryOutcome {
    UnknownPage { page_id: Vec<u8> },
    Delivered { page_id: Vec<u8>, events: Vec<EventOutcome> },
}

/// Spec-level mirror of `EntryOutcome`.
pub enum EntryOutcomeV {
    UnknownPage { page_id: Seq<u8> },
    Delivered { page_id: Seq<u8>, events: Seq<EventOutcomeV> },
}

impl DeepView for EntryOutcome {
    type V = EntryOutcomeV;

    open spec fn deep_view(&self) -> EntryOutcomeV {
        match self {
            EntryOutcome::UnknownPage { page_id } => EntryOutcomeV::UnknownPage {
                page_id: page_id@,
            },
            EntryOutcome::Delivered { page_id, events } => EntryOutcomeV::Delivered {
                page_id: page_id@,
                events: events.deep_view(),
            },
        }
    }
}

/// The outcome of one event under a page's configuration: the handler's
/// reply addressed to the event's sender with the page's credential, or a
/// caught failure.
pub open spec fn dispatch_event_spec(cfg: PageConfigV, e: MessagingEventV) -> EventOutcomeV {
    match handle_spec(cfg.handler, e) {
        Some(text) => EventOutcomeV::Replied {
            to: e.sender_id,
            access_token: cfg.access_token,
            text: text,
        },
        None => EventOutcomeV::HandlerFailed,
    }
}

/// The outcome of one entry against a set of bindings: skipped when its page
/// id resolves to nothing, otherwise one event outcome per event, in order,
/// each depending only on that event and the page's configuration.
pub open spec fn dispatch_entry_spec(
    bindings: Seq<(Seq<u8>, PageConfigV)>,
    entry: crate::payload::EntryV,
) -> EntryOutcomeV {
    match lookup_spec(bindings, entry.page_id) {
        None => EntryOutcomeV::UnknownPage { page_id: entry.page_id },
        Some(cfg) => EntryOutcomeV::Delivered {
            page_id: entry.page_id,
            events: Seq::new(entry.events.len(), |i: int| dispatch_event_spec(cfg, entry.events[i])),
        },
    }
}

/// The outcomes of a whole envelope, one per entry, in order.
pub open spec fn dispatch_spec(
    bindings: Seq<(Seq<u8>, PageConfigV)>,
    env: InboundEnvelopeV,
) -> Seq<EntryOutcomeV> {
    Seq::new(env.entries.len(), |i: int| dispatch_entry_spec(bindings, env.entries[i]))
}

fn dispatch_event(cfg: &PageConfig, e: &MessagingEvent) -> (r: EventOutcome)
    ensures
        r.deep_view() == dispatch_event_spec(cfg.deep_view(), e.deep_view()),
{
    match handle(&cfg.handler, e) {
        Some(text) => EventOutcome::Replied {
            to: copy_bytes(e.sender_id.as_slice()),
            access_token: copy_bytes(cfg.access_token.as_slice()),
            text,
        },
        None => EventOutcome::HandlerFailed,
    }
}

/// Process a parsed envelope against the registry: for every entry, in
/// order, look up its page id and deliver each of its events to the bound
/// handler, recording one outcome per entry. No entry or event outcome
/// depends on any other entry or event.
pub fn dispatch(registry: &PageRegistry, envelope: &InboundEnvelope) -> (r: Vec<EntryOutcome>)
    ensures
        r.deep_view() == dispatch_spec(registry.deep_view(), envelope.deep_view()),
{
    let mut out: Vec<EntryOutcome> = Vec::new();
    let mut i: usize = 0;
    while i < envelope.entries.len()
        invariant
            i <= envelope.entries@.len(),
            out.deep_view().len() == i,
            forall|k: int|
                0 <= k < i ==> out.deep_view()[k] == dispatch_entry_spec(
                    registry.deep_view(),
                    envelope.deep_view().entries[k],
                ),
        decreases envelope.entries@.len() - i,
    {
        let entry = &envelope.entries[i];
        let ghost pre_out = out.deep_view();
        let ghost ev = entry.deep_view();
        proof {
            assert(envelope.deep_view().entries[i as int] == ev);
        }
        match registry.lookup(entry.page_id.as_slice()) {
            None => {
                out.push(EntryOutcome::UnknownPage { page_id: copy_bytes(entry.page_id.as_slice()) });
                proof {
                    assert(out.deep_view() =~= pre_out.push(
                        EntryOutcomeV::UnknownPage { page_id: ev.page_id },
                    ));
                }
            },
            Some(cfg) => {
                let mut evs: Vec<EventOutcome> = Vec::new();
                let mut j: usize = 0;
                while j < entry.events.len()
                    invariant
                        j <= entry.events@.len(),
                        evs.deep_view().len() == j,
                        lookup_spec(registry.deep_view(), entry.page_id@) == Some(cfg.deep_view()),
                        forall|k: int|
                            0 <= k < j ==> evs.deep_view()[k] == dispatch_event_spec(
                                cfg.deep_view(),
                                entry.deep_view().events[k],
                            ),
                    decreases entry.events@.len() - j,
                {
                    let ghost pre_evs = evs.deep_view();
                    evs.push(dispatch_event(cfg, &entry.events[j]));
                    proof {
                        assert(entry.deep_view().events[j as int] == entry.events@[
                            j as int
                        ].deep_view());
                        assert(evs.deep_view() =~= pre_evs.push(
                            dispatch_event_spec(cfg.deep_view(), entry.deep_view().events[j as int]),
                        ));
                    }
                    j += 1;
                }
                proof {
                    assert(evs.deep_view() =~= Seq::new(
                        ev.events.len(),
                        |k: int| dispatch_event_spec(cfg.deep_view(), ev.events[k]),
                    ));
                }
                out.push(EntryOutcome::Delivered {
                    page_id: copy_bytes(entry.page_id.as_slice()),
                    events: evs,
                });
                proof {
                    assert(out.deep_view() =~= pre_out.push(
                        dispatch_entry_spec(registry.deep_view(), ev),
                    ));
                }
            },
        }
        i += 1;
    }
    proof {
        assert(out.deep_view() =~= dispatch_spec(registry.deep_view(), envelope.deep_view()));
    }
    out
}

/// How many entries were delivered to a handler.
pub open spec fn count_delivered(outs: Seq<EntryOutcomeV>) -> int
    decreases outs.len(),
{
    if outs.len() == 0 {
        0
    } else {
        (if outs[0] is Delivered {
            1int
        } else {
            0int
        }) + count_delivered(outs.drop_first())
    }
}

/// How many entries carry a registered page id.
pub open spec fn count_registered(
    bindings: Seq<(Seq<u8>, PageConfigV)>,
    entries: Seq<crate::payload::EntryV>,
) -> int
    decreases entries.len(),
{
    if entries.len() == 0 {
        0
    } else {
        (if lookup_spec(bindings, entries[0].page_id) is Some {
            1int
        } else {
            0int
        }) + count_registered(bindings, entries.drop_first())
    }
}

proof fn lemma_counts_agree(
    bindings: Seq<(Seq<u8>, PageConfigV)>,
    entries: Seq<crate::payload::EntryV>,
    outs: Seq<EntryOutcomeV>,
)
    requires
        outs.len() == entries.len(),
        forall|j: int|
            0 <= j < entries.len() ==> ((outs[j] is Delivered) <==> (lookup_spec(
                bindings,
                entries[j].page_id,
            ) is Some)),
    ensures
        count_delivered(outs) == count_registered(bindings, entries),
    decreases entries.len(),
{
    if entries.len() > 0 {
        assert forall|j: int|
            0 <= j < entries.drop_first().len() implies ((outs.drop_first()[j] is Delivered) <==> (
        lookup_spec(bindings, entries.drop_first()[j].page_id) is Some)) by {
            assert(outs.drop_first()[j] == outs[j + 1]);
            assert(entries.drop_first()[j] == entries[j + 1]);
        }
        lemma_counts_agree(bindings, entries.drop_first(), outs.drop_first());
    }
}

/// Dispatch accounts for every entry of the envelope, in order: there is one
/// outcome per entry; an entry reaches a handler exactly when its page id is
/// registered; and of N entries with M registered ids, exactly M are
/// delivered and N - M are skipped, none of them aborting the batch.
pub proof fn lemma_dispatch_accounts_for_every_entry(
    bindings: Seq<(Seq<u8>, PageConfigV)>,
    env: InboundEnvelopeV,
)
    ensures
        dispatch_spec(bindings, env).len() == env.entries.len(),
        forall|j: int|
            0 <= j < env.entries.len() ==> ((dispatch_spec(bindings, env)[j] is Delivered) <==> (
            lookup_spec(bindings, env.entries[j].page_id) is Some)),
        count_delivered(dispatch_spec(bindings, env)) == count_registered(bindings, env.entries),
{
    lemma_counts_agree(bindings, env.entries, dispatch_spec(bindings, env));
}

/// An entry's outcome depends on that entry and the bindings alone: the same
/// entry in any two envelopes, at any positions, gets the same outcome. In
/// particular, an entry whose page id is unregistered, or whose handler
/// fails, leaves every sibling entry's outcome exactly as it would have been
/// without it.
pub proof fn lemma_entry_isolation(
    bindings: Seq<(Seq<u8>, PageConfigV)>,
    env1: InboundEnvelopeV,
    env2: InboundEnvelopeV,
    j1: int,
    j2: int,
)
    requires
        0 <= j1 < env1.entries.len(),
        0 <= j2 < env2.entries.len(),
        env1.entries[j1] == env2.entries[j2],
    ensures
        dispatch_spec(bindings, env1)[j1] == dispatch_spec(bindings, env2)[j2],
{
}

/// An event's outcome depends on that event and the page's configuration
/// alone: the same event in any two delivered entries of the same page, at
/// any positions, gets the same outcome. In particular, a handler failure on
/// one event leaves every sibling event's outcome exactly as it would have
/// been without it.
pub proof fn lemma_event_isolation(
    bindings: Seq<(Seq<u8>, PageConfigV)>,
    e1: crate::payload::EntryV,
    e2: crate::payload::EntryV,
    k1: int,
    k2: int,
)
    requires
        e1.page_id == e2.page_id,
        (lookup_spec(bindings, e1.page_id) is Some),
        0 <= k1 < e1.events.len(),
        0 <= k2 < e2.events.len(),
        e1.events[k1] == e2.events[k2],
    ensures
        (dispatch_entry_spec(bindings, e1) is Delivered),
        (dispatch_entry_spec(bindings, e2) is Delivered),
        (dispatch_entry_spec(bindings, e1))->Delivered_events[k1] == (dispatch_entry_spec(
            bindings,
            e2,
        ))->Delivered_events[k2],
{
}

} // verus!
