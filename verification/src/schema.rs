//! Wire-level data types: index events, the request a subscriber sends at
//! connection time, and the durable subscription record kept by the registry.

use vstd::prelude::*;
use crate::EventKind;

verus! {

/// One index-derived occurrence, delivered to subscribers.
///
/// An event is immutable and self-contained; hashes and transaction ids are
/// carried as raw bytes.
#[derive(Debug, PartialEq, Eq)]
pub enum Event {
    NewBlock { height: u64, hash: Vec<u8> },
    NewTransaction { txid: Vec<u8> },
    RuneTransfer { amount: u64, txid: Vec<u8> },
    InscriptionRevealed { index: u64, txid: Vec<u8> },
}

/// The mathematical value of an [`Event`]: the same shape over `Seq<u8>`.
pub enum EventV {
    NewBlock { height: u64, hash: Seq<u8> },
    NewTransaction { txid: Seq<u8> },
    RuneTransfer { amount: u64, txid: Seq<u8> },
    InscriptionRevealed { index: u64, txid: Seq<u8> },
}

impl View for Event {
    type V = EventV;

    open spec fn view(&self) -> EventV {
        match self {
            Event::NewBlock { height, hash } => EventV::NewBlock { height: *height, hash: hash@ },
            Event::NewTransaction { txid } => EventV::NewTransaction { txid: txid@ },
            Event::RuneTransfer { amount, txid } => EventV::RuneTransfer {
                amount: *amount,
                txid: txid@,
            },
            Event::InscriptionRevealed { index, txid } => EventV::InscriptionRevealed {
                index: *index,
                txid: txid@,
            },
        }
    }
}

/// The kind of an event value.
pub open spec fn spec_kind_of(ev: EventV) -> EventKind {
    match ev {
        EventV::NewBlock { .. } => EventKind::NewBlock,
        EventV::NewTransaction { .. } => EventKind::NewTransaction,
        EventV::RuneTransfer { .. } => EventKind::RuneTransfer,
        EventV::InscriptionRevealed { .. } => EventKind::InscriptionRevealed,
    }
}

/// Returns the kind of an event.
pub fn kind_of(e: &Event) -> (k: EventKind)
    ensures
        k == spec_kind_of(e@),
{
    match e {
        Event::NewBlock { .. } => EventKind::NewBlock,
        Event::NewTransaction { .. } => EventKind::NewTransaction,
        Event::RuneTransfer { .. } => EventKind::RuneTransfer,
        Event::InscriptionRevealed { .. } => EventKind::InscriptionRevealed,
    }
}

/// Returns whether an event is of one of the given kinds; this is the match
/// rule a delivery endpoint applies before pushing an event to a subscriber.
pub fn event_matches(e: &Event, kinds: &Vec<EventKind>) -> (r: bool)
    ensures
        r == kinds@.contains(spec_kind_of(e@)),
{
    let k = kind_of(e);
    let mut i: usize = 0;
    while i < kinds.len()
        invariant
            0 <= i <= kinds.len(),
            k == spec_kind_of(e@),
            forall|j: int| 0 <= j < i ==> kinds@[j] != k,
        decreases kinds.len() - i,
    {
        if kinds[i] == k {
            assert(kinds@.contains(spec_kind_of(e@)));
            return true;
        }
        i = i + 1;
    }
    assert(!kinds@.contains(spec_kind_of(e@)));
    false
}

/// The filter criteria a client sends once, at connection establishment.
#[derive(Debug, PartialEq, Eq)]
pub struct SubscriptionRequest {
    pub kinds: Vec<EventKind>,
}

impl View for SubscriptionRequest {
    type V = Seq<EventKind>;

    open spec fn view(&self) -> Seq<EventKind> {
        self.kinds@
    }
}

/// A durable registration of interest, identified by a registry-assigned id.
#[derive(Debug, PartialEq, Eq)]
pub struct Subscription {
    pub id: u128,
    pub kinds: Vec<EventKind>,
}

/// Copies a list of event kinds.
pub fn copy_kinds(kinds: &Vec<EventKind>) -> (r: Vec<EventKind>)
    ensures
        r@ == kinds@,
{
    let mut r: Vec<EventKind> = Vec::new();
    let mut i: usize = 0;
    while i < kinds.len()
        invariant
            0 <= i <= kinds.len(),
            r@ == kinds@.subrange(0, i as int),
        decreases kinds.len() - i,
    {
        r.push(kinds[i]);
        assert(r@ =~= kinds@.subrange(0, i + 1 as int));
        i = i + 1;
    }
    assert(r@ =~= kinds@);
    r
}

} // verus!
