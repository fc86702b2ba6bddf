//! The session engine: connection state, keep-alive supervision and the
//! QoS delivery tables.
//!
//! The engine is the single serialized consumer of the three event
//! sources (timer, inbound packets, application requests).  Each handler
//! is a pure state transition from the current engine state and one event
//! to the next state, an optional message to deliver to the application,
//! and optional bytes to write to the transport.  The surrounding event
//! loop owns the transport and performs the waiting and the I/O.

use crate::codec;
use crate::error::Error;
use crate::message::{Message, QoS, Subscription};
use crate::options::ClientOptions;
use crate::packet::{Packet, QosWithId};
use vstd::prelude::*;

verus! {

/// Connection phase of the session.
#[derive(Clone, Copy, PartialEq, Eq, Structural, Debug)]
pub enum MqttClientState {
    /// A connect packet is out; the connect-ack has not been consumed yet.
    Handshake,
    /// The handshake completed successfully and no fatal error occurred since.
    Connected,
    /// No live connection.
    Disconnected,
}

/// Phase of an outbound QoS 2 exchange.
#[derive(Clone, Copy, PartialEq, Eq, Structural, Debug)]
pub enum QoS2Phase {
    /// The publish is out; no "received" acknowledgment has arrived.
    AwaitingReceived,
    /// The "received" acknowledgment arrived and the release is out.
    AwaitingComplete,
}

/// An outbound QoS 1 publish awaiting its publish-ack.
#[derive(Debug)]
pub struct OutgoingPublish {
    /// Identifier the acknowledgment must echo.
    pub pkid: u16,
    /// The message, kept for a future resend policy.
    pub message: Message,
}

/// An outbound QoS 2 publish inside its acknowledgment handshake.
#[derive(Debug)]
pub struct OutgoingQoS2 {
    /// Identifier the acknowledgments must echo.
    pub pkid: u16,
    /// The message, kept for a future resend policy.
    pub message: Message,
    /// Where in the four-step handshake the exchange stands.
    pub phase: QoS2Phase,
}

/// An inbound QoS 2 publish held back until its release arrives.
#[derive(Debug)]
pub struct IncomingQoS2 {
    /// Identifier of the inbound exchange, allocated by the broker.
    pub pkid: u16,
    /// The held message; delivered exactly once, on release.
    pub message: Message,
}

/// A subscribe request awaiting its subscribe-ack.
#[derive(Debug)]
pub struct SubscribeRequest {
    /// Identifier the subscribe-ack must echo.
    pub pkid: u16,
    /// The requested entries, to compare against the granted list.
    pub topics: Vec<Subscription>,
}

/// The elements of `s` that satisfy `keep`, in order.
pub open spec fn keep_if<T>(s: Seq<T>, keep: spec_fn(T) -> bool) -> Seq<T>
    decreases s.len(),
{
    if s.len() == 0 {
        Seq::empty()
    } else {
        let rest = keep_if(s.drop_last(), keep);
        if keep(s.last()) {
            rest.push(s.last())
        } else {
            rest
        }
    }
}

/// No two elements of `s` are equal.
pub open spec fn ids_distinct(s: Seq<u16>) -> bool {
    forall|i: int, j: int| #![trigger s[i], s[j]] 0 <= i < j < s.len() ==> s[i] != s[j]
}

/// No element of `a` occurs in `b`.
pub open spec fn seqs_disjoint(a: Seq<u16>, b: Seq<u16>) -> bool {
    forall|i: int, j: int| #![trigger a[i], b[j]]
        0 <= i < a.len() && 0 <= j < b.len() ==> a[i] != b[j]
}

/// The identifiers of a QoS 1 table, in table order.
pub open spec fn qos1_ids_of(s: Seq<OutgoingPublish>) -> Seq<u16> {
    s.map_values(|r: OutgoingPublish| r.pkid)
}

/// The identifiers of an outbound QoS 2 table, in table order.
pub open spec fn qos2_ids_of(s: Seq<OutgoingQoS2>) -> Seq<u16> {
    s.map_values(|r: OutgoingQoS2| r.pkid)
}

/// The identifiers of an inbound QoS 2 table, in table order.
pub open spec fn incoming_ids_of(s: Seq<IncomingQoS2>) -> Seq<u16> {
    s.map_values(|r: IncomingQoS2| r.pkid)
}

/// The identifiers of a subscribe-request table, in table order.
pub open spec fn sub_ids_of(s: Seq<SubscribeRequest>) -> Seq<u16> {
    s.map_values(|r: SubscribeRequest| r.pkid)
}

/// The QoS 1 table after a publish-ack for `pkid`: the matching record is
/// removed; every other record stays, in order.
pub open spec fn qos1_after_ack(s: Seq<OutgoingPublish>, pkid: u16) -> Seq<OutgoingPublish> {
    keep_if(s, |r: OutgoingPublish| r.pkid != pkid)
}

/// The outbound QoS 2 table after a "received" acknowledgment for `pkid`:
/// a matching record still awaiting it moves to awaiting-complete; nothing
/// is removed and nothing else changes.
pub open spec fn qos2_after_rec(s: Seq<OutgoingQoS2>, pkid: u16) -> Seq<OutgoingQoS2> {
    s.map_values(
        |r: OutgoingQoS2|
            if r.pkid == pkid && r.phase is AwaitingReceived {
                OutgoingQoS2 { pkid: r.pkid, message: r.message, phase: QoS2Phase::AwaitingComplete }
            } else {
                r
            },
    )
}

/// The outbound QoS 2 table after a "complete" acknowledgment for `pkid`:
/// a matching record is removed only if it was awaiting completion; a
/// record still awaiting the "received" step is not honored.
pub open spec fn qos2_after_comp(s: Seq<OutgoingQoS2>, pkid: u16) -> Seq<OutgoingQoS2> {
    keep_if(s, |r: OutgoingQoS2| !(r.pkid == pkid && r.phase is AwaitingComplete))
}

/// The inbound QoS 2 table after a release for `pkid`.
pub open spec fn incoming_after_rel(s: Seq<IncomingQoS2>, pkid: u16) -> Seq<IncomingQoS2> {
    keep_if(s, |r: IncomingQoS2| r.pkid != pkid)
}

/// The subscribe-request table after a subscribe-ack for `pkid`.
pub open spec fn subs_after_ack(s: Seq<SubscribeRequest>, pkid: u16) -> Seq<SubscribeRequest> {
    keep_if(s, |r: SubscribeRequest| r.pkid != pkid)
}

/// The message a release for `pkid` delivers: the held message of the
/// last matching record, or nothing when none is pending.
pub open spec fn released_message(s: Seq<IncomingQoS2>, pkid: u16) -> Option<Message>
    decreases s.len(),
{
    if s.len() == 0 {
        None
    } else if s.last().pkid == pkid {
        Some(s.last().message)
    } else {
        released_message(s.drop_last(), pkid)
    }
}

/// The requested entries of the pending subscribe request with identifier
/// `pkid`, or nothing when none is pending.
pub open spec fn sub_topics_of(s: Seq<SubscribeRequest>, pkid: u16) -> Option<Seq<Subscription>>
    decreases s.len(),
{
    if s.len() == 0 {
        None
    } else if s.last().pkid == pkid {
        Some(s.last().topics@)
    } else {
        sub_topics_of(s.drop_last(), pkid)
    }
}

/// The entries of a subscribe request that the broker refused: those whose
/// position in the granted list is missing or marked as a failure.
pub open spec fn refused_of(topics: Seq<Subscription>, granted: Seq<Option<QoS>>) -> Seq<
    Subscription,
>
    decreases topics.len(),
{
    if topics.len() == 0 {
        Seq::empty()
    } else {
        let rest = refused_of(topics.drop_last(), granted);
        let i = topics.len() - 1;
        if i < granted.len() && granted[i] is Some {
            rest
        } else {
            rest.push(topics.last())
        }
    }
}

/// If a release finds no pending record, it delivers nothing.
pub proof fn lemma_released_none(s: Seq<IncomingQoS2>, pkid: u16)
    requires
        forall|i: int| 0 <= i < s.len() ==> (#[trigger] s[i].pkid) != pkid,
    ensures
        released_message(s, pkid) is None,
    decreases s.len(),
{
    if s.len() > 0 {
        lemma_released_none(s.drop_last(), pkid);
    }
}

/// With distinct identifiers, a release delivers the held message of the
/// one matching record.
pub proof fn lemma_released_some(s: Seq<IncomingQoS2>, pkid: u16, idx: int)
    requires
        0 <= idx < s.len(),
        s[idx].pkid == pkid,
        forall|i: int| 0 <= i < s.len() && i != idx ==> (#[trigger] s[i].pkid) != pkid,
    ensures
        released_message(s, pkid) == Some(s[idx].message),
    decreases s.len(),
{
    if idx == s.len() - 1 {
    } else {
        lemma_released_some(s.drop_last(), pkid, idx);
    }
}

/// If no subscribe request with the identifier is pending, nothing is found.
pub proof fn lemma_sub_topics_none(s: Seq<SubscribeRequest>, pkid: u16)
    requires
        forall|i: int| 0 <= i < s.len() ==> (#[trigger] s[i].pkid) != pkid,
    ensures
        sub_topics_of(s, pkid) is None,
    decreases s.len(),
{
    if s.len() > 0 {
        lemma_sub_topics_none(s.drop_last(), pkid);
    }
}

/// With distinct identifiers, the pending request with the identifier is
/// the one at its index.
pub proof fn lemma_sub_topics_some(s: Seq<SubscribeRequest>, pkid: u16, idx: int)
    requires
        0 <= idx < s.len(),
        s[idx].pkid == pkid,
        forall|i: int| 0 <= i < s.len() && i != idx ==> (#[trigger] s[i].pkid) != pkid,
    ensures
        sub_topics_of(s, pkid) == Some(s[idx].topics@),
    decreases s.len(),
{
    if idx == s.len() - 1 {
    } else {
        lemma_sub_topics_some(s.drop_last(), pkid, idx);
    }
}

/// A publish-ack for an identifier no QoS 1 record carries leaves the
/// table unchanged.
pub proof fn lemma_qos1_ack_unknown(s: Seq<OutgoingPublish>, pkid: u16)
    requires
        forall|i: int| 0 <= i < s.len() ==> (#[trigger] s[i].pkid) != pkid,
    ensures
        qos1_after_ack(s, pkid) == s,
    decreases s.len(),
{
    if s.len() == 0 {
        assert(qos1_after_ack(s, pkid) =~= s);
    } else {
        lemma_qos1_ack_unknown(s.drop_last(), pkid);
        assert(s[s.len() - 1].pkid != pkid);
        assert(qos1_after_ack(s, pkid) =~= s);
    }
}

/// A publish-ack removes exactly the one matching QoS 1 record and keeps
/// every other record, in order.
pub proof fn lemma_qos1_ack_removes(s: Seq<OutgoingPublish>, pkid: u16, idx: int)
    requires
        0 <= idx < s.len(),
        s[idx].pkid == pkid,
        forall|i: int| 0 <= i < s.len() && i != idx ==> (#[trigger] s[i].pkid) != pkid,
    ensures
        qos1_after_ack(s, pkid) == s.remove(idx),
    decreases s.len(),
{
    if idx == s.len() - 1 {
        lemma_qos1_ack_unknown(s.drop_last(), pkid);
        assert(s.remove(idx) =~= s.drop_last());
    } else {
        lemma_qos1_ack_removes(s.drop_last(), pkid, idx);
        s.remove_ensures(idx);
        assert(s[s.len() - 1].pkid != pkid);
        assert(s.drop_last().remove(idx) =~= s.remove(idx).drop_last());
        assert(qos1_after_ack(s, pkid) =~= s.remove(idx));
    }
}

/// A "complete" acknowledgment that matches no record awaiting completion
/// leaves the outbound QoS 2 table unchanged.  In particular a record
/// still awaiting the "received" step is not removed.
pub proof fn lemma_qos2_comp_unmatched(s: Seq<OutgoingQoS2>, pkid: u16)
    requires
        forall|i: int|
            0 <= i < s.len() ==> !((#[trigger] s[i].pkid) == pkid
                && s[i].phase is AwaitingComplete),
    ensures
        qos2_after_comp(s, pkid) == s,
    decreases s.len(),
{
    if s.len() == 0 {
        assert(qos2_after_comp(s, pkid) =~= s);
    } else {
        lemma_qos2_comp_unmatched(s.drop_last(), pkid);
        assert(!(s[s.len() - 1].pkid == pkid && s[s.len() - 1].phase is AwaitingComplete));
        assert(qos2_after_comp(s, pkid) =~= s);
    }
}

/// A "complete" acknowledgment removes exactly the one matching record
/// that awaits completion and keeps every other record, in order.
pub proof fn lemma_qos2_comp_removes(s: Seq<OutgoingQoS2>, pkid: u16, idx: int)
    requires
        0 <= idx < s.len(),
        s[idx].pkid == pkid,
        s[idx].phase is AwaitingComplete,
        forall|i: int| 0 <= i < s.len() && i != idx ==> (#[trigger] s[i].pkid) != pkid,
    ensures
        qos2_after_comp(s, pkid) == s.remove(idx),
    decreases s.len(),
{
    if idx == s.len() - 1 {
        lemma_qos2_comp_unmatched(s.drop_last(), pkid);
        assert(s.remove(idx) =~= s.drop_last());
    } else {
        lemma_qos2_comp_removes(s.drop_last(), pkid, idx);
        s.remove_ensures(idx);
        assert(s[s.len() - 1].pkid != pkid);
        assert(s.drop_last().remove(idx) =~= s.remove(idx).drop_last());
        assert(qos2_after_comp(s, pkid) =~= s.remove(idx));
    }
}

/// A release for an identifier no held inbound record carries leaves the
/// table unchanged.
pub proof fn lemma_incoming_rel_unknown(s: Seq<IncomingQoS2>, pkid: u16)
    requires
        forall|i: int| 0 <= i < s.len() ==> (#[trigger] s[i].pkid) != pkid,
    ensures
        incoming_after_rel(s, pkid) == s,
    decreases s.len(),
{
    if s.len() == 0 {
        assert(incoming_after_rel(s, pkid) =~= s);
    } else {
        lemma_incoming_rel_unknown(s.drop_last(), pkid);
        assert(s[s.len() - 1].pkid != pkid);
        assert(incoming_after_rel(s, pkid) =~= s);
    }
}

/// A release removes exactly the one matching held record.
pub proof fn lemma_incoming_rel_removes(s: Seq<IncomingQoS2>, pkid: u16, idx: int)
    requires
        0 <= idx < s.len(),
        s[idx].pkid == pkid,
        forall|i: int| 0 <= i < s.len() && i != idx ==> (#[trigger] s[i].pkid) != pkid,
    ensures
        incoming_after_rel(s, pkid) == s.remove(idx),
    decreases s.len(),
{
    if idx == s.len() - 1 {
        lemma_incoming_rel_unknown(s.drop_last(), pkid);
        assert(s.remove(idx) =~= s.drop_last());
    } else {
        lemma_incoming_rel_removes(s.drop_last(), pkid, idx);
        s.remove_ensures(idx);
        assert(s[s.len() - 1].pkid != pkid);
        assert(s.drop_last().remove(idx) =~= s.remove(idx).drop_last());
        assert(incoming_after_rel(s, pkid) =~= s.remove(idx));
    }
}

/// A subscribe-ack for an identifier no pending request carries leaves
/// the table unchanged.
pub proof fn lemma_subs_ack_unknown(s: Seq<SubscribeRequest>, pkid: u16)
    requires
        forall|i: int| 0 <= i < s.len() ==> (#[trigger] s[i].pkid) != pkid,
    ensures
        subs_after_ack(s, pkid) == s,
    decreases s.len(),
{
    if s.len() == 0 {
        assert(subs_after_ack(s, pkid) =~= s);
    } else {
        lemma_subs_ack_unknown(s.drop_last(), pkid);
        assert(s[s.len() - 1].pkid != pkid);
        assert(subs_after_ack(s, pkid) =~= s);
    }
}

/// A subscribe-ack removes exactly the one matching pending request.
pub proof fn lemma_subs_ack_removes(s: Seq<SubscribeRequest>, pkid: u16, idx: int)
    requires
        0 <= idx < s.len(),
        s[idx].pkid == pkid,
        forall|i: int| 0 <= i < s.len() && i != idx ==> (#[trigger] s[i].pkid) != pkid,
    ensures
        subs_after_ack(s, pkid) == s.remove(idx),
    decreases s.len(),
{
    if idx == s.len() - 1 {
        lemma_subs_ack_unknown(s.drop_last(), pkid);
        assert(s.remove(idx) =~= s.drop_last());
    } else {
        lemma_subs_ack_removes(s.drop_last(), pkid, idx);
        s.remove_ensures(idx);
        assert(s[s.len() - 1].pkid != pkid);
        assert(s.drop_last().remove(idx) =~= s.remove(idx).drop_last());
        assert(subs_after_ack(s, pkid) =~= s.remove(idx));
    }
}

/// Removal at an index keeps the elements of `s` pairwise distinct.
proof fn lemma_distinct_remove(s: Seq<u16>, idx: int)
    requires
        ids_distinct(s),
        0 <= idx < s.len(),
    ensures
        ids_distinct(s.remove(idx)),
{
    s.remove_ensures(idx);
    assert forall|i: int, j: int| #![trigger s.remove(idx)[i], s.remove(idx)[j]]
        0 <= i < j < s.remove(idx).len() implies s.remove(idx)[i] != s.remove(idx)[j] by {
        let i0 = if i < idx { i } else { i + 1 };
        let j0 = if j < idx { j } else { j + 1 };
        assert(s.remove(idx)[i] == s[i0]);
        assert(s.remove(idx)[j] == s[j0]);
        assert(s[i0] != s[j0]);
    }
}

/// Appending an element absent from `s` keeps the elements distinct.
proof fn lemma_distinct_push(s: Seq<u16>, id: u16)
    requires
        ids_distinct(s),
        !s.contains(id),
    ensures
        ids_distinct(s.push(id)),
{
    assert forall|i: int, j: int| #![trigger s.push(id)[i], s.push(id)[j]]
        0 <= i < j < s.push(id).len() implies s.push(id)[i] != s.push(id)[j] by {
        if j == s.len() {
            assert(s.push(id)[j] == id);
            assert(s.push(id)[i] == s[i]);
            if s[i] == id {
                assert(s.contains(id));
            }
        } else {
            assert(s.push(id)[i] == s[i]);
            assert(s.push(id)[j] == s[j]);
        }
    }
}

/// Removal from the left operand preserves disjointness.
proof fn lemma_disjoint_remove_left(a: Seq<u16>, b: Seq<u16>, idx: int)
    requires
        seqs_disjoint(a, b),
        0 <= idx < a.len(),
    ensures
        seqs_disjoint(a.remove(idx), b),
{
    a.remove_ensures(idx);
    assert forall|i: int, j: int| #![trigger a.remove(idx)[i], b[j]]
        0 <= i < a.remove(idx).len() && 0 <= j < b.len() implies a.remove(idx)[i] != b[j] by {
        let i0 = if i < idx { i } else { i + 1 };
        assert(a.remove(idx)[i] == a[i0]);
        assert(a[i0] != b[j]);
    }
}

/// Removal from the right operand preserves disjointness.
proof fn lemma_disjoint_remove_right(a: Seq<u16>, b: Seq<u16>, idx: int)
    requires
        seqs_disjoint(a, b),
        0 <= idx < b.len(),
    ensures
        seqs_disjoint(a, b.remove(idx)),
{
    b.remove_ensures(idx);
    assert forall|i: int, j: int| #![trigger a[i], b.remove(idx)[j]]
        0 <= i < a.len() && 0 <= j < b.remove(idx).len() implies a[i] != b.remove(idx)[j] by {
        let j0 = if j < idx { j } else { j + 1 };
        assert(b.remove(idx)[j] == b[j0]);
        assert(a[i] != b[j0]);
    }
}

/// Appending to the left operand an element absent from the right one
/// preserves disjointness.
proof fn lemma_disjoint_push_left(a: Seq<u16>, b: Seq<u16>, id: u16)
    requires
        seqs_disjoint(a, b),
        !b.contains(id),
    ensures
        seqs_disjoint(a.push(id), b),
{
    assert forall|i: int, j: int| #![trigger a.push(id)[i], b[j]]
        0 <= i < a.push(id).len() && 0 <= j < b.len() implies a.push(id)[i] != b[j] by {
        if i == a.len() {
            assert(a.push(id)[i] == id);
            if b[j] == id {
                assert(b.contains(id));
            }
        } else {
            assert(a.push(id)[i] == a[i]);
        }
    }
}

/// Appending to the right operand an element absent from the left one
/// preserves disjointness.
proof fn lemma_disjoint_push_right(a: Seq<u16>, b: Seq<u16>, id: u16)
    requires
        seqs_disjoint(a, b),
        !a.contains(id),
    ensures
        seqs_disjoint(a, b.push(id)),
{
    assert forall|i: int, j: int| #![trigger a[i], b.push(id)[j]]
        0 <= i < a.len() && 0 <= j < b.push(id).len() implies a[i] != b.push(id)[j] by {
        if j == b.len() {
            assert(b.push(id)[j] == id);
            if a[i] == id {
                assert(a.contains(id));
            }
        } else {
            assert(b.push(id)[j] == b[j]);
        }
    }
}

/// Removing a QoS 1 record removes its identifier at the same position.
proof fn lemma_qos1_ids_remove(s: Seq<OutgoingPublish>, idx: int)
    requires
        0 <= idx < s.len(),
    ensures
        qos1_ids_of(s.remove(idx)) == qos1_ids_of(s).remove(idx),
{
    s.remove_ensures(idx);
    qos1_ids_of(s).remove_ensures(idx);
    assert forall|k: int| 0 <= k < qos1_ids_of(s.remove(idx)).len() implies qos1_ids_of(
        s.remove(idx),
    )[k] == qos1_ids_of(s).remove(idx)[k] by {
        if k < idx {
            assert(s.remove(idx)[k] == s[k]);
        } else {
            assert(s.remove(idx)[k] == s[k + 1]);
        }
    }
    assert(qos1_ids_of(s.remove(idx)) =~= qos1_ids_of(s).remove(idx));
}

/// Removing an outbound QoS 2 record removes its identifier at the same
/// position.
proof fn lemma_qos2_ids_remove(s: Seq<OutgoingQoS2>, idx: int)
    requires
        0 <= idx < s.len(),
    ensures
        qos2_ids_of(s.remove(idx)) == qos2_ids_of(s).remove(idx),
{
    s.remove_ensures(idx);
    qos2_ids_of(s).remove_ensures(idx);
    assert forall|k: int| 0 <= k < qos2_ids_of(s.remove(idx)).len() implies qos2_ids_of(
        s.remove(idx),
    )[k] == qos2_ids_of(s).remove(idx)[k] by {
        if k < idx {
            assert(s.remove(idx)[k] == s[k]);
        } else {
            assert(s.remove(idx)[k] == s[k + 1]);
        }
    }
    assert(qos2_ids_of(s.remove(idx)) =~= qos2_ids_of(s).remove(idx));
}

/// Removing a held inbound record removes its identifier at the same
/// position.
proof fn lemma_incoming_ids_remove(s: Seq<IncomingQoS2>, idx: int)
    requires
        0 <= idx < s.len(),
    ensures
        incoming_ids_of(s.remove(idx)) == incoming_ids_of(s).remove(idx),
{
    s.remove_ensures(idx);
    incoming_ids_of(s).remove_ensures(idx);
    assert forall|k: int| 0 <= k < incoming_ids_of(s.remove(idx)).len() implies incoming_ids_of(
        s.remove(idx),
    )[k] == incoming_ids_of(s).remove(idx)[k] by {
        if k < idx {
            assert(s.remove(idx)[k] == s[k]);
        } else {
            assert(s.remove(idx)[k] == s[k + 1]);
        }
    }
    assert(incoming_ids_of(s.remove(idx)) =~= incoming_ids_of(s).remove(idx));
}

/// Removing a pending subscribe request removes its identifier at the
/// same position.
proof fn lemma_sub_ids_remove(s: Seq<SubscribeRequest>, idx: int)
    requires
        0 <= idx < s.len(),
    ensures
        sub_ids_of(s.remove(idx)) == sub_ids_of(s).remove(idx),
{
    s.remove_ensures(idx);
    sub_ids_of(s).remove_ensures(idx);
    assert forall|k: int| 0 <= k < sub_ids_of(s.remove(idx)).len() implies sub_ids_of(
        s.remove(idx),
    )[k] == sub_ids_of(s).remove(idx)[k] by {
        if k < idx {
            assert(s.remove(idx)[k] == s[k]);
        } else {
            assert(s.remove(idx)[k] == s[k + 1]);
        }
    }
    assert(sub_ids_of(s.remove(idx)) =~= sub_ids_of(s).remove(idx));
}

/// Appending a QoS 1 record appends its identifier.
proof fn lemma_qos1_ids_push(s: Seq<OutgoingPublish>, rec: OutgoingPublish)
    ensures
        qos1_ids_of(s.push(rec)) == qos1_ids_of(s).push(rec.pkid),
{
    assert forall|k: int| 0 <= k < qos1_ids_of(s.push(rec)).len() implies qos1_ids_of(s.push(rec))[k]
        == qos1_ids_of(s).push(rec.pkid)[k] by {
        if k < s.len() {
            assert(s.push(rec)[k] == s[k]);
        } else {
            assert(s.push(rec)[k] == rec);
        }
    }
    assert(qos1_ids_of(s.push(rec)) =~= qos1_ids_of(s).push(rec.pkid));
}

/// Appending an outbound QoS 2 record appends its identifier.
proof fn lemma_qos2_ids_push(s: Seq<OutgoingQoS2>, rec: OutgoingQoS2)
    ensures
        qos2_ids_of(s.push(rec)) == qos2_ids_of(s).push(rec.pkid),
{
    assert forall|k: int| 0 <= k < qos2_ids_of(s.push(rec)).len() implies qos2_ids_of(s.push(rec))[k]
        == qos2_ids_of(s).push(rec.pkid)[k] by {
        if k < s.len() {
            assert(s.push(rec)[k] == s[k]);
        } else {
            assert(s.push(rec)[k] == rec);
        }
    }
    assert(qos2_ids_of(s.push(rec)) =~= qos2_ids_of(s).push(rec.pkid));
}

/// Appending a held inbound record appends its identifier.
proof fn lemma_incoming_ids_push(s: Seq<IncomingQoS2>, rec: IncomingQoS2)
    ensures
        incoming_ids_of(s.push(rec)) == incoming_ids_of(s).push(rec.pkid),
{
    assert forall|k: int| 0 <= k < incoming_ids_of(s.push(rec)).len() implies incoming_ids_of(
        s.push(rec),
    )[k] == incoming_ids_of(s).push(rec.pkid)[k] by {
        if k < s.len() {
            assert(s.push(rec)[k] == s[k]);
        } else {
            assert(s.push(rec)[k] == rec);
        }
    }
    assert(incoming_ids_of(s.push(rec)) =~= incoming_ids_of(s).push(rec.pkid));
}

/// Appending a subscribe request appends its identifier.
proof fn lemma_sub_ids_push(s: Seq<SubscribeRequest>, rec: SubscribeRequest)
    ensures
        sub_ids_of(s.push(rec)) == sub_ids_of(s).push(rec.pkid),
{
    assert forall|k: int| 0 <= k < sub_ids_of(s.push(rec)).len() implies sub_ids_of(s.push(rec))[k]
        == sub_ids_of(s).push(rec.pkid)[k] by {
        if k < s.len() {
            assert(s.push(rec)[k] == s[k]);
        } else {
            assert(s.push(rec)[k] == rec);
        }
    }
    assert(sub_ids_of(s.push(rec)) =~= sub_ids_of(s).push(rec.pkid));
}

/// The "received" acknowledgment changes phases only: the identifiers of
/// the outbound QoS 2 table stay as they are.
pub proof fn lemma_qos2_ids_after_rec(s: Seq<OutgoingQoS2>, pkid: u16)
    ensures
        qos2_ids_of(qos2_after_rec(s, pkid)) == qos2_ids_of(s),
{
    assert forall|k: int| 0 <= k < qos2_ids_of(qos2_after_rec(s, pkid)).len() implies qos2_ids_of(
        qos2_after_rec(s, pkid),
    )[k] == qos2_ids_of(s)[k] by {
        assert(qos2_after_rec(s, pkid)[k].pkid == s[k].pkid);
    }
    assert(qos2_ids_of(qos2_after_rec(s, pkid)) =~= qos2_ids_of(s));
}

/// Whether some outbound QoS 2 record carries `pkid` and still awaits the
/// "received" acknowledgment.
pub open spec fn has_qos2_awaiting_received(s: Seq<OutgoingQoS2>, pkid: u16) -> bool {
    exists|i: int|
        0 <= i < s.len() && (#[trigger] s[i]).pkid == pkid && s[i].phase is AwaitingReceived
}

/// Whether connection phase, options, session-present flag and ping flag
/// are the same in both states.
pub open spec fn control_unchanged(a: ProxyClient, b: ProxyClient) -> bool {
    &&& a.state == b.state
    &&& a.opts == b.opts
    &&& a.session_present == b.session_present
    &&& a.await_ping == b.await_ping
}

/// Whether all four delivery tables are the same in both states.
pub open spec fn tables_unchanged(a: ProxyClient, b: ProxyClient) -> bool {
    &&& a.outgoing_ack@ == b.outgoing_ack@
    &&& a.outgoing_rec@ == b.outgoing_rec@
    &&& a.incoming_rec@ == b.incoming_rec@
    &&& a.pending_subs@ == b.pending_subs@
}

/// What one inbound packet makes the engine do: a message to hand to the
/// application, bytes to write to the transport, and the subscribe
/// entries the broker refused.
pub struct Reaction {
    /// A fully delivered message for the application, if any.
    pub deliver: Option<Message>,
    /// A reply packet to write to the transport, if any.
    pub reply: Option<Vec<u8>>,
    /// Requested subscribe entries the broker refused.
    pub refused: Vec<Subscription>,
}

/// Collects the requested entries whose position in the granted list is
/// missing or marked as a failure.
fn compute_refused(topics: &Vec<Subscription>, granted: &Vec<Option<QoS>>) -> (r: Vec<Subscription>)
    ensures
        r@ == refused_of(topics@, granted@),
{
    let mut out: Vec<Subscription> = Vec::new();
    let mut i: usize = 0;
    while i < topics.len()
        invariant
            i <= topics@.len(),
            out@ == refused_of(topics@.take(i as int), granted@),
        decreases topics@.len() - i,
    {
        let accepted: bool = if i < granted.len() {
            granted[i].is_some()
        } else {
            false
        };
        if !accepted {
            out.push(topics[i].clone());
        }
        proof {
            let t1 = topics@.take(i as int + 1);
            assert(t1.drop_last() =~= topics@.take(i as int));
            assert(t1.last() == topics@[i as int]);
        }
        i = i + 1;
    }
    proof {
        assert(topics@.take(topics@.len() as int) =~= topics@);
    }
    out
}

/// The session engine's state, exclusively owned by the event loop.
#[derive(Debug)]
pub struct ProxyClient {
    /// Connection phase.
    pub state: MqttClientState,
    /// Identity and policy, immutable once the engine is built.
    pub opts: ClientOptions,
    /// Whether the broker reported prior session state at the handshake.
    pub session_present: bool,
    /// Whether a ping-request is out with no ping-response yet.
    pub await_ping: bool,
    /// Outbound QoS 1 publishes awaiting their publish-ack.
    pub outgoing_ack: Vec<OutgoingPublish>,
    /// Outbound QoS 2 publishes inside their handshake.
    pub outgoing_rec: Vec<OutgoingQoS2>,
    /// Inbound QoS 2 publishes held until their release.
    pub incoming_rec: Vec<IncomingQoS2>,
    /// Subscribe requests awaiting their subscribe-ack.
    pub pending_subs: Vec<SubscribeRequest>,
}

impl ProxyClient {
    /// Identifiers of outbound QoS 1 exchanges, in table order.
    pub open spec fn qos1_ids(self) -> Seq<u16> {
        qos1_ids_of(self.outgoing_ack@)
    }

    /// Identifiers of outbound QoS 2 exchanges, in table order.
    pub open spec fn qos2_ids(self) -> Seq<u16> {
        qos2_ids_of(self.outgoing_rec@)
    }

    /// Identifiers of held inbound QoS 2 exchanges, in table order.
    pub open spec fn incoming_ids(self) -> Seq<u16> {
        incoming_ids_of(self.incoming_rec@)
    }

    /// Identifiers of pending subscribe requests, in table order.
    pub open spec fn sub_ids(self) -> Seq<u16> {
        sub_ids_of(self.pending_subs@)
    }

    /// Whether `pkid` is outstanding for any client-allocated exchange.
    pub open spec fn outbound_outstanding(self, pkid: u16) -> bool {
        self.qos1_ids().contains(pkid) || self.qos2_ids().contains(pkid)
            || self.sub_ids().contains(pkid)
    }

    /// Well-formedness: at any instant, at most one outstanding
    /// client-allocated exchange carries a given identifier, and the held
    /// inbound exchanges are keyed by distinct broker identifiers.
    pub open spec fn wf(self) -> bool {
        &&& ids_distinct(self.qos1_ids())
        &&& ids_distinct(self.qos2_ids())
        &&& ids_distinct(self.sub_ids())
        &&& ids_distinct(self.incoming_ids())
        &&& seqs_disjoint(self.qos1_ids(), self.qos2_ids())
        &&& seqs_disjoint(self.qos1_ids(), self.sub_ids())
        &&& seqs_disjoint(self.qos2_ids(), self.sub_ids())
    }

    /// A fresh engine: disconnected, not awaiting a ping, no tracked
    /// exchanges.
    pub fn new(opts: ClientOptions) -> (r: ProxyClient)
        ensures
            r.state is Disconnected,
            r.opts == opts,
            r.session_present == false,
            r.await_ping == false,
            r.outgoing_ack@.len() == 0,
            r.outgoing_rec@.len() == 0,
            r.incoming_rec@.len() == 0,
            r.pending_subs@.len() == 0,
            r.wf(),
    {
        ProxyClient {
            state: MqttClientState::Disconnected,
            opts,
            session_present: false,
            await_ping: false,
            outgoing_ack: Vec::new(),
            outgoing_rec: Vec::new(),
            incoming_rec: Vec::new(),
            pending_subs: Vec::new(),
        }
    }

    /// Index of the QoS 1 record carrying `pkid`, if any.
    fn find_qos1(&self, pkid: u16) -> (r: Option<usize>)
        ensures
            r matches Some(i) ==> i < self.outgoing_ack@.len() && self.outgoing_ack@[i as int].pkid
                == pkid,
            r is None ==> forall|i: int|
                0 <= i < self.outgoing_ack@.len() ==> (#[trigger] self.outgoing_ack@[i].pkid)
                    != pkid,
    {
        let mut i: usize = 0;
        while i < self.outgoing_ack.len()
            invariant
                i <= self.outgoing_ack@.len(),
                forall|j: int| 0 <= j < i ==> (#[trigger] self.outgoing_ack@[j].pkid) != pkid,
            decreases self.outgoing_ack@.len() - i,
        {
            if self.outgoing_ack[i].pkid == pkid {
                return Some(i);
            }
            i = i + 1;
        }
        None
    }

    /// Index of the outbound QoS 2 record carrying `pkid`, if any.
    fn find_qos2(&self, pkid: u16) -> (r: Option<usize>)
        ensures
            r matches Some(i) ==> i < self.outgoing_rec@.len() && self.outgoing_rec@[i as int].pkid
                == pkid,
            r is None ==> forall|i: int|
                0 <= i < self.outgoing_rec@.len() ==> (#[trigger] self.outgoing_rec@[i].pkid)
                    != pkid,
    {
        let mut i: usize = 0;
        while i < self.outgoing_rec.len()
            invariant
                i <= self.outgoing_rec@.len(),
                forall|j: int| 0 <= j < i ==> (#[trigger] self.outgoing_rec@[j].pkid) != pkid,
            decreases self.outgoing_rec@.len() - i,
        {
            if self.outgoing_rec[i].pkid == pkid {
                return Some(i);
            }
            i = i + 1;
        }
        None
    }

    /// Index of the held inbound QoS 2 record carrying `pkid`, if any.
    fn find_incoming(&self, pkid: u16) -> (r: Option<usize>)
        ensures
            r matches Some(i) ==> i < self.incoming_rec@.len() && self.incoming_rec@[i as int].pkid
                == pkid,
            r is None ==> forall|i: int|
                0 <= i < self.incoming_rec@.len() ==> (#[trigger] self.incoming_rec@[i].pkid)
                    != pkid,
    {
        let mut i: usize = 0;
        while i < self.incoming_rec.len()
            invariant
                i <= self.incoming_rec@.len(),
                forall|j: int| 0 <= j < i ==> (#[trigger] self.incoming_rec@[j].pkid) != pkid,
            decreases self.incoming_rec@.len() - i,
        {
            if self.incoming_rec[i].pkid == pkid {
                return Some(i);
            }
            i = i + 1;
        }
        None
    }

    /// Index of the pending subscribe request carrying `pkid`, if any.
    fn find_sub(&self, pkid: u16) -> (r: Option<usize>)
        ensures
            r matches Some(i) ==> i < self.pending_subs@.len() && self.pending_subs@[i as int].pkid
                == pkid,
            r is None ==> forall|i: int|
                0 <= i < self.pending_subs@.len() ==> (#[trigger] self.pending_subs@[i].pkid)
                    != pkid,
    {
        let mut i: usize = 0;
        while i < self.pending_subs.len()
            invariant
                i <= self.pending_subs@.len(),
                forall|j: int| 0 <= j < i ==> (#[trigger] self.pending_subs@[j].pkid) != pkid,
            decreases self.pending_subs@.len() - i,
        {
            if self.pending_subs[i].pkid == pkid {
                return Some(i);
            }
            i = i + 1;
        }
        None
    }

    /// An identifier outstanding for no client-allocated exchange, or
    /// `None` exactly when every nonzero identifier is taken.
    fn find_free_pkid(&self) -> (r: Option<u16>)
        ensures
            r matches Some(id) ==> 1 <= id && !self.outbound_outstanding(id),
            r is None ==> forall|id: u16|
                1 <= id ==> #[trigger] self.outbound_outstanding(id),
    {
        let mut candidate: u32 = 1;
        while candidate <= 65535
            invariant
                1 <= candidate <= 65536,
                forall|id: u16|
                    1 <= id < candidate ==> #[trigger] self.outbound_outstanding(id),
            decreases 65536 - candidate,
        {
            let id: u16 = candidate as u16;
            let in_qos1 = self.find_qos1(id);
            let in_qos2 = self.find_qos2(id);
            let in_subs = self.find_sub(id);
            if in_qos1.is_none() && in_qos2.is_none() && in_subs.is_none() {
                proof {
                    assert forall|k: int| 0 <= k < self.qos1_ids().len() implies self.qos1_ids()[k]
                        != id by {
                        assert(self.outgoing_ack@[k].pkid != id);
                    }
                    assert forall|k: int| 0 <= k < self.qos2_ids().len() implies self.qos2_ids()[k]
                        != id by {
                        assert(self.outgoing_rec@[k].pkid != id);
                    }
                    assert forall|k: int| 0 <= k < self.sub_ids().len() implies self.sub_ids()[k]
                        != id by {
                        assert(self.pending_subs@[k].pkid != id);
                    }
                }
                return Some(id);
            }
            proof {
                match in_qos1 {
                    Some(i) => {
                        assert(self.qos1_ids()[i as int] == id);
                        assert(self.qos1_ids().contains(id));
                    },
                    None => {
                        match in_qos2 {
                            Some(i) => {
                                assert(self.qos2_ids()[i as int] == id);
                                assert(self.qos2_ids().contains(id));
                            },
                            None => {
                                match in_subs {
                                    Some(i) => {
                                        assert(self.sub_ids()[i as int] == id);
                                        assert(self.sub_ids().contains(id));
                                    },
                                    None => {
                                        assert(false);
                                    },
                                }
                            },
                        }
                    },
                }
            }
            candidate = candidate + 1;
        }
        None
    }

    /// Records that the connect packet is out: the session enters the
    /// handshake phase and the connect bytes to write are returned.
    pub fn start_handshake(&mut self) -> (r: Vec<u8>)
        requires
            old(self).opts.client_id matches Some(c) && c@.len() <= 16383,
            old(self).opts.keep_alive is Some,
            old(self).opts.username matches Some(u) ==> u@.len() <= 16383,
            old(self).opts.password matches Some(p) ==> p@.len() <= 16383,
        ensures
            final(self).state is Handshake,
            final(self).opts == old(self).opts,
            final(self).session_present == old(self).session_present,
            final(self).await_ping == old(self).await_ping,
            tables_unchanged(*old(self), *final(self)),
            old(self).opts.client_id matches Some(c) ==> (old(self).opts.keep_alive matches Some(
                k,
            ) ==> r@ == codec::connect_packet_bytes(
                c@,
                old(self).opts.clean_session,
                k,
                codec::opt_string_view(old(self).opts.username),
                codec::opt_string_view(old(self).opts.password),
            )),
    {
        self.state = MqttClientState::Handshake;
        let keep_alive: u16 = match self.opts.keep_alive {
            Some(k) => k,
            None => 0,
        };
        match &self.opts.client_id {
            Some(cid) => codec::encode_connect(
                cid,
                self.opts.clean_session,
                keep_alive,
                &self.opts.username,
                &self.opts.password,
            ),
            None => {
                proof {
                    assert(false);
                }
                Vec::new()
            },
        }
    }

    /// Consumes the handshake reply.  A zero return code completes the
    /// handshake: the session is connected and the broker's
    /// session-present flag is stored.  Any other code is a rejected
    /// handshake: the session is disconnected and the code is reported.
    pub fn handle_connack(&mut self, session_present: bool, return_code: u8) -> (r: Result<
        (),
        Error,
    >)
        requires
            old(self).state is Handshake,
        ensures
            return_code == 0 ==> r is Ok && final(self).state is Connected && final(self).session_present == session_present,
            return_code != 0 ==> (r matches Err(e) && e == Error::Rejected(return_code)) && final(self).state is Disconnected && final(self).session_present == old(self).session_present,
            final(self).opts == old(self).opts,
            final(self).await_ping == old(self).await_ping,
            tables_unchanged(*old(self), *final(self)),
    {
        if return_code == 0 {
            self.state = MqttClientState::Connected;
            self.session_present = session_present;
            Ok(())
        } else {
            self.state = MqttClientState::Disconnected;
            Err(Error::Rejected(return_code))
        }
    }

    /// The keep-alive timer fired.  If no ping is outstanding, a
    /// ping-request goes out and the flag is set.  If one is still
    /// outstanding, the peer missed a full interval: the connection is
    /// reported dead for the reconnect path, and the state is untouched.
    pub fn handle_timer(&mut self) -> (r: Result<Vec<u8>, Error>)
        ensures
            !old(self).await_ping ==> (r matches Ok(b) && b@ == codec::pingreq_packet_bytes())
                && final(self).await_ping == true,
            old(self).await_ping ==> (r matches Err(e) && e == Error::TransportError) && *final(self) == *old(self),
            final(self).state == old(self).state,
            final(self).opts == old(self).opts,
            final(self).session_present == old(self).session_present,
            tables_unchanged(*old(self), *final(self)),
    {
        if self.await_ping {
            Err(Error::TransportError)
        } else {
            self.await_ping = true;
            Ok(codec::encode_pingreq())
        }
    }

    /// A ping-response arrived: the awaiting-ping flag is cleared.
    pub fn handle_pingresp(&mut self)
        ensures
            final(self).await_ping == false,
            final(self).state == old(self).state,
            final(self).opts == old(self).opts,
            final(self).session_present == old(self).session_present,
            tables_unchanged(*old(self), *final(self)),
    {
        self.await_ping = false;
    }

    /// A publish-ack arrived: the matching QoS 1 record is removed; an
    /// ack for an unknown identifier is ignored.
    pub fn handle_puback(&mut self, pkid: u16)
        requires
            old(self).wf(),
        ensures
            final(self).wf(),
            final(self).outgoing_ack@ == qos1_after_ack(old(self).outgoing_ack@, pkid),
            final(self).outgoing_rec@ == old(self).outgoing_rec@,
            final(self).incoming_rec@ == old(self).incoming_rec@,
            final(self).pending_subs@ == old(self).pending_subs@,
            control_unchanged(*old(self), *final(self)),
    {
        match self.find_qos1(pkid) {
            Some(idx) => {
                proof {
                    assert forall|i: int|
                        0 <= i < self.outgoing_ack@.len() && i != idx as int implies (
                    self.outgoing_ack@[i].pkid) != pkid by {
                        assert(self.qos1_ids()[i] == self.outgoing_ack@[i].pkid);
                        assert(self.qos1_ids()[idx as int] == pkid);
                        if i < idx as int {
                            assert(self.qos1_ids()[i] != self.qos1_ids()[idx as int]);
                        } else {
                            assert(self.qos1_ids()[idx as int] != self.qos1_ids()[i]);
                        }
                    }
                }
                self.outgoing_ack.remove(idx);
                proof {
                    lemma_qos1_ack_removes(old(self).outgoing_ack@, pkid, idx as int);
                    lemma_qos1_ids_remove(old(self).outgoing_ack@, idx as int);
                    lemma_distinct_remove(old(self).qos1_ids(), idx as int);
                    lemma_disjoint_remove_left(
                        old(self).qos1_ids(),
                        old(self).qos2_ids(),
                        idx as int,
                    );
                    lemma_disjoint_remove_left(
                        old(self).qos1_ids(),
                        old(self).sub_ids(),
                        idx as int,
                    );
                }
            },
            None => {
                proof {
                    lemma_qos1_ack_unknown(self.outgoing_ack@, pkid);
                }
            },
        }
    }

    /// A "received" acknowledgment arrived for an outbound QoS 2
    /// exchange.  A matching record still awaiting it moves to
    /// awaiting-complete and the release goes out; anything else is
    /// ignored.
    pub fn handle_pubrec(&mut self, pkid: u16) -> (reply: Option<Vec<u8>>)
        requires
            old(self).wf(),
        ensures
            final(self).wf(),
            final(self).outgoing_rec@ == qos2_after_rec(old(self).outgoing_rec@, pkid),
            final(self).outgoing_ack@ == old(self).outgoing_ack@,
            final(self).incoming_rec@ == old(self).incoming_rec@,
            final(self).pending_subs@ == old(self).pending_subs@,
            control_unchanged(*old(self), *final(self)),
            has_qos2_awaiting_received(old(self).outgoing_rec@, pkid) ==> (reply matches Some(b)
                && b@ == codec::ack_packet_bytes(0x62, pkid)),
            !has_qos2_awaiting_received(old(self).outgoing_rec@, pkid) ==> reply is None,
    {
        match self.find_qos2(pkid) {
            Some(idx) => {
                proof {
                    assert forall|i: int|
                        0 <= i < self.outgoing_rec@.len() && i != idx as int implies (
                    self.outgoing_rec@[i].pkid) != pkid by {
                        assert(self.qos2_ids()[i] == self.outgoing_rec@[i].pkid);
                        assert(self.qos2_ids()[idx as int] == pkid);
                        if i < idx as int {
                            assert(self.qos2_ids()[i] != self.qos2_ids()[idx as int]);
                        } else {
                            assert(self.qos2_ids()[idx as int] != self.qos2_ids()[i]);
                        }
                    }
                }
                let awaiting = match self.outgoing_rec[idx].phase {
                    QoS2Phase::AwaitingReceived => true,
                    QoS2Phase::AwaitingComplete => false,
                };
                if awaiting {
                    let rec = self.outgoing_rec.remove(idx);
                    let flipped = OutgoingQoS2 {
                        pkid: rec.pkid,
                        message: rec.message,
                        phase: QoS2Phase::AwaitingComplete,
                    };
                    self.outgoing_rec.insert(idx, flipped);
                    proof {
                        assert(self.outgoing_rec@ =~= old(self).outgoing_rec@.update(
                            idx as int,
                            (OutgoingQoS2 {
                                pkid: old(self).outgoing_rec@[idx as int].pkid,
                                message: old(self).outgoing_rec@[idx as int].message,
                                phase: QoS2Phase::AwaitingComplete,
                            }),
                        ));
                        assert forall|k: int|
                            0 <= k < qos2_after_rec(old(self).outgoing_rec@, pkid).len() implies
                        qos2_after_rec(old(self).outgoing_rec@, pkid)[k]
                            == self.outgoing_rec@[k] by {}
                        assert(self.outgoing_rec@ =~= qos2_after_rec(
                            old(self).outgoing_rec@,
                            pkid,
                        ));
                        lemma_qos2_ids_after_rec(old(self).outgoing_rec@, pkid);
                        assert(has_qos2_awaiting_received(old(self).outgoing_rec@, pkid));
                    }
                    Some(codec::encode_pubrel(pkid))
                } else {
                    proof {
                        assert forall|k: int|
                            0 <= k < qos2_after_rec(old(self).outgoing_rec@, pkid).len() implies
                        qos2_after_rec(old(self).outgoing_rec@, pkid)[k]
                            == self.outgoing_rec@[k] by {}
                        assert(qos2_after_rec(old(self).outgoing_rec@, pkid)
                            =~= self.outgoing_rec@);
                        assert(!has_qos2_awaiting_received(old(self).outgoing_rec@, pkid));
                    }
                    None
                }
            },
            None => {
                proof {
                    assert forall|k: int|
                        0 <= k < qos2_after_rec(self.outgoing_rec@, pkid).len() implies
                    qos2_after_rec(self.outgoing_rec@, pkid)[k] == self.outgoing_rec@[k] by {}
                    assert(qos2_after_rec(self.outgoing_rec@, pkid) =~= self.outgoing_rec@);
                    assert(!has_qos2_awaiting_received(self.outgoing_rec@, pkid));
                }
                None
            },
        }
    }

    /// A "complete" acknowledgment arrived for an outbound QoS 2
    /// exchange.  A matching record awaiting completion is removed; a
    /// record still awaiting the "received" step, or an unknown
    /// identifier, is ignored.
    pub fn handle_pubcomp(&mut self, pkid: u16)
        requires
            old(self).wf(),
        ensures
            final(self).wf(),
            final(self).outgoing_rec@ == qos2_after_comp(old(self).outgoing_rec@, pkid),
            final(self).outgoing_ack@ == old(self).outgoing_ack@,
            final(self).incoming_rec@ == old(self).incoming_rec@,
            final(self).pending_subs@ == old(self).pending_subs@,
            control_unchanged(*old(self), *final(self)),
    {
        match self.find_qos2(pkid) {
            Some(idx) => {
                proof {
                    assert forall|i: int|
                        0 <= i < self.outgoing_rec@.len() && i != idx as int implies (
                    self.outgoing_rec@[i].pkid) != pkid by {
                        assert(self.qos2_ids()[i] == self.outgoing_rec@[i].pkid);
                        assert(self.qos2_ids()[idx as int] == pkid);
                        if i < idx as int {
                            assert(self.qos2_ids()[i] != self.qos2_ids()[idx as int]);
                        } else {
                            assert(self.qos2_ids()[idx as int] != self.qos2_ids()[i]);
                        }
                    }
                }
                let complete = match self.outgoing_rec[idx].phase {
                    QoS2Phase::AwaitingReceived => false,
                    QoS2Phase::AwaitingComplete => true,
                };
                if complete {
                    self.outgoing_rec.remove(idx);
                    proof {
                        lemma_qos2_comp_removes(old(self).outgoing_rec@, pkid, idx as int);
                        lemma_qos2_ids_remove(old(self).outgoing_rec@, idx as int);
                        lemma_distinct_remove(old(self).qos2_ids(), idx as int);
                        lemma_disjoint_remove_right(
                            old(self).qos1_ids(),
                            old(self).qos2_ids(),
                            idx as int,
                        );
                        lemma_disjoint_remove_left(
                            old(self).qos2_ids(),
                            old(self).sub_ids(),
                            idx as int,
                        );
                    }
                } else {
                    proof {
                        lemma_qos2_comp_unmatched(self.outgoing_rec@, pkid);
                    }
                }
            },
            None => {
                proof {
                    lemma_qos2_comp_unmatched(self.outgoing_rec@, pkid);
                }
            },
        }
    }

    /// A release arrived for an inbound QoS 2 exchange.  The held message
    /// of a matching record is delivered exactly now and the record is
    /// discarded; a release for an unknown identifier delivers nothing.
    /// Either way the idempotent "complete" reply goes out.
    pub fn handle_pubrel(&mut self, pkid: u16) -> (r: (Option<Message>, Vec<u8>))
        requires
            old(self).wf(),
        ensures
            final(self).wf(),
            final(self).incoming_rec@ == incoming_after_rel(old(self).incoming_rec@, pkid),
            r.0 == released_message(old(self).incoming_rec@, pkid),
            r.1@ == codec::ack_packet_bytes(0x70, pkid),
            final(self).outgoing_ack@ == old(self).outgoing_ack@,
            final(self).outgoing_rec@ == old(self).outgoing_rec@,
            final(self).pending_subs@ == old(self).pending_subs@,
            control_unchanged(*old(self), *final(self)),
    {
        match self.find_incoming(pkid) {
            Some(idx) => {
                proof {
                    assert forall|i: int|
                        0 <= i < self.incoming_rec@.len() && i != idx as int implies (
                    self.incoming_rec@[i].pkid) != pkid by {
                        assert(self.incoming_ids()[i] == self.incoming_rec@[i].pkid);
                        assert(self.incoming_ids()[idx as int] == pkid);
                        if i < idx as int {
                            assert(self.incoming_ids()[i] != self.incoming_ids()[idx as int]);
                        } else {
                            assert(self.incoming_ids()[idx as int] != self.incoming_ids()[i]);
                        }
                    }
                    lemma_released_some(self.incoming_rec@, pkid, idx as int);
                    lemma_incoming_rel_removes(self.incoming_rec@, pkid, idx as int);
                    lemma_incoming_ids_remove(self.incoming_rec@, idx as int);
                    lemma_distinct_remove(self.incoming_ids(), idx as int);
                }
                let rec = self.incoming_rec.remove(idx);
                (Some(rec.message), codec::encode_pubcomp(pkid))
            },
            None => {
                proof {
                    lemma_released_none(self.incoming_rec@, pkid);
                    lemma_incoming_rel_unknown(self.incoming_rec@, pkid);
                }
                (None, codec::encode_pubcomp(pkid))
            },
        }
    }

    /// A subscribe-ack arrived: the matching pending request is cleared
    /// and the entries the broker refused are reported; an ack for an
    /// unknown identifier is ignored and nothing is reported.
    pub fn handle_suback(&mut self, pkid: u16, granted: &Vec<Option<QoS>>) -> (refused: Vec<
        Subscription,
    >)
        requires
            old(self).wf(),
        ensures
            final(self).wf(),
            final(self).pending_subs@ == subs_after_ack(old(self).pending_subs@, pkid),
            sub_topics_of(old(self).pending_subs@, pkid) matches Some(t) ==> refused@
                == refused_of(t, granted@),
            sub_topics_of(old(self).pending_subs@, pkid) is None ==> refused@.len() == 0,
            final(self).outgoing_ack@ == old(self).outgoing_ack@,
            final(self).outgoing_rec@ == old(self).outgoing_rec@,
            final(self).incoming_rec@ == old(self).incoming_rec@,
            control_unchanged(*old(self), *final(self)),
    {
        match self.find_sub(pkid) {
            Some(idx) => {
                proof {
                    assert forall|i: int|
                        0 <= i < self.pending_subs@.len() && i != idx as int implies (
                    self.pending_subs@[i].pkid) != pkid by {
                        assert(self.sub_ids()[i] == self.pending_subs@[i].pkid);
                        assert(self.sub_ids()[idx as int] == pkid);
                        if i < idx as int {
                            assert(self.sub_ids()[i] != self.sub_ids()[idx as int]);
                        } else {
                            assert(self.sub_ids()[idx as int] != self.sub_ids()[i]);
                        }
                    }
                    lemma_sub_topics_some(self.pending_subs@, pkid, idx as int);
                    lemma_subs_ack_removes(self.pending_subs@, pkid, idx as int);
                    lemma_sub_ids_remove(self.pending_subs@, idx as int);
                    lemma_distinct_remove(self.sub_ids(), idx as int);
                    lemma_disjoint_remove_right(self.qos1_ids(), self.sub_ids(), idx as int);
                    lemma_disjoint_remove_right(self.qos2_ids(), self.sub_ids(), idx as int);
                }
                let req = self.pending_subs.remove(idx);
                compute_refused(&req.topics, granted)
            },
            None => {
                proof {
                    lemma_subs_ack_unknown(self.pending_subs@, pkid);
                    lemma_sub_topics_none(self.pending_subs@, pkid);
                }
                Vec::new()
            },
        }
    }

    /// An application message arrived from the broker.  QoS 0 and QoS 1
    /// messages are delivered immediately, QoS 1 with the publish-ack
    /// reply.  A QoS 2 message is held back: a new identifier is recorded
    /// and only the "received" reply goes out; redelivery of a held
    /// identifier changes nothing but repeats the reply.
    pub fn handle_publish(
        &mut self,
        topic: String,
        payload: Vec<u8>,
        qos: QosWithId,
        retained: bool,
    ) -> (r: (Option<Message>, Option<Vec<u8>>))
        requires
            old(self).wf(),
        ensures
            final(self).wf(),
            control_unchanged(*old(self), *final(self)),
            final(self).outgoing_ack@ == old(self).outgoing_ack@,
            final(self).outgoing_rec@ == old(self).outgoing_rec@,
            final(self).pending_subs@ == old(self).pending_subs@,
            qos matches QosWithId::Level0 ==> r.0 == Some(
                (Message { topic, payload, qos: QoS::AtMostOnce, retained }),
            ) && r.1 is None && final(self).incoming_rec@ == old(self).incoming_rec@,
            qos matches QosWithId::Level1(id) ==> r.0 == Some(
                (Message { topic, payload, qos: QoS::AtLeastOnce, retained }),
            ) && (r.1 matches Some(b) && b@ == codec::ack_packet_bytes(0x40, id)) && final(self).incoming_rec@ == old(self).incoming_rec@,
            qos matches QosWithId::Level2(id) ==> r.0 is None && (r.1 matches Some(b) && b@
                == codec::ack_packet_bytes(0x50, id)) && (old(self).incoming_ids().contains(id)
                ==> final(self).incoming_rec@ == old(self).incoming_rec@) && (!old(self).incoming_ids().contains(id) ==> final(self).incoming_rec@ == old(self).incoming_rec@.push(
                (IncomingQoS2 {
                    pkid: id,
                    message: Message { topic, payload, qos: QoS::ExactlyOnce, retained },
                }),
            )),
    {
        match qos {
            QosWithId::Level0 => (
                Some(Message { topic, payload, qos: QoS::AtMostOnce, retained }),
                None,
            ),
            QosWithId::Level1(id) => (
                Some(Message { topic, payload, qos: QoS::AtLeastOnce, retained }),
                Some(codec::encode_puback(id)),
            ),
            QosWithId::Level2(id) => {
                match self.find_incoming(id) {
                    Some(idx) => {
                        proof {
                            assert(self.incoming_ids()[idx as int] == id);
                            assert(self.incoming_ids().contains(id));
                        }
                        (None, Some(codec::encode_pubrec(id)))
                    },
                    None => {
                        proof {
                            assert forall|k: int|
                                0 <= k < self.incoming_ids().len() implies self.incoming_ids()[k]
                                != id by {
                                assert(self.incoming_rec@[k].pkid != id);
                            }
                            assert(!self.incoming_ids().contains(id));
                        }
                        let record = IncomingQoS2 {
                            pkid: id,
                            message: Message { topic, payload, qos: QoS::ExactlyOnce, retained },
                        };
                        proof {
                            lemma_incoming_ids_push(self.incoming_rec@, record);
                            lemma_distinct_push(self.incoming_ids(), id);
                        }
                        self.incoming_rec.push(record);
                        (None, Some(codec::encode_pubrec(id)))
                    },
                }
            },
        }
    }

    /// A queued application subscribe request is processed: a fresh
    /// identifier is allocated, the request is recorded, and the
    /// subscribe packet to write is returned with the identifier.  On a
    /// connected engine with an identifier to spare this succeeds exactly
    /// when the codec accepts the filters.  With no live connection the
    /// request is refused; the engine is then unchanged, as it is when
    /// the codec refuses a topic filter.
    pub fn handle_subscribe_request(&mut self, topics: Vec<Subscription>) -> (r: Result<
        (u16, Vec<u8>),
        Error,
    >)
        requires
            old(self).wf(),
        ensures
            final(self).wf(),
            control_unchanged(*old(self), *final(self)),
            !(old(self).state is Connected) ==> (r matches Err(e) && e == Error::StateError),
            r matches Err(e) ==> tables_unchanged(*old(self), *final(self)) && (e
                == Error::StateError || e == Error::EncodeError),
            (r matches Err(e) && e == Error::StateError) ==> (!(old(self).state is Connected)
                || forall|id: u16| 1 <= id ==> #[trigger] old(self).outbound_outstanding(id)),
            (old(self).state is Connected && (exists|id: u16|
                1 <= id && !(#[trigger] old(self).outbound_outstanding(id)))) ==> (r is Ok
                <==> codec::subscribe_encodable(codec::subscriptions_view(topics@))),
            r matches Ok(pair) ==> {
                &&& old(self).state is Connected
                &&& 1 <= pair.0
                &&& !old(self).outbound_outstanding(pair.0)
                &&& final(self).pending_subs@ == old(self).pending_subs@.push(
                    (SubscribeRequest { pkid: pair.0, topics }),
                )
                &&& pair.1@ == codec::subscribe_packet_bytes(
                    pair.0,
                    codec::subscriptions_view(topics@),
                )
                &&& final(self).outgoing_ack@ == old(self).outgoing_ack@
                &&& final(self).outgoing_rec@ == old(self).outgoing_rec@
                &&& final(self).incoming_rec@ == old(self).incoming_rec@
            },
    {
        match self.state {
            MqttClientState::Connected => {},
            _ => {
                return Err(Error::StateError);
            },
        }
        let id: u16 = match self.find_free_pkid() {
            Some(id) => id,
            None => {
                return Err(Error::StateError);
            },
        };
        match codec::encode_subscribe(id, &topics) {
            Err(e) => Err(e),
            Ok(bytes) => {
                let record = SubscribeRequest { pkid: id, topics };
                proof {
                    lemma_sub_ids_push(self.pending_subs@, record);
                    lemma_distinct_push(self.sub_ids(), id);
                    lemma_disjoint_push_right(self.qos1_ids(), self.sub_ids(), id);
                    lemma_disjoint_push_right(self.qos2_ids(), self.sub_ids(), id);
                }
                self.pending_subs.push(record);
                Ok((id, bytes))
            },
        }
    }

    /// An application message goes out.  QoS 0 is sent with no tracking.
    /// QoS 1 and QoS 2 allocate a fresh identifier and record the
    /// exchange before the publish bytes are handed back with the
    /// identifier.  On a connected engine with an identifier to spare
    /// this succeeds exactly for a valid topic name: nonempty and free of
    /// wildcards.  With no live connection, or when the topic is
    /// invalid, nothing is recorded.
    pub fn publish(&mut self, topic: String, payload: Vec<u8>, qos: QoS, retained: bool) -> (r:
        Result<(u16, Vec<u8>), Error>)
        requires
            old(self).wf(),
            payload@.len() < 268435455,
            topic@.len() <= 16383,
        ensures
            final(self).wf(),
            control_unchanged(*old(self), *final(self)),
            !(old(self).state is Connected) ==> (r matches Err(e) && e == Error::StateError),
            r matches Err(e) ==> tables_unchanged(*old(self), *final(self)) && (e
                == Error::StateError || e == Error::EncodeError),
            (r matches Err(e) && e == Error::StateError) ==> (!(old(self).state is Connected) || (
            qos != QoS::AtMostOnce && forall|id: u16|
                1 <= id ==> #[trigger] old(self).outbound_outstanding(id))),
            (old(self).state is Connected && (qos == QoS::AtMostOnce || exists|id: u16|
                1 <= id && !(#[trigger] old(self).outbound_outstanding(id)))) ==> (r is Ok
                <==> codec::topic_name_valid(topic@)),
            r matches Ok(pair) ==> {
                &&& old(self).state is Connected
                &&& qos == QoS::AtMostOnce ==> pair.0 == 0 && pair.1@
                    == codec::publish_packet_bytes(topic@, 0, 0, retained, payload@)
                    && tables_unchanged(*old(self), *final(self))
                &&& qos == QoS::AtLeastOnce ==> {
                    &&& 1 <= pair.0
                    &&& !old(self).outbound_outstanding(pair.0)
                    &&& pair.1@ == codec::publish_packet_bytes(topic@, 1, pair.0, retained, payload@)
                    &&& final(self).outgoing_ack@ == old(self).outgoing_ack@.push(
                        (OutgoingPublish {
                            pkid: pair.0,
                            message: Message { topic, payload, qos, retained },
                        }),
                    )
                    &&& final(self).outgoing_rec@ == old(self).outgoing_rec@
                    &&& final(self).incoming_rec@ == old(self).incoming_rec@
                    &&& final(self).pending_subs@ == old(self).pending_subs@
                }
                &&& qos == QoS::ExactlyOnce ==> {
                    &&& 1 <= pair.0
                    &&& !old(self).outbound_outstanding(pair.0)
                    &&& pair.1@ == codec::publish_packet_bytes(topic@, 2, pair.0, retained, payload@)
                    &&& final(self).outgoing_rec@ == old(self).outgoing_rec@.push(
                        (OutgoingQoS2 {
                            pkid: pair.0,
                            message: Message { topic, payload, qos, retained },
                            phase: QoS2Phase::AwaitingReceived,
                        }),
                    )
                    &&& final(self).outgoing_ack@ == old(self).outgoing_ack@
                    &&& final(self).incoming_rec@ == old(self).incoming_rec@
                    &&& final(self).pending_subs@ == old(self).pending_subs@
                }
            },
    {
        match self.state {
            MqttClientState::Connected => {},
            _ => {
                return Err(Error::StateError);
            },
        }
        let level: u8 = qos.level();
        if level == 0 {
            match codec::encode_publish(&topic, 0, 0, retained, &payload) {
                Ok(bytes) => Ok((0, bytes)),
                Err(e) => Err(e),
            }
        } else {
            let id: u16 = match self.find_free_pkid() {
                Some(id) => id,
                None => {
                    return Err(Error::StateError);
                },
            };
            match codec::encode_publish(&topic, level, id, retained, &payload) {
                Err(e) => Err(e),
                Ok(bytes) => {
                    if level == 1 {
                        let record = OutgoingPublish {
                            pkid: id,
                            message: Message { topic, payload, qos, retained },
                        };
                        proof {
                            lemma_qos1_ids_push(self.outgoing_ack@, record);
                            lemma_distinct_push(self.qos1_ids(), id);
                            lemma_disjoint_push_left(self.qos1_ids(), self.qos2_ids(), id);
                            lemma_disjoint_push_left(self.qos1_ids(), self.sub_ids(), id);
                        }
                        self.outgoing_ack.push(record);
                    } else {
                        let record = OutgoingQoS2 {
                            pkid: id,
                            message: Message { topic, payload, qos, retained },
                            phase: QoS2Phase::AwaitingReceived,
                        };
                        proof {
                            lemma_qos2_ids_push(self.outgoing_rec@, record);
                            lemma_distinct_push(self.qos2_ids(), id);
                            lemma_disjoint_push_right(self.qos1_ids(), self.qos2_ids(), id);
                            lemma_disjoint_push_left(self.qos2_ids(), self.sub_ids(), id);
                        }
                        self.outgoing_rec.push(record);
                    }
                    Ok((id, bytes))
                },
            }
        }
    }

    /// The connection was lost or declared dead.  The session leaves the
    /// connected state and forgets the outstanding ping and subscribe
    /// requests, which the broker will never answer.  With a clean
    /// session the delivery tables are dropped too; otherwise they are
    /// kept, so that a resumed session can still match late
    /// acknowledgments.
    pub fn on_disconnect(&mut self)
        requires
            old(self).wf(),
        ensures
            final(self).wf(),
            final(self).state is Disconnected,
            final(self).await_ping == false,
            final(self).pending_subs@.len() == 0,
            final(self).opts == old(self).opts,
            final(self).session_present == old(self).session_present,
            old(self).opts.clean_session ==> final(self).outgoing_ack@.len() == 0 && final(self).outgoing_rec@.len() == 0 && final(self).incoming_rec@.len() == 0,
            !old(self).opts.clean_session ==> final(self).outgoing_ack@ == old(self).outgoing_ack@
                && final(self).outgoing_rec@ == old(self).outgoing_rec@ && final(self).incoming_rec@ == old(self).incoming_rec@,
    {
        self.state = MqttClientState::Disconnected;
        self.await_ping = false;
        self.pending_subs.clear();
        if self.opts.clean_session {
            self.outgoing_ack.clear();
            self.outgoing_rec.clear();
            self.incoming_rec.clear();
        }
    }

    /// Dispatches one decoded inbound packet while connected.  Decode
    /// failures never reach this point; every represented packet kind is
    /// handled or deliberately ignored, so dispatch itself cannot fail.
    pub fn handle_packet(&mut self, packet: Packet) -> (r: Result<Reaction, Error>)
        requires
            old(self).wf(),
        ensures
            final(self).wf(),
            r is Ok,
            packet matches Packet::Puback { pkid } ==> (r matches Ok(re) && re.deliver is None
                && re.reply is None && re.refused@.len() == 0) && final(self).outgoing_ack@
                == qos1_after_ack(old(self).outgoing_ack@, pkid) && final(self).outgoing_rec@
                == old(self).outgoing_rec@ && final(self).incoming_rec@ == old(self).incoming_rec@
                && final(self).pending_subs@ == old(self).pending_subs@ && control_unchanged(
                *old(self),
                *final(self),
            ),
            packet matches Packet::Pubrec { pkid } ==> (r matches Ok(re) && re.deliver is None
                && re.refused@.len() == 0 && (has_qos2_awaiting_received(
                old(self).outgoing_rec@,
                pkid,
            ) ==> (re.reply matches Some(b) && b@ == codec::ack_packet_bytes(0x62, pkid)))
                && (!has_qos2_awaiting_received(old(self).outgoing_rec@, pkid)
                ==> re.reply is None)) && final(self).outgoing_rec@ == qos2_after_rec(
                old(self).outgoing_rec@,
                pkid,
            ) && final(self).outgoing_ack@ == old(self).outgoing_ack@ && final(self).incoming_rec@
                == old(self).incoming_rec@ && final(self).pending_subs@ == old(self).pending_subs@
                && control_unchanged(*old(self), *final(self)),
            packet matches Packet::Pubrel { pkid } ==> (r matches Ok(re) && re.deliver
                == released_message(old(self).incoming_rec@, pkid) && (re.reply matches Some(b)
                && b@ == codec::ack_packet_bytes(0x70, pkid)) && re.refused@.len() == 0) && final(self).incoming_rec@ == incoming_after_rel(old(self).incoming_rec@, pkid) && final(self).outgoing_ack@ == old(self).outgoing_ack@ && final(self).outgoing_rec@ == old(self).outgoing_rec@ && final(self).pending_subs@ == old(self).pending_subs@
                && control_unchanged(*old(self), *final(self)),
            packet matches Packet::Pubcomp { pkid } ==> (r matches Ok(re) && re.deliver is None
                && re.reply is None && re.refused@.len() == 0) && final(self).outgoing_rec@
                == qos2_after_comp(old(self).outgoing_rec@, pkid) && final(self).outgoing_ack@
                == old(self).outgoing_ack@ && final(self).incoming_rec@ == old(self).incoming_rec@
                && final(self).pending_subs@ == old(self).pending_subs@ && control_unchanged(
                *old(self),
                *final(self),
            ),
            packet matches Packet::Suback { pkid, granted } ==> (r matches Ok(re) && re.deliver
                is None && re.reply is None && (sub_topics_of(old(self).pending_subs@, pkid)
                matches Some(t) ==> re.refused@ == refused_of(t, granted@)) && (sub_topics_of(
                old(self).pending_subs@,
                pkid,
            ) is None ==> re.refused@.len() == 0)) && final(self).pending_subs@ == subs_after_ack(
                old(self).pending_subs@,
                pkid,
            ) && final(self).outgoing_ack@ == old(self).outgoing_ack@ && final(self).outgoing_rec@
                == old(self).outgoing_rec@ && final(self).incoming_rec@ == old(self).incoming_rec@
                && control_unchanged(*old(self), *final(self)),
            packet matches Packet::Publish { topic, payload, qos, retained } ==> (r matches Ok(re)
                && re.refused@.len() == 0 && (qos matches QosWithId::Level0 ==> re.deliver == Some(
                (Message { topic, payload, qos: QoS::AtMostOnce, retained }),
            ) && re.reply is None && final(self).incoming_rec@ == old(self).incoming_rec@) && (qos
                matches QosWithId::Level1(id) ==> re.deliver == Some(
                (Message { topic, payload, qos: QoS::AtLeastOnce, retained }),
            ) && (re.reply matches Some(b) && b@ == codec::ack_packet_bytes(0x40, id)) && final(self).incoming_rec@ == old(self).incoming_rec@) && (qos matches QosWithId::Level2(id)
                ==> re.deliver is None && (re.reply matches Some(b) && b@
                == codec::ack_packet_bytes(0x50, id)) && (old(self).incoming_ids().contains(id)
                ==> final(self).incoming_rec@ == old(self).incoming_rec@) && (!old(self).incoming_ids().contains(id) ==> final(self).incoming_rec@ == old(self).incoming_rec@.push(
                (IncomingQoS2 {
                    pkid: id,
                    message: Message { topic, payload, qos: QoS::ExactlyOnce, retained },
                }),
            )))) && final(self).outgoing_ack@ == old(self).outgoing_ack@ && final(self).outgoing_rec@ == old(self).outgoing_rec@ && final(self).pending_subs@ == old(self).pending_subs@ && control_unchanged(*old(self), *final(self)),
            packet matches Packet::Pingresp ==> (r matches Ok(re) && re.deliver is None && re.reply
                is None && re.refused@.len() == 0) && final(self).await_ping == false && final(self).state == old(self).state && final(self).opts == old(self).opts && final(self).session_present == old(self).session_present && tables_unchanged(
                *old(self),
                *final(self),
            ),
            packet matches Packet::Connack { .. } ==> *final(self) == *old(self) && (r matches Ok(
                re,
            ) && re.deliver is None && re.reply is None && re.refused@.len() == 0),
            packet is Disconnect ==> *final(self) == *old(self) && (r matches Ok(re) && re.deliver
                is None && re.reply is None && re.refused@.len() == 0),
            packet matches Packet::Unsuback { .. } ==> *final(self) == *old(self) && (r matches Ok(
                re,
            ) && re.deliver is None && re.reply is None && re.refused@.len() == 0),
    {
        match packet {
            Packet::Connack { .. } => Ok(
                Reaction { deliver: None, reply: None, refused: Vec::new() },
            ),
            Packet::Suback { pkid, granted } => {
                let refused = self.handle_suback(pkid, &granted);
                Ok(Reaction { deliver: None, reply: None, refused })
            },
            Packet::Publish { topic, payload, qos, retained } => {
                let (deliver, reply) = self.handle_publish(topic, payload, qos, retained);
                Ok(Reaction { deliver, reply, refused: Vec::new() })
            },
            Packet::Puback { pkid } => {
                self.handle_puback(pkid);
                Ok(Reaction { deliver: None, reply: None, refused: Vec::new() })
            },
            Packet::Pubrec { pkid } => {
                let reply = self.handle_pubrec(pkid);
                Ok(Reaction { deliver: None, reply, refused: Vec::new() })
            },
            Packet::Pubrel { pkid } => {
                let (deliver, reply) = self.handle_pubrel(pkid);
                Ok(Reaction { deliver, reply: Some(reply), refused: Vec::new() })
            },
            Packet::Pubcomp { pkid } => {
                self.handle_pubcomp(pkid);
                Ok(Reaction { deliver: None, reply: None, refused: Vec::new() })
            },
            Packet::Pingresp => {
                self.handle_pingresp();
                Ok(Reaction { deliver: None, reply: None, refused: Vec::new() })
            },
            Packet::Disconnect => Ok(Reaction { deliver: None, reply: None, refused: Vec::new() }),
            Packet::Unsuback { .. } => Ok(
                Reaction { deliver: None, reply: None, refused: Vec::new() },
            ),
        }
    }
}

} // verus!
