//! The delivery guarantees of the QoS engine, stated and proved over the
//! same spec-level transitions that the packet handlers' contracts use.

use crate::engine::{
    incoming_after_rel, incoming_ids_of, lemma_incoming_rel_removes, lemma_incoming_rel_unknown,
    lemma_qos1_ack_removes, lemma_qos1_ack_unknown, lemma_qos2_comp_removes,
    lemma_qos2_comp_unmatched, lemma_qos2_ids_after_rec, lemma_released_none, lemma_released_some,
    qos1_after_ack, qos1_ids_of, qos2_after_comp, qos2_after_rec, qos2_ids_of, released_message,
    ids_distinct, IncomingQoS2, OutgoingPublish, OutgoingQoS2, ProxyClient,
};
use vstd::prelude::*;

verus! {

/// A QoS 1 pending record is removed exactly by a publish-ack carrying
/// its identifier: the acknowledged record disappears and every other
/// record survives, in order.
pub proof fn qos1_ack_removes_exactly(s: Seq<OutgoingPublish>, pkid: u16, idx: int)
    requires
        ids_distinct(qos1_ids_of(s)),
        0 <= idx < s.len(),
        s[idx].pkid == pkid,
    ensures
        qos1_after_ack(s, pkid) == s.remove(idx),
{
    assert forall|i: int| 0 <= i < s.len() && i != idx implies (#[trigger] s[i].pkid) != pkid by {
        assert(qos1_ids_of(s)[i] == s[i].pkid);
        assert(qos1_ids_of(s)[idx] == pkid);
        if i < idx {
            assert(qos1_ids_of(s)[i] != qos1_ids_of(s)[idx]);
        } else {
            assert(qos1_ids_of(s)[idx] != qos1_ids_of(s)[i]);
        }
    }
    lemma_qos1_ack_removes(s, pkid, idx);
}

/// A publish-ack for an identifier that no QoS 1 record carries leaves
/// the table entirely unchanged.
pub proof fn qos1_foreign_ack_ignored(s: Seq<OutgoingPublish>, pkid: u16)
    requires
        forall|i: int| 0 <= i < s.len() ==> (#[trigger] s[i].pkid) != pkid,
    ensures
        qos1_after_ack(s, pkid) == s,
{
    lemma_qos1_ack_unknown(s, pkid);
}

/// An outbound QoS 2 exchange follows the strict order
/// awaiting-received, then awaiting-complete, then removed: a "complete"
/// acknowledgment is not honored while the record still awaits the
/// "received" step, the "received" step only changes the phase, and only
/// after both steps is the record gone.
pub proof fn qos2_outbound_phase_order(s: Seq<OutgoingQoS2>, pkid: u16, idx: int)
    requires
        ids_distinct(qos2_ids_of(s)),
        0 <= idx < s.len(),
        s[idx].pkid == pkid,
        s[idx].phase is AwaitingReceived,
    ensures
        qos2_after_comp(s, pkid) == s,
        qos2_after_rec(s, pkid)[idx].phase is AwaitingComplete,
        qos2_after_rec(s, pkid)[idx].pkid == pkid,
        qos2_after_rec(s, pkid).len() == s.len(),
        qos2_after_comp(qos2_after_rec(s, pkid), pkid) == qos2_after_rec(s, pkid).remove(idx),
{
    assert forall|i: int| 0 <= i < s.len() && i != idx implies (#[trigger] s[i].pkid) != pkid by {
        assert(qos2_ids_of(s)[i] == s[i].pkid);
        assert(qos2_ids_of(s)[idx] == pkid);
        if i < idx {
            assert(qos2_ids_of(s)[i] != qos2_ids_of(s)[idx]);
        } else {
            assert(qos2_ids_of(s)[idx] != qos2_ids_of(s)[i]);
        }
    }
    lemma_qos2_comp_unmatched(s, pkid);
    let after_rec = qos2_after_rec(s, pkid);
    lemma_qos2_ids_after_rec(s, pkid);
    assert forall|i: int|
        0 <= i < after_rec.len() && i != idx implies (#[trigger] after_rec[i].pkid) != pkid by {
        assert(after_rec[i].pkid == s[i].pkid);
    }
    assert(after_rec[idx].phase is AwaitingComplete);
    lemma_qos2_comp_removes(after_rec, pkid, idx);
}

/// An inbound QoS 2 message is handed to the application exactly once
/// per identifier: the release of a held record delivers its message and
/// discards the record, so a duplicate release of the same identifier
/// delivers nothing.
pub proof fn qos2_inbound_exactly_once(s: Seq<IncomingQoS2>, pkid: u16, idx: int)
    requires
        ids_distinct(incoming_ids_of(s)),
        0 <= idx < s.len(),
        s[idx].pkid == pkid,
    ensures
        released_message(s, pkid) == Some(s[idx].message),
        incoming_after_rel(s, pkid) == s.remove(idx),
        released_message(incoming_after_rel(s, pkid), pkid) is None,
{
    assert forall|i: int| 0 <= i < s.len() && i != idx implies (#[trigger] s[i].pkid) != pkid by {
        assert(incoming_ids_of(s)[i] == s[i].pkid);
        assert(incoming_ids_of(s)[idx] == pkid);
        if i < idx {
            assert(incoming_ids_of(s)[i] != incoming_ids_of(s)[idx]);
        } else {
            assert(incoming_ids_of(s)[idx] != incoming_ids_of(s)[i]);
        }
    }
    lemma_released_some(s, pkid, idx);
    lemma_incoming_rel_removes(s, pkid, idx);
    let after = s.remove(idx);
    s.remove_ensures(idx);
    assert forall|i: int| 0 <= i < after.len() implies (#[trigger] after[i].pkid) != pkid by {
        if i < idx {
            assert(after[i] == s[i]);
        } else {
            assert(after[i] == s[i + 1]);
        }
    }
    lemma_released_none(after, pkid);
}

/// A release for an identifier that no held record carries delivers
/// nothing and changes nothing; only its idempotent "complete" reply goes
/// out.
pub proof fn qos2_foreign_release_ignored(s: Seq<IncomingQoS2>, pkid: u16)
    requires
        forall|i: int| 0 <= i < s.len() ==> (#[trigger] s[i].pkid) != pkid,
    ensures
        released_message(s, pkid) is None,
        incoming_after_rel(s, pkid) == s,
{
    lemma_released_none(s, pkid);
    lemma_incoming_rel_unknown(s, pkid);
}

/// In a well-formed engine the identifiers of all concurrently
/// outstanding client-allocated exchanges, taken together across the
/// QoS 1, QoS 2 and subscribe tables, are pairwise distinct.
pub proof fn outstanding_identifiers_distinct(c: ProxyClient)
    requires
        c.wf(),
    ensures
        ids_distinct(c.qos1_ids() + c.qos2_ids() + c.sub_ids()),
{
    let all = c.qos1_ids() + c.qos2_ids() + c.sub_ids();
    let n1 = c.qos1_ids().len() as int;
    let n2 = c.qos2_ids().len() as int;
    assert forall|i: int, j: int| #![trigger all[i], all[j]]
        0 <= i < j < all.len() implies all[i] != all[j] by {
        if i < n1 {
            assert(all[i] == c.qos1_ids()[i]);
        } else if i < n1 + n2 {
            assert(all[i] == c.qos2_ids()[i - n1]);
        } else {
            assert(all[i] == c.sub_ids()[i - n1 - n2]);
        }
        if j < n1 {
            assert(all[j] == c.qos1_ids()[j]);
        } else if j < n1 + n2 {
            assert(all[j] == c.qos2_ids()[j - n1]);
        } else {
            assert(all[j] == c.sub_ids()[j - n1 - n2]);
        }
    }
}

} // verus!
