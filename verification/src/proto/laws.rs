//! What holds of the conversion between the messages and their wire form.

use vstd::prelude::*;
use crate::proto::message::LemmaProtoLevel;
use crate::proto::{
    broadcast_from_proto, broadcast_to_proto, lemma_from_proto, lemma_level_from_proto,
    lemma_level_to_proto, lemma_proto_parses, lemma_to_proto, lemma_well_formed,
    message_from_proto, message_to_proto, proof_from_proto, proof_to_proto, BroadcastView,
    LemmaLevel, MessageView, ProofView,
};
use crate::proto::message::{BroadcastProtoView, MessageProtoView, ProofProtoView};

verus! {

/// A broadcast message is well formed where the path of the proof it
/// carries, if any, is complete.
pub open spec fn broadcast_well_formed(b: BroadcastView) -> bool {
    match b {
        BroadcastView::Value(p) => lemma_well_formed(p.lemma),
        BroadcastView::Echo(p) => lemma_well_formed(p.lemma),
        BroadcastView::Ready(_) => true,
    }
}

pub open spec fn message_well_formed(m: MessageView) -> bool {
    match m {
        MessageView::Broadcast(b) => broadcast_well_formed(b),
        MessageView::Agreement(_) => true,
    }
}

/// The wire form of a path can be read back exactly where the path is
/// complete, and what is read back is the path.
pub proof fn lemma_round_trip(lemma: Seq<LemmaLevel>)
    ensures
        lemma_well_formed(lemma) ==> lemma_from_proto(lemma_to_proto(lemma)) == Some(lemma),
        !lemma_well_formed(lemma) ==> lemma_from_proto(lemma_to_proto(lemma)).is_none(),
{
    let proto = lemma_to_proto(lemma);
    assert forall|i: int| 0 <= i < lemma.len() implies (#[trigger] proto[i]).left_sibling_hash.is_some()
        != proto[i].right_sibling_hash.is_some() == lemma[i].sibling_hash.is_some() by {
        assert(proto[i] == lemma_level_to_proto(lemma[i]));
    }
    if lemma_well_formed(lemma) {
        assert(lemma_proto_parses(proto));
        let back = proto.map_values(|level: LemmaProtoLevel| lemma_level_from_proto(level));
        assert forall|i: int| 0 <= i < lemma.len() implies back[i] == lemma[i] by {
            assert(proto[i] == lemma_level_to_proto(lemma[i]));
        }
        assert(back =~= lemma);
    } else {
        let i = choose|i: int| 0 <= i < lemma.len() - 1 && !(#[trigger] lemma[i]).sibling_hash.is_some();
        assert(proto[i].left_sibling_hash.is_some() == proto[i].right_sibling_hash.is_some());
    }
}

/// Every path read from the wire is complete.
pub proof fn lemma_from_proto_well_formed(proto: Seq<LemmaProtoLevel>)
    requires
        lemma_proto_parses(proto),
    ensures
        lemma_well_formed(lemma_from_proto(proto).unwrap()),
{
    let lemma = lemma_from_proto(proto).unwrap();
    assert forall|i: int| 0 <= i < lemma.len() - 1 implies (#[trigger] lemma[i]).sibling_hash.is_some() by {
        assert(proto[i].left_sibling_hash.is_some() != proto[i].right_sibling_hash.is_some());
    }
}

/// The wire form of a proof can be read back exactly where its path is
/// complete, and what is read back is the proof.
pub proof fn proof_round_trip(p: ProofView)
    ensures
        lemma_well_formed(p.lemma) ==> proof_from_proto(proof_to_proto(p)) == Some(p),
        !lemma_well_formed(p.lemma) ==> proof_from_proto(proof_to_proto(p)).is_none(),
{
    lemma_round_trip(p.lemma);
}

/// Encoding is the inverse of decoding: the wire form of a well-formed
/// message reads back as that message, and the wire form of any other
/// message cannot be read.
pub proof fn message_round_trip(m: MessageView)
    ensures
        message_well_formed(m) ==> message_from_proto(message_to_proto(m)) == Some(m),
        !message_well_formed(m) ==> message_from_proto(message_to_proto(m)).is_none(),
{
    match m {
        MessageView::Broadcast(b) => {
            broadcast_round_trip(b);
        },
        MessageView::Agreement(a) => {},
    }
}

/// The same for a broadcast message alone.
pub proof fn broadcast_round_trip(b: BroadcastView)
    ensures
        broadcast_well_formed(b) ==> broadcast_from_proto(broadcast_to_proto(b)) == Some(b),
        !broadcast_well_formed(b) ==> broadcast_from_proto(broadcast_to_proto(b)).is_none(),
{
    match b {
        BroadcastView::Value(p) => {
            proof_round_trip(p);
        },
        BroadcastView::Echo(p) => {
            proof_round_trip(p);
        },
        BroadcastView::Ready(_) => {},
    }
}

/// Decoding fails closed: a record with no alternative set, a broadcast
/// record with none of its three alternatives set, and a `Value` or `Echo`
/// whose proof has no lemma all stand for no message.
pub proof fn decoding_fails_closed(root_hash: Seq<u8>, value: Seq<u8>)
    ensures
        message_from_proto(MessageProtoView::Unset).is_none(),
        message_from_proto(MessageProtoView::Broadcast(BroadcastProtoView::Unset)).is_none(),
        message_from_proto(MessageProtoView::Broadcast(BroadcastProtoView::Value(None))).is_none(),
        message_from_proto(MessageProtoView::Broadcast(BroadcastProtoView::Echo(None))).is_none(),
        message_from_proto(
            MessageProtoView::Broadcast(
                BroadcastProtoView::Value(
                    Some(ProofProtoView { root_hash: root_hash, lemma: None, value: value }),
                ),
            ),
        ).is_none(),
        message_from_proto(
            MessageProtoView::Broadcast(
                BroadcastProtoView::Echo(
                    Some(ProofProtoView { root_hash: root_hash, lemma: None, value: value }),
                ),
            ),
        ).is_none(),
{
}

/// Every message read from the wire is well formed.
pub proof fn message_from_proto_well_formed(proto: MessageProtoView)
    requires
        message_from_proto(proto).is_some(),
    ensures
        message_well_formed(message_from_proto(proto).unwrap()),
{
    match proto {
        MessageProtoView::Broadcast(BroadcastProtoView::Value(Some(p))) => {
            lemma_from_proto_well_formed(p.lemma.unwrap());
        },
        MessageProtoView::Broadcast(BroadcastProtoView::Echo(Some(p))) => {
            lemma_from_proto_well_formed(p.lemma.unwrap());
        },
        _ => {},
    }
}

} // verus!
