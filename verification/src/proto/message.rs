//! The wire form of the protocol messages: plain records in which every
//! embedded record and every alternative may be absent.

use vstd::prelude::*;

verus! {

/// One level of an authentication path on the wire. Either sibling tag may
/// be present, or both, or none.
#[derive(Debug, PartialEq, Eq)]
pub struct LemmaProto {
    pub node_hash: Vec<u8>,
    pub left_sibling_hash: Option<Vec<u8>>,
    pub right_sibling_hash: Option<Vec<u8>>,
    pub sub_lemma: Option<Box<LemmaProto>>,
}

/// What the wire form says of one level of an authentication path.
pub struct LemmaProtoLevel {
    pub node_hash: Seq<u8>,
    pub left_sibling_hash: Option<Seq<u8>>,
    pub right_sibling_hash: Option<Seq<u8>>,
}

pub open spec fn bytes_view(bytes: Option<Vec<u8>>) -> Option<Seq<u8>> {
    match bytes {
        Some(b) => Some(b@),
        None => None,
    }
}

impl LemmaProto {
    /// The level this record describes, without what lies below it.
    pub open spec fn level(&self) -> LemmaProtoLevel {
        LemmaProtoLevel {
            node_hash: self.node_hash@,
            left_sibling_hash: bytes_view(self.left_sibling_hash),
            right_sibling_hash: bytes_view(self.right_sibling_hash),
        }
    }

    /// The levels of the path, from this record down to the last sub-record.
    pub open spec fn levels(&self) -> Seq<LemmaProtoLevel>
        decreases self,
    {
        match self.sub_lemma {
            Some(sub) => seq![self.level()] + (*sub).levels(),
            None => seq![self.level()],
        }
    }
}

impl View for LemmaProto {
    type V = Seq<LemmaProtoLevel>;

    open spec fn view(&self) -> Seq<LemmaProtoLevel> {
        self.levels()
    }
}

/// An inclusion proof on the wire.
#[derive(Debug, PartialEq, Eq)]
pub struct ProofProto {
    pub root_hash: Vec<u8>,
    pub lemma: Option<LemmaProto>,
    pub value: Vec<u8>,
}

pub struct ProofProtoView {
    pub root_hash: Seq<u8>,
    pub lemma: Option<Seq<LemmaProtoLevel>>,
    pub value: Seq<u8>,
}

impl View for ProofProto {
    type V = ProofProtoView;

    open spec fn view(&self) -> ProofProtoView {
        ProofProtoView {
            root_hash: self.root_hash@,
            lemma: match self.lemma {
                Some(l) => Some(l@),
                None => None,
            },
            value: self.value@,
        }
    }
}

pub open spec fn proof_proto_view(record: Option<ProofProto>) -> Option<ProofProtoView> {
    match record {
        Some(p) => Some(p@),
        None => None,
    }
}

/// A `Value` message on the wire.
#[derive(Debug, PartialEq, Eq)]
pub struct ValueProto {
    pub proof: Option<ProofProto>,
}

/// An `Echo` message on the wire.
#[derive(Debug, PartialEq, Eq)]
pub struct EchoProto {
    pub proof: Option<ProofProto>,
}

/// A `Ready` message on the wire.
#[derive(Debug, PartialEq, Eq)]
pub struct ReadyProto {
    pub root_hash: Vec<u8>,
}

/// The alternatives of a broadcast message on the wire.
#[derive(Debug, PartialEq, Eq)]
pub enum BroadcastPayload {
    Value(ValueProto),
    Echo(EchoProto),
    Ready(ReadyProto),
}

/// A broadcast message on the wire; `payload` is absent where none of the
/// alternatives was set.
#[derive(Debug, PartialEq, Eq)]
pub struct BroadcastProto {
    pub payload: Option<BroadcastPayload>,
}

pub enum BroadcastProtoView {
    Value(Option<ProofProtoView>),
    Echo(Option<ProofProtoView>),
    Ready(Seq<u8>),
    Unset,
}

impl View for BroadcastProto {
    type V = BroadcastProtoView;

    open spec fn view(&self) -> BroadcastProtoView {
        match self.payload {
            Some(BroadcastPayload::Value(v)) => BroadcastProtoView::Value(proof_proto_view(v.proof)),
            Some(BroadcastPayload::Echo(e)) => BroadcastProtoView::Echo(proof_proto_view(e.proof)),
            Some(BroadcastPayload::Ready(r)) => BroadcastProtoView::Ready(r.root_hash@),
            None => BroadcastProtoView::Unset,
        }
    }
}

/// An agreement message on the wire. It has no fields.
#[derive(Debug, PartialEq, Eq)]
pub struct AgreementProto {}

/// The alternatives of a message on the wire.
#[derive(Debug, PartialEq, Eq)]
pub enum MessagePayload {
    Broadcast(BroadcastProto),
    Agreement(AgreementProto),
}

/// A message on the wire; `payload` is absent where the top-level
/// alternative was not set or not known.
#[derive(Debug, PartialEq, Eq)]
pub struct MessageProto {
    pub payload: Option<MessagePayload>,
}

pub enum MessageProtoView {
    Broadcast(BroadcastProtoView),
    Agreement,
    Unset,
}

impl View for MessageProto {
    type V = MessageProtoView;

    open spec fn view(&self) -> MessageProtoView {
        match self.payload {
            Some(MessagePayload::Broadcast(b)) => MessageProtoView::Broadcast(b@),
            Some(MessagePayload::Agreement(_)) => MessageProtoView::Agreement,
            None => MessageProtoView::Unset,
        }
    }
}

} // verus!
