//! The protocol messages and their conversion to and from the wire form.

pub mod laws;
pub mod message;

use vstd::prelude::*;
use crate::proto::message::{
    AgreementProto, BroadcastPayload, BroadcastProto, BroadcastProtoView, EchoProto, LemmaProto,
    LemmaProtoLevel, MessagePayload, MessageProto, MessageProtoView, ProofProto, ProofProtoView,
    ReadyProto, ValueProto,
};

verus! {

/// A copy of a byte vector.
pub fn clone_bytes(bytes: &Vec<u8>) -> (copy: Vec<u8>)
    ensures
        copy@ == bytes@,
{
    let copy = bytes.clone();
    assert(copy@ =~= bytes@);
    copy
}

/// A sibling's hash, tagged with the side of the parent it hangs on.
#[derive(Debug, PartialEq, Eq)]
pub enum Positioned {
    Left(Vec<u8>),
    Right(Vec<u8>),
}

pub enum PositionedView {
    Left(Seq<u8>),
    Right(Seq<u8>),
}

impl View for Positioned {
    type V = PositionedView;

    open spec fn view(&self) -> PositionedView {
        match self {
            Positioned::Left(h) => PositionedView::Left(h@),
            Positioned::Right(h) => PositionedView::Right(h@),
        }
    }
}

impl Clone for Positioned {
    fn clone(&self) -> (copy: Self)
        ensures
            copy@ == self@,
    {
        match self {
            Positioned::Left(h) => Positioned::Left(clone_bytes(h)),
            Positioned::Right(h) => Positioned::Right(clone_bytes(h)),
        }
    }
}

pub open spec fn positioned_view(sibling: Option<Positioned>) -> Option<PositionedView> {
    match sibling {
        Some(s) => Some(s@),
        None => None,
    }
}

/// An authentication path: the hash of a node, the hash of the sibling of
/// the node's child on the path, and the path below that child.
#[derive(Debug, PartialEq, Eq)]
pub struct Lemma {
    pub node_hash: Vec<u8>,
    pub sibling_hash: Option<Positioned>,
    pub sub_lemma: Option<Box<Lemma>>,
}

/// One level of an authentication path.
pub struct LemmaLevel {
    pub node_hash: Seq<u8>,
    pub sibling_hash: Option<PositionedView>,
}

impl Lemma {
    /// The level this node describes, without what lies below it.
    pub open spec fn level(&self) -> LemmaLevel {
        LemmaLevel { node_hash: self.node_hash@, sibling_hash: positioned_view(self.sibling_hash) }
    }

    /// The levels of the path, from the root down to the leaf.
    pub open spec fn levels(&self) -> Seq<LemmaLevel>
        decreases self,
    {
        match self.sub_lemma {
            Some(sub) => seq![self.level()] + (*sub).levels(),
            None => seq![self.level()],
        }
    }
}

impl View for Lemma {
    type V = Seq<LemmaLevel>;

    open spec fn view(&self) -> Seq<LemmaLevel> {
        self.levels()
    }
}

impl Clone for Lemma {
    fn clone(&self) -> (copy: Self)
        ensures
            copy@ == self@,
        decreases self,
    {
        let node_hash = clone_bytes(&self.node_hash);
        let sibling_hash = match &self.sibling_hash {
            Some(s) => Some(s.clone()),
            None => None,
        };
        let sub_lemma = match &self.sub_lemma {
            Some(sub) => Some(Box::new((**sub).clone())),
            None => None,
        };
        Lemma { node_hash, sibling_hash, sub_lemma }
    }
}

/// A path is complete where every level above the last names a sibling.
pub open spec fn lemma_well_formed(lemma: Seq<LemmaLevel>) -> bool {
    forall|i: int| 0 <= i < lemma.len() - 1 ==> (#[trigger] lemma[i]).sibling_hash.is_some()
}

/// An inclusion proof: the value of a leaf, the root hash of the tree it is
/// claimed to belong to, and the authentication path between the two.
#[derive(Debug, PartialEq, Eq)]
pub struct Proof {
    pub root_hash: Vec<u8>,
    pub lemma: Lemma,
    pub value: Vec<u8>,
}

pub struct ProofView {
    pub root_hash: Seq<u8>,
    pub lemma: Seq<LemmaLevel>,
    pub value: Seq<u8>,
}

impl View for Proof {
    type V = ProofView;

    open spec fn view(&self) -> ProofView {
        ProofView { root_hash: self.root_hash@, lemma: self.lemma@, value: self.value@ }
    }
}

impl Clone for Proof {
    fn clone(&self) -> (copy: Self)
        ensures
            copy@ == self@,
    {
        Proof {
            root_hash: clone_bytes(&self.root_hash),
            lemma: self.lemma.clone(),
            value: clone_bytes(&self.value),
        }
    }
}

/// The three kinds of message sent during reliable broadcast.
#[derive(Debug, PartialEq, Eq)]
pub enum BroadcastMessage {
    Value(Proof),
    Echo(Proof),
    Ready(Vec<u8>),
}

pub enum BroadcastView {
    Value(ProofView),
    Echo(ProofView),
    Ready(Seq<u8>),
}

impl View for BroadcastMessage {
    type V = BroadcastView;

    open spec fn view(&self) -> BroadcastView {
        match self {
            BroadcastMessage::Value(p) => BroadcastView::Value(p@),
            BroadcastMessage::Echo(p) => BroadcastView::Echo(p@),
            BroadcastMessage::Ready(h) => BroadcastView::Ready(h@),
        }
    }
}

impl Clone for BroadcastMessage {
    fn clone(&self) -> (copy: Self)
        ensures
            copy@ == self@,
    {
        match self {
            BroadcastMessage::Value(p) => BroadcastMessage::Value(p.clone()),
            BroadcastMessage::Echo(p) => BroadcastMessage::Echo(p.clone()),
            BroadcastMessage::Ready(h) => BroadcastMessage::Ready(clone_bytes(h)),
        }
    }
}

/// Messages of the binary agreement stage. The stage is a collaborator whose
/// messages are routed like any other; their content is not defined here,
/// so the one kind of message there is carries none.
#[derive(Clone, Copy, Debug, PartialEq, Eq, Structural)]
pub enum AgreementMessage {
    Unspecified,
}

/// Kinds of message sent by nodes participating in consensus.
#[derive(Debug, PartialEq, Eq)]
pub enum Message {
    Broadcast(BroadcastMessage),
    Agreement(AgreementMessage),
}

pub enum MessageView {
    Broadcast(BroadcastView),
    Agreement(AgreementMessage),
}

impl View for Message {
    type V = MessageView;

    open spec fn view(&self) -> MessageView {
        match self {
            Message::Broadcast(b) => MessageView::Broadcast(b@),
            Message::Agreement(a) => MessageView::Agreement(*a),
        }
    }
}

impl Clone for Message {
    fn clone(&self) -> (copy: Self)
        ensures
            copy@ == self@,
    {
        match self {
            Message::Broadcast(b) => Message::Broadcast(b.clone()),
            Message::Agreement(a) => Message::Agreement(*a),
        }
    }
}

// ---------------------------------------------------------------------
// Conversion between the messages and their wire form.

/// The sibling a wire level names: the left tag where it is present, else
/// the right one.
pub open spec fn sibling_from_proto(level: LemmaProtoLevel) -> Option<PositionedView> {
    match level.left_sibling_hash {
        Some(h) => Some(PositionedView::Left(h)),
        None => match level.right_sibling_hash {
            Some(h) => Some(PositionedView::Right(h)),
            None => None,
        },
    }
}

pub open spec fn lemma_level_from_proto(level: LemmaProtoLevel) -> LemmaLevel {
    LemmaLevel { node_hash: level.node_hash, sibling_hash: sibling_from_proto(level) }
}

pub open spec fn lemma_level_to_proto(level: LemmaLevel) -> LemmaProtoLevel {
    LemmaProtoLevel {
        node_hash: level.node_hash,
        left_sibling_hash: match level.sibling_hash {
            Some(PositionedView::Left(h)) => Some(h),
            _ => None,
        },
        right_sibling_hash: match level.sibling_hash {
            Some(PositionedView::Right(h)) => Some(h),
            _ => None,
        },
    }
}

/// A wire path can be read where every level above the last carries
/// exactly one sibling tag.
pub open spec fn lemma_proto_parses(proto: Seq<LemmaProtoLevel>) -> bool {
    forall|i: int|
        0 <= i < proto.len() - 1 ==> (#[trigger] proto[i]).left_sibling_hash.is_some()
            != proto[i].right_sibling_hash.is_some()
}

/// The path a wire path stands for, if it can be read.
pub open spec fn lemma_from_proto(proto: Seq<LemmaProtoLevel>) -> Option<Seq<LemmaLevel>> {
    if lemma_proto_parses(proto) {
        Some(proto.map_values(|level: LemmaProtoLevel| lemma_level_from_proto(level)))
    } else {
        None
    }
}

/// The wire form of a path, level by level.
pub open spec fn lemma_to_proto(lemma: Seq<LemmaLevel>) -> Seq<LemmaProtoLevel> {
    lemma.map_values(|level: LemmaLevel| lemma_level_to_proto(level))
}

/// The proof a wire proof stands for: it needs a lemma, and one that can be
/// read.
pub open spec fn proof_from_proto(proto: ProofProtoView) -> Option<ProofView> {
    match proto.lemma {
        Some(l) => match lemma_from_proto(l) {
            Some(lemma) => Some(
                ProofView { root_hash: proto.root_hash, lemma: lemma, value: proto.value },
            ),
            None => None,
        },
        None => None,
    }
}

pub open spec fn proof_to_proto(p: ProofView) -> ProofProtoView {
    ProofProtoView {
        root_hash: p.root_hash,
        lemma: Some(lemma_to_proto(p.lemma)),
        value: p.value,
    }
}

pub open spec fn embedded_proof_from_proto(proto: Option<ProofProtoView>) -> Option<ProofView> {
    match proto {
        Some(p) => proof_from_proto(p),
        None => None,
    }
}

/// The broadcast message a wire record stands for: one of the three
/// alternatives must be set, and a `Value` or `Echo` must embed a proof that
/// can be read.
pub open spec fn broadcast_from_proto(proto: BroadcastProtoView) -> Option<BroadcastView> {
    match proto {
        BroadcastProtoView::Value(p) => match embedded_proof_from_proto(p) {
            Some(v) => Some(BroadcastView::Value(v)),
            None => None,
        },
        BroadcastProtoView::Echo(p) => match embedded_proof_from_proto(p) {
            Some(v) => Some(BroadcastView::Echo(v)),
            None => None,
        },
        BroadcastProtoView::Ready(h) => Some(BroadcastView::Ready(h)),
        BroadcastProtoView::Unset => None,
    }
}

pub open spec fn broadcast_to_proto(b: BroadcastView) -> BroadcastProtoView {
    match b {
        BroadcastView::Value(p) => BroadcastProtoView::Value(Some(proof_to_proto(p))),
        BroadcastView::Echo(p) => BroadcastProtoView::Echo(Some(proof_to_proto(p))),
        BroadcastView::Ready(h) => BroadcastProtoView::Ready(h),
    }
}

/// The message a wire record stands for, if any.
pub open spec fn message_from_proto(proto: MessageProtoView) -> Option<MessageView> {
    match proto {
        MessageProtoView::Broadcast(b) => match broadcast_from_proto(b) {
            Some(v) => Some(MessageView::Broadcast(v)),
            None => None,
        },
        MessageProtoView::Agreement => Some(MessageView::Agreement(AgreementMessage::Unspecified)),
        MessageProtoView::Unset => None,
    }
}

pub open spec fn message_to_proto(m: MessageView) -> MessageProtoView {
    match m {
        MessageView::Broadcast(b) => MessageProtoView::Broadcast(broadcast_to_proto(b)),
        MessageView::Agreement(_) => MessageProtoView::Agreement,
    }
}

pub open spec fn lemma_view(lemma: Option<Lemma>) -> Option<Seq<LemmaLevel>> {
    match lemma {
        Some(l) => Some(l@),
        None => None,
    }
}

pub open spec fn proof_view(p: Option<Proof>) -> Option<ProofView> {
    match p {
        Some(p) => Some(p@),
        None => None,
    }
}

pub open spec fn broadcast_view(b: Option<BroadcastMessage>) -> Option<BroadcastView> {
    match b {
        Some(b) => Some(b@),
        None => None,
    }
}

pub open spec fn message_view(m: Option<Message>) -> Option<MessageView> {
    match m {
        Some(m) => Some(m@),
        None => None,
    }
}

proof fn lemma_from_proto_unfold(head: LemmaProtoLevel, tail: Seq<LemmaProtoLevel>)
    requires
        tail.len() > 0,
    ensures
        lemma_from_proto(seq![head] + tail) == (if head.left_sibling_hash.is_some()
            != head.right_sibling_hash.is_some() {
            match lemma_from_proto(tail) {
                Some(rest) => Some(seq![lemma_level_from_proto(head)] + rest),
                None => None,
            }
        } else {
            None
        }),
{
    let whole = seq![head] + tail;
    assert(whole[0] == head);
    assert forall|i: int| 0 <= i < tail.len() implies #[trigger] tail[i] == whole[i + 1] by {}
    if lemma_proto_parses(whole) {
        assert forall|i: int| 0 <= i < tail.len() - 1 implies (#[trigger] tail[i]).left_sibling_hash.is_some()
            != tail[i].right_sibling_hash.is_some() by {
            assert(tail[i] == whole[i + 1]);
        }
        let f = |level: LemmaProtoLevel| lemma_level_from_proto(level);
        assert(whole.map_values(f) =~= seq![lemma_level_from_proto(head)] + tail.map_values(f));
    } else {
        if head.left_sibling_hash.is_some() != head.right_sibling_hash.is_some() {
            if lemma_proto_parses(tail) {
                assert forall|i: int| 0 <= i < whole.len() - 1 implies (#[trigger] whole[i]).left_sibling_hash.is_some()
                    != whole[i].right_sibling_hash.is_some() by {
                    if i > 0 {
                        assert(whole[i] == tail[i - 1]);
                    }
                }
            }
        }
    }
}

proof fn lemma_from_proto_single(head: LemmaProtoLevel)
    ensures
        lemma_from_proto(seq![head]) == Some(seq![lemma_level_from_proto(head)]),
{
    let f = |level: LemmaProtoLevel| lemma_level_from_proto(level);
    assert(seq![head].map_values(f) =~= seq![lemma_level_from_proto(head)]);
}

proof fn lemma_to_proto_unfold(head: LemmaLevel, tail: Seq<LemmaLevel>)
    ensures
        lemma_to_proto(seq![head] + tail) == seq![lemma_level_to_proto(head)] + lemma_to_proto(tail),
        lemma_to_proto(seq![head]) == seq![lemma_level_to_proto(head)],
{
    let f = |level: LemmaLevel| lemma_level_to_proto(level);
    assert((seq![head] + tail).map_values(f) =~= seq![lemma_level_to_proto(head)] + tail.map_values(f));
    assert(seq![head].map_values(f) =~= seq![lemma_level_to_proto(head)]);
}

impl LemmaProto {
    /// The wire form of an authentication path. Every level keeps its node
    /// hash, and its sibling under the tag of its side.
    pub fn into_proto(lemma: Lemma) -> (proto: Self)
        ensures
            proto@ == lemma_to_proto(lemma@),
        decreases lemma,
    {
        let Lemma { node_hash, sibling_hash, sub_lemma } = lemma;
        let ghost level = lemma.level();
        let (left_sibling_hash, right_sibling_hash) = match sibling_hash {
            Some(Positioned::Left(hash)) => (Some(hash), None),
            Some(Positioned::Right(hash)) => (None, Some(hash)),
            None => (None, None),
        };
        let sub_proto = match sub_lemma {
            Some(sub) => {
                let sub_proto = Self::into_proto(*sub);
                proof {
                    lemma_to_proto_unfold(level, sub@);
                }
                Some(Box::new(sub_proto))
            },
            None => {
                proof {
                    lemma_to_proto_unfold(level, Seq::empty());
                }
                None
            },
        };
        LemmaProto { node_hash, left_sibling_hash, right_sibling_hash, sub_lemma: sub_proto }
    }

    /// Reads an authentication path from its wire form. A level above the
    /// last with both sibling tags, or with none, makes the whole path
    /// unreadable.
    pub fn from_proto(self) -> (lemma: Option<Lemma>)
        ensures
            lemma_view(lemma) == lemma_from_proto(self@),
        decreases self,
    {
        let ghost level = self.level();
        let LemmaProto { node_hash, left_sibling_hash, right_sibling_hash, sub_lemma } = self;
        match sub_lemma {
            Some(sub) => {
                proof {
                    lemma_from_proto_unfold(level, sub@);
                }
                let sibling_hash = match (left_sibling_hash, right_sibling_hash) {
                    (Some(hash), None) => Positioned::Left(hash),
                    (None, Some(hash)) => Positioned::Right(hash),
                    _ => {
                        return None;
                    },
                };
                match (*sub).from_proto() {
                    Some(sub_lemma) => Some(
                        Lemma {
                            node_hash,
                            sibling_hash: Some(sibling_hash),
                            sub_lemma: Some(Box::new(sub_lemma)),
                        },
                    ),
                    None => None,
                }
            },
            None => {
                proof {
                    lemma_from_proto_single(level);
                }
                let sibling_hash = match (left_sibling_hash, right_sibling_hash) {
                    (Some(hash), _) => Some(Positioned::Left(hash)),
                    (None, Some(hash)) => Some(Positioned::Right(hash)),
                    (None, None) => None,
                };
                Some(Lemma { node_hash, sibling_hash, sub_lemma: None })
            },
        }
    }
}

impl ProofProto {
    /// The wire form of an inclusion proof. Its lemma is always present.
    pub fn into_proto(p: Proof) -> (proto: Self)
        ensures
            proto@ == proof_to_proto(p@),
    {
        let Proof { root_hash, lemma, value } = p;
        ProofProto { root_hash, lemma: Some(LemmaProto::into_proto(lemma)), value }
    }

    /// Reads an inclusion proof from its wire form: `None` where the lemma
    /// is absent or cannot be read.
    pub fn from_proto(self) -> (p: Option<Proof>)
        ensures
            proof_view(p) == proof_from_proto(self@),
    {
        let ProofProto { root_hash, lemma, value } = self;
        match lemma {
            Some(lemma_proto) => match lemma_proto.from_proto() {
                Some(lemma) => Some(Proof { root_hash, lemma, value }),
                None => None,
            },
            None => None,
        }
    }
}

impl AgreementMessage {
    /// The wire form of an agreement message, which has no fields.
    pub fn into_proto(self) -> (proto: AgreementProto)
        ensures
            proto == (AgreementProto {}),
    {
        AgreementProto {}
    }

    /// Reads an agreement message from its wire form. Every such record
    /// stands for the one message there is.
    pub fn from_proto(mp: AgreementProto) -> (m: Option<Self>)
        ensures
            m == Some(AgreementMessage::Unspecified),
    {
        Some(AgreementMessage::Unspecified)
    }
}

impl BroadcastMessage {
    /// The wire form of a broadcast message, with the alternative set that
    /// matches the kind of the message.
    pub fn into_proto(self) -> (proto: BroadcastProto)
        ensures
            proto@ == broadcast_to_proto(self@),
    {
        let payload = match self {
            BroadcastMessage::Value(p) => BroadcastPayload::Value(
                ValueProto { proof: Some(ProofProto::into_proto(p)) },
            ),
            BroadcastMessage::Echo(p) => BroadcastPayload::Echo(
                EchoProto { proof: Some(ProofProto::into_proto(p)) },
            ),
            BroadcastMessage::Ready(h) => BroadcastPayload::Ready(ReadyProto { root_hash: h }),
        };
        BroadcastProto { payload: Some(payload) }
    }

    /// Reads a broadcast message from its wire form: `None` where no
    /// alternative is set, or where a `Value` or `Echo` embeds no proof or
    /// one that cannot be read.
    pub fn from_proto(mp: BroadcastProto) -> (m: Option<Self>)
        ensures
            broadcast_view(m) == broadcast_from_proto(mp@),
    {
        match mp.payload {
            Some(BroadcastPayload::Value(v)) => match v.proof {
                Some(proof_proto) => match proof_proto.from_proto() {
                    Some(p) => Some(BroadcastMessage::Value(p)),
                    None => None,
                },
                None => None,
            },
            Some(BroadcastPayload::Echo(e)) => match e.proof {
                Some(proof_proto) => match proof_proto.from_proto() {
                    Some(p) => Some(BroadcastMessage::Echo(p)),
                    None => None,
                },
                None => None,
            },
            Some(BroadcastPayload::Ready(r)) => Some(BroadcastMessage::Ready(r.root_hash)),
            None => None,
        }
    }
}

impl Message {
    /// Reads a message from its wire form: `None` where the top-level
    /// alternative is not set, or where the embedded record cannot be read.
    pub fn from_proto(proto: MessageProto) -> (m: Option<Self>)
        ensures
            message_view(m) == message_from_proto(proto@),
    {
        match proto.payload {
            Some(MessagePayload::Broadcast(b)) => match BroadcastMessage::from_proto(b) {
                Some(b) => Some(Message::Broadcast(b)),
                None => None,
            },
            Some(MessagePayload::Agreement(a)) => match AgreementMessage::from_proto(a) {
                Some(a) => Some(Message::Agreement(a)),
                None => None,
            },
            None => None,
        }
    }

    /// The wire form of a message.
    pub fn into_proto(self) -> (proto: MessageProto)
        ensures
            proto@ == message_to_proto(self@),
    {
        let payload = match self {
            Message::Broadcast(b) => MessagePayload::Broadcast(b.into_proto()),
            Message::Agreement(a) => MessagePayload::Agreement(a.into_proto()),
        };
        MessageProto { payload: Some(payload) }
    }
}

} // verus!
