use hbbft::proto::message::{
    AgreementProto, BroadcastPayload, BroadcastProto, EchoProto, LemmaProto, MessagePayload,
    MessageProto, ProofProto, ReadyProto, ValueProto,
};
use hbbft::proto::{AgreementMessage, BroadcastMessage, Lemma, Message, Positioned, Proof};

fn leaf(hash: u8) -> Lemma {
    Lemma { node_hash: vec![hash; 4], sibling_hash: None, sub_lemma: None }
}

fn two_levels() -> Lemma {
    Lemma {
        node_hash: vec![1, 2, 3],
        sibling_hash: Some(Positioned::Left(vec![9, 9])),
        sub_lemma: Some(Box::new(Lemma {
            node_hash: vec![4, 5],
            sibling_hash: Some(Positioned::Right(vec![8])),
            sub_lemma: Some(Box::new(leaf(7))),
        })),
    }
}

fn sample_proof() -> Proof {
    Proof { root_hash: vec![1, 2, 3], lemma: two_levels(), value: vec![42, 43] }
}

#[test]
fn lemma_into_proto_keeps_every_level() {
    let proto = LemmaProto::into_proto(two_levels());
    assert_eq!(proto.node_hash, vec![1, 2, 3]);
    assert_eq!(proto.left_sibling_hash, Some(vec![9, 9]));
    assert_eq!(proto.right_sibling_hash, None);
    let sub = proto.sub_lemma.unwrap();
    assert_eq!(sub.node_hash, vec![4, 5]);
    assert_eq!(sub.left_sibling_hash, None);
    assert_eq!(sub.right_sibling_hash, Some(vec![8]));
    let last = sub.sub_lemma.unwrap();
    assert_eq!(last.node_hash, vec![7; 4]);
    assert_eq!(last.left_sibling_hash, None);
    assert_eq!(last.right_sibling_hash, None);
    assert!(last.sub_lemma.is_none());
}

#[test]
fn lemma_round_trips() {
    let back = LemmaProto::into_proto(two_levels()).from_proto();
    assert_eq!(back, Some(two_levels()));
    assert_eq!(LemmaProto::into_proto(leaf(3)).from_proto(), Some(leaf(3)));
}

#[test]
fn lemma_above_the_last_needs_exactly_one_sibling() {
    let neither = LemmaProto {
        node_hash: vec![1],
        left_sibling_hash: None,
        right_sibling_hash: None,
        sub_lemma: Some(Box::new(LemmaProto::into_proto(leaf(2)))),
    };
    assert_eq!(neither.from_proto(), None);
    let both = LemmaProto {
        node_hash: vec![1],
        left_sibling_hash: Some(vec![5]),
        right_sibling_hash: Some(vec![6]),
        sub_lemma: Some(Box::new(LemmaProto::into_proto(leaf(2)))),
    };
    assert_eq!(both.from_proto(), None);
}

#[test]
fn malformed_level_deep_down_spoils_the_whole_lemma() {
    let bad = LemmaProto {
        node_hash: vec![4],
        left_sibling_hash: None,
        right_sibling_hash: None,
        sub_lemma: Some(Box::new(LemmaProto::into_proto(leaf(2)))),
    };
    let top = LemmaProto {
        node_hash: vec![1],
        left_sibling_hash: Some(vec![3]),
        right_sibling_hash: None,
        sub_lemma: Some(Box::new(bad)),
    };
    assert_eq!(top.from_proto(), None);
}

#[test]
fn last_level_takes_the_left_sibling_first() {
    let both = LemmaProto {
        node_hash: vec![1],
        left_sibling_hash: Some(vec![5]),
        right_sibling_hash: Some(vec![6]),
        sub_lemma: None,
    };
    assert_eq!(
        both.from_proto(),
        Some(Lemma {
            node_hash: vec![1],
            sibling_hash: Some(Positioned::Left(vec![5])),
            sub_lemma: None
        })
    );
    let right = LemmaProto {
        node_hash: vec![1],
        left_sibling_hash: None,
        right_sibling_hash: Some(vec![6]),
        sub_lemma: None,
    };
    assert_eq!(
        right.from_proto(),
        Some(Lemma {
            node_hash: vec![1],
            sibling_hash: Some(Positioned::Right(vec![6])),
            sub_lemma: None
        })
    );
}

#[test]
fn proof_round_trips() {
    let proto = ProofProto::into_proto(sample_proof());
    assert_eq!(proto.root_hash, vec![1, 2, 3]);
    assert_eq!(proto.value, vec![42, 43]);
    assert!(proto.lemma.is_some());
    assert_eq!(proto.from_proto(), Some(sample_proof()));
}

#[test]
fn proof_without_lemma_does_not_parse() {
    let proto = ProofProto { root_hash: vec![1], lemma: None, value: vec![2] };
    assert_eq!(proto.from_proto(), None);
}

#[test]
fn proof_with_malformed_lemma_does_not_parse() {
    let lemma = LemmaProto {
        node_hash: vec![1],
        left_sibling_hash: None,
        right_sibling_hash: None,
        sub_lemma: Some(Box::new(LemmaProto::into_proto(leaf(2)))),
    };
    let proto = ProofProto { root_hash: vec![1], lemma: Some(lemma), value: vec![2] };
    assert_eq!(proto.from_proto(), None);
}

#[test]
fn value_message_round_trips() {
    let proto = Message::Broadcast(BroadcastMessage::Value(sample_proof())).into_proto();
    match &proto.payload {
        Some(MessagePayload::Broadcast(b)) => match &b.payload {
            Some(BroadcastPayload::Value(v)) => assert!(v.proof.is_some()),
            _ => panic!("the value alternative is not set"),
        },
        _ => panic!("the broadcast alternative is not set"),
    }
    assert_eq!(
        Message::from_proto(proto),
        Some(Message::Broadcast(BroadcastMessage::Value(sample_proof())))
    );
}

#[test]
fn echo_message_round_trips() {
    let proto = Message::Broadcast(BroadcastMessage::Echo(sample_proof())).into_proto();
    assert_eq!(
        Message::from_proto(proto),
        Some(Message::Broadcast(BroadcastMessage::Echo(sample_proof())))
    );
}

#[test]
fn ready_message_round_trips() {
    let proto = BroadcastMessage::Ready(vec![5, 6, 7]).into_proto();
    assert_eq!(
        proto.payload,
        Some(BroadcastPayload::Ready(ReadyProto { root_hash: vec![5, 6, 7] }))
    );
    assert_eq!(BroadcastMessage::from_proto(proto), Some(BroadcastMessage::Ready(vec![5, 6, 7])));
    let whole = Message::Broadcast(BroadcastMessage::Ready(vec![5, 6, 7])).into_proto();
    assert_eq!(
        Message::from_proto(whole),
        Some(Message::Broadcast(BroadcastMessage::Ready(vec![5, 6, 7])))
    );
}

#[test]
fn agreement_message_round_trips() {
    let proto = Message::Agreement(AgreementMessage::Unspecified).into_proto();
    assert_eq!(proto.payload, Some(MessagePayload::Agreement(AgreementProto {})));
    assert_eq!(Message::from_proto(proto), Some(Message::Agreement(AgreementMessage::Unspecified)));
    assert_eq!(AgreementMessage::Unspecified.into_proto(), AgreementProto {});
    assert_eq!(
        AgreementMessage::from_proto(AgreementProto {}),
        Some(AgreementMessage::Unspecified)
    );
}

#[test]
fn message_without_alternative_does_not_parse() {
    assert_eq!(Message::from_proto(MessageProto { payload: None }), None);
}

#[test]
fn broadcast_without_alternative_does_not_parse() {
    assert_eq!(BroadcastMessage::from_proto(BroadcastProto { payload: None }), None);
    let whole =
        MessageProto { payload: Some(MessagePayload::Broadcast(BroadcastProto { payload: None })) };
    assert_eq!(Message::from_proto(whole), None);
}

#[test]
fn value_or_echo_without_proof_does_not_parse() {
    let value = BroadcastProto { payload: Some(BroadcastPayload::Value(ValueProto { proof: None })) };
    assert_eq!(BroadcastMessage::from_proto(value), None);
    let echo = BroadcastProto { payload: Some(BroadcastPayload::Echo(EchoProto { proof: None })) };
    assert_eq!(BroadcastMessage::from_proto(echo), None);
}

#[test]
fn value_or_echo_whose_proof_lacks_a_lemma_does_not_parse() {
    let value = BroadcastProto {
        payload: Some(BroadcastPayload::Value(ValueProto {
            proof: Some(ProofProto { root_hash: vec![1], lemma: None, value: vec![2] }),
        })),
    };
    assert_eq!(BroadcastMessage::from_proto(value), None);
    let echo = BroadcastProto {
        payload: Some(BroadcastPayload::Echo(EchoProto {
            proof: Some(ProofProto { root_hash: vec![1], lemma: None, value: vec![2] }),
        })),
    };
    assert_eq!(BroadcastMessage::from_proto(echo), None);
}

#[test]
fn message_with_incomplete_path_does_not_survive_the_wire() {
    let incomplete = Lemma {
        node_hash: vec![1],
        sibling_hash: None,
        sub_lemma: Some(Box::new(leaf(2))),
    };
    let message = Message::Broadcast(BroadcastMessage::Echo(Proof {
        root_hash: vec![1],
        lemma: incomplete,
        value: vec![3],
    }));
    assert_eq!(Message::from_proto(message.into_proto()), None);
}

#[test]
fn clones_are_equal() {
    let message = Message::Broadcast(BroadcastMessage::Value(sample_proof()));
    assert_eq!(message.clone(), message);
    assert_eq!(two_levels().clone(), two_levels());
    assert_eq!(hbbft::proto::clone_bytes(&vec![1, 2, 3]), vec![1, 2, 3]);
}
