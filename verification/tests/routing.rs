use hbbft::messaging::{
    fan_in, fan_out, Messaging, RoutingError, SourcedMessage, Target, TargetedMessage,
};
use hbbft::proto::{AgreementMessage, BroadcastMessage, Message};

fn ready(tag: u8) -> Message {
    Message::Broadcast(BroadcastMessage::Ready(vec![tag, tag + 1]))
}

#[test]
fn node_zero_is_no_target() {
    assert!(TargetedMessage::new(Target::Node(0), ready(1)).is_none());
}

#[test]
fn other_targets_are_accepted() {
    let all = TargetedMessage::new(Target::All, ready(1)).unwrap();
    assert_eq!(all.target(), Target::All);
    assert_eq!(all.message(), &ready(1));
    let one = TargetedMessage::new(Target::Node(1), ready(2)).unwrap();
    assert_eq!(one.target(), Target::Node(1));
    let far = TargetedMessage::new(Target::Node(usize::MAX), ready(3)).unwrap();
    assert_eq!(far.into_parts(), (Target::Node(usize::MAX), ready(3)));
}

#[test]
fn message_for_all_goes_to_every_outbox() {
    let message = TargetedMessage::new(Target::All, ready(7)).unwrap();
    let copies = fan_out(&message, 3).unwrap();
    assert_eq!(copies.len(), 3);
    for (j, copy) in copies.iter().enumerate() {
        assert_eq!(copy.outbox, j);
        assert_eq!(copy.message, ready(7));
    }
    assert_eq!(fan_out(&message, 0).unwrap().len(), 0);
}

#[test]
fn message_for_a_node_goes_to_the_outbox_before_its_index() {
    for i in 1..=3usize {
        let message = TargetedMessage::new(Target::Node(i), ready(9)).unwrap();
        let copies = fan_out(&message, 3).unwrap();
        assert_eq!(copies.len(), 1);
        assert_eq!(copies[0].outbox, i - 1);
        assert_eq!(copies[0].message, ready(9));
    }
}

#[test]
fn message_for_a_missing_node_is_dropped() {
    let message = TargetedMessage::new(Target::Node(4), ready(9)).unwrap();
    assert_eq!(fan_out(&message, 3), Err(RoutingError::NoSuchTarget(3)));
    assert_eq!(fan_out(&message, 0), Err(RoutingError::NoSuchTarget(3)));
}

#[test]
fn sourced_message_goes_to_every_inbox_with_its_source() {
    let message = SourcedMessage { source: 2, message: ready(4) };
    let copies = fan_in(&message, 4);
    assert_eq!(copies.len(), 4);
    for (j, copy) in copies.iter().enumerate() {
        assert_eq!(copy.inbox, j);
        assert_eq!(copy.message, SourcedMessage { source: 2, message: ready(4) });
    }
}

#[test]
fn messaging_has_one_outbox_per_remote_node_and_one_inbox_per_instance() {
    let messaging = Messaging::new(4);
    assert_eq!(messaging.num_nodes(), 4);
    assert_eq!(messaging.to_comms_rxs().len(), 3);
    assert_eq!(messaging.to_algo_rxs().len(), 4);
    let alone = Messaging::new(1);
    assert_eq!(alone.to_comms_rxs().len(), 0);
    assert_eq!(alone.to_algo_rxs().len(), 1);
}

#[test]
fn routed_broadcast_arrives_once_in_every_outbox() {
    let messaging = Messaging::new(4);
    let message = TargetedMessage::new(Target::All, ready(5)).unwrap();
    assert_eq!(messaging.route_targeted(&message), Ok(3));
    for rx in messaging.to_comms_rxs().iter() {
        assert_eq!(rx.try_recv().ok(), Some(ready(5)));
        assert!(rx.try_recv().is_err());
    }
}

#[test]
fn routed_message_for_a_node_arrives_in_its_outbox_only() {
    let messaging = Messaging::new(4);
    let message = TargetedMessage::new(Target::Node(2), ready(5)).unwrap();
    assert_eq!(messaging.route_targeted(&message), Ok(1));
    let rxs = messaging.to_comms_rxs();
    assert!(rxs[0].try_recv().is_err());
    assert_eq!(rxs[1].try_recv().ok(), Some(ready(5)));
    assert!(rxs[1].try_recv().is_err());
    assert!(rxs[2].try_recv().is_err());
}

#[test]
fn routed_message_for_a_missing_node_is_reported_and_dropped() {
    let messaging = Messaging::new(4);
    let message = TargetedMessage::new(Target::Node(4), ready(5)).unwrap();
    assert_eq!(messaging.route_targeted(&message), Err(RoutingError::NoSuchTarget(3)));
    for rx in messaging.to_comms_rxs().iter() {
        assert!(rx.try_recv().is_err());
    }
}

#[test]
fn routed_sourced_message_arrives_in_every_inbox() {
    let messaging = Messaging::new(3);
    let message = SourcedMessage { source: 1, message: Message::Agreement(AgreementMessage::Unspecified) };
    assert_eq!(messaging.route_sourced(&message), Ok(3));
    for rx in messaging.to_algo_rxs().iter() {
        let got = rx.try_recv().unwrap();
        assert_eq!(got.source, 1);
        assert_eq!(got.message, Message::Agreement(AgreementMessage::Unspecified));
        assert!(rx.try_recv().is_err());
    }
}

#[test]
fn messages_keep_their_order_on_each_channel() {
    let messaging = Messaging::new(2);
    for tag in 0..5u8 {
        let message = TargetedMessage::new(Target::Node(1), ready(tag)).unwrap();
        assert_eq!(messaging.route_targeted(&message), Ok(1));
    }
    let rx = &messaging.to_comms_rxs()[0];
    for tag in 0..5u8 {
        assert_eq!(rx.try_recv().ok(), Some(ready(tag)));
    }
}

#[test]
fn handles_of_the_two_sides_are_connected() {
    let messaging = Messaging::new(2);
    let targeted = TargetedMessage::new(Target::All, ready(1)).unwrap();
    messaging.from_algo_tx().send(targeted).unwrap();
    let got = messaging.from_algo_rx().try_recv().unwrap();
    assert_eq!(got.target(), Target::All);
    messaging.from_comms_tx().send(SourcedMessage { source: 1, message: ready(2) }).unwrap();
    let got = messaging.from_comms_rx().try_recv().unwrap();
    assert_eq!(got.source, 1);
    assert_eq!(got.message, ready(2));
}
