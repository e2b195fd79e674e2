use hbbft::broadcast::{Broadcast, BroadcastError, Phase, Step};
use hbbft::erasure::encode;
use hbbft::hashing::HashAlgorithm;
use hbbft::merkle_tree::build;
use hbbft::messaging::{Target, TargetedMessage};
use hbbft::proto::{AgreementMessage, BroadcastMessage, Message, Proof};
use std::collections::VecDeque;

const ALG: HashAlgorithm = HashAlgorithm::Sha256;

fn replicas(n: usize, f: usize, proposer: usize) -> Vec<Broadcast> {
    let mut out = Vec::new();
    for id in 1..=n {
        out.push(Broadcast::new(n, f, id, proposer, ALG).unwrap());
    }
    out
}

fn proofs_of(value: &[u8], n: usize, f: usize) -> Vec<Proof> {
    let shards = encode(&value.to_vec(), n, f).unwrap();
    build(&shards, ALG).1
}

fn root_of(value: &[u8], n: usize, f: usize) -> Vec<u8> {
    let shards = encode(&value.to_vec(), n, f).unwrap();
    build(&shards, ALG).0
}

fn echo(p: &Proof) -> Message {
    Message::Broadcast(BroadcastMessage::Echo(p.clone()))
}

fn ready(root: &Vec<u8>) -> Message {
    Message::Broadcast(BroadcastMessage::Ready(root.clone()))
}

fn post(queue: &mut VecDeque<(usize, TargetedMessage)>, from: usize, step: Step) {
    for m in step.messages {
        queue.push_back((from, m));
    }
}

/// Delivers what is queued until nothing is left; replicas in `silent` get
/// nothing and say nothing. Gives what each replica delivered, and when.
fn run(
    nodes: &mut Vec<Broadcast>,
    queue: &mut VecDeque<(usize, TargetedMessage)>,
    silent: &[usize],
) -> Vec<Vec<Vec<u8>>> {
    let n = nodes.len();
    let mut delivered: Vec<Vec<Vec<u8>>> = vec![Vec::new(); n];
    while let Some((from, targeted)) = queue.pop_front() {
        let (target, message) = targeted.into_parts();
        let to: Vec<usize> = match target {
            Target::All => (1..=n).filter(|id| *id != from).collect(),
            Target::Node(id) => vec![id],
        };
        for id in to {
            if silent.contains(&id) {
                continue;
            }
            let step = nodes[id - 1].handle_message(from, message.clone());
            if let Some(value) = &step.output {
                delivered[id - 1].push(value.clone());
            }
            post(queue, id, step);
        }
    }
    delivered
}

#[test]
fn replica_needs_fitting_numbers() {
    assert!(Broadcast::new(4, 1, 1, 1, ALG).is_some());
    assert!(Broadcast::new(1, 0, 1, 1, ALG).is_some());
    assert!(Broadcast::new(256, 85, 256, 1, ALG).is_some());
    assert!(Broadcast::new(0, 0, 1, 1, ALG).is_none());
    assert!(Broadcast::new(3, 1, 1, 1, ALG).is_none());
    assert!(Broadcast::new(6, 2, 1, 1, ALG).is_none());
    assert!(Broadcast::new(7, 2, 1, 1, ALG).is_some());
    assert!(Broadcast::new(257, 1, 1, 1, ALG).is_none());
    assert!(Broadcast::new(4, 1, 0, 1, ALG).is_none());
    assert!(Broadcast::new(4, 1, 5, 1, ALG).is_none());
    assert!(Broadcast::new(4, 1, 1, 0, ALG).is_none());
    assert!(Broadcast::new(4, 1, 1, 5, ALG).is_none());
    assert!(Broadcast::new(4, usize::MAX, 1, 1, ALG).is_none());
}

#[test]
fn new_replica_has_seen_nothing() {
    let b = Broadcast::new(4, 1, 2, 3, ALG).unwrap();
    assert_eq!(b.num_nodes(), 4);
    assert_eq!(b.num_faulty(), 1);
    assert_eq!(b.our_id(), 2);
    assert_eq!(b.proposer_id(), 3);
    assert_eq!(b.phase(), Phase::Init);
    assert_eq!(b.output(), None);
}

#[test]
fn proposer_sends_each_replica_its_shard_and_echoes_its_own() {
    let mut nodes = replicas(4, 1, 2);
    let step = nodes[1].propose(&b"Proposed value".to_vec()).unwrap();
    let proofs = proofs_of(b"Proposed value", 4, 1);
    assert_eq!(step.messages.len(), 4);
    let expected = [
        (Target::Node(1), Message::Broadcast(BroadcastMessage::Value(proofs[0].clone()))),
        (Target::Node(3), Message::Broadcast(BroadcastMessage::Value(proofs[2].clone()))),
        (Target::Node(4), Message::Broadcast(BroadcastMessage::Value(proofs[3].clone()))),
        (Target::All, echo(&proofs[1])),
    ];
    for (m, (target, message)) in step.messages.iter().zip(expected.iter()) {
        assert_eq!(m.target(), *target);
        assert_eq!(m.message(), message);
    }
    assert_eq!(step.output, None);
    assert_eq!(nodes[1].phase(), Phase::Echoing);
}

#[test]
fn only_the_proposer_proposes_and_only_once() {
    let mut nodes = replicas(4, 1, 2);
    assert_eq!(nodes[0].propose(&vec![1]).err(), Some(BroadcastError::NotProposer));
    assert_eq!(nodes[0].phase(), Phase::Init);
    assert!(nodes[1].propose(&vec![1]).is_ok());
    assert_eq!(nodes[1].propose(&vec![1]).err(), Some(BroadcastError::AlreadyProposed));
    assert_eq!(nodes[1].propose(&vec![2]).err(), Some(BroadcastError::AlreadyProposed));
}

#[test]
fn four_replicas_deliver_the_proposed_value() {
    let mut nodes = replicas(4, 1, 1);
    let mut queue = VecDeque::new();
    let step = nodes[0].propose(&b"Proposed value".to_vec()).unwrap();
    post(&mut queue, 1, step);
    let delivered = run(&mut nodes, &mut queue, &[]);
    for id in 1..=4 {
        assert_eq!(delivered[id - 1], vec![b"Proposed value".to_vec()]);
        assert_eq!(nodes[id - 1].output(), Some(&b"Proposed value".to_vec()));
        assert_eq!(nodes[id - 1].phase(), Phase::Delivered);
    }
}

#[test]
fn seven_replicas_deliver_with_two_silent() {
    let mut nodes = replicas(7, 2, 3);
    let mut queue = VecDeque::new();
    let value: Vec<u8> = (0..200u8).collect();
    let step = nodes[2].propose(&value).unwrap();
    post(&mut queue, 3, step);
    let delivered = run(&mut nodes, &mut queue, &[6, 7]);
    for id in 1..=5 {
        assert_eq!(delivered[id - 1], vec![value.clone()]);
    }
    assert_eq!(nodes[5].output(), None);
    assert_eq!(nodes[6].output(), None);
}

#[test]
fn single_replica_delivers_its_own_proposal() {
    let mut only = Broadcast::new(1, 0, 1, 1, ALG).unwrap();
    let step = only.propose(&vec![1, 2, 3]).unwrap();
    assert_eq!(step.output, Some(vec![1, 2, 3]));
    assert_eq!(only.phase(), Phase::Delivered);
    assert_eq!(step.messages.len(), 2);
    assert_eq!(step.messages[0].target(), Target::All);
    assert_eq!(step.messages[1].message(), &ready(&root_of(&[1, 2, 3], 1, 0)));
}

#[test]
fn first_valid_value_is_echoed_to_all() {
    let proofs = proofs_of(b"Proposed value", 4, 1);
    let mut b = Broadcast::new(4, 1, 3, 1, ALG).unwrap();
    let step = b.handle_message(1, Message::Broadcast(BroadcastMessage::Value(proofs[2].clone())));
    assert_eq!(step.messages.len(), 1);
    assert_eq!(step.messages[0].target(), Target::All);
    assert_eq!(step.messages[0].message(), &echo(&proofs[2]));
    assert_eq!(b.phase(), Phase::Echoing);
    let again = b.handle_message(1, Message::Broadcast(BroadcastMessage::Value(proofs[2].clone())));
    assert!(again.messages.is_empty());
}

#[test]
fn value_that_is_not_taken_changes_nothing() {
    let proofs = proofs_of(b"Proposed value", 4, 1);
    let mut b = Broadcast::new(4, 1, 3, 1, ALG).unwrap();
    let from_other = b.handle_message(2, Message::Broadcast(BroadcastMessage::Value(proofs[2].clone())));
    assert!(from_other.messages.is_empty());
    let wrong_shard = b.handle_message(1, Message::Broadcast(BroadcastMessage::Value(proofs[1].clone())));
    assert!(wrong_shard.messages.is_empty());
    let mut tampered = proofs[2].clone();
    tampered.value[0] ^= 1;
    let bad = b.handle_message(1, Message::Broadcast(BroadcastMessage::Value(tampered)));
    assert!(bad.messages.is_empty());
    assert_eq!(b.phase(), Phase::Init);
}

#[test]
fn ready_follows_enough_echoes() {
    let proofs = proofs_of(b"Proposed value", 4, 1);
    let root = root_of(b"Proposed value", 4, 1);
    let mut b = Broadcast::new(4, 1, 4, 1, ALG).unwrap();
    assert!(b.handle_message(1, echo(&proofs[0])).messages.is_empty());
    assert!(b.handle_message(2, echo(&proofs[1])).messages.is_empty());
    assert_eq!(b.phase(), Phase::Init);
    let step = b.handle_message(3, echo(&proofs[2]));
    assert_eq!(step.messages.len(), 1);
    assert_eq!(step.messages[0].target(), Target::All);
    assert_eq!(step.messages[0].message(), &ready(&root));
    assert_eq!(step.output, None);
    assert_eq!(b.phase(), Phase::ReadySent);
}

#[test]
fn too_few_echoes_never_deliver() {
    let proofs = proofs_of(b"Proposed value", 4, 1);
    let mut b = Broadcast::new(4, 1, 4, 1, ALG).unwrap();
    for _ in 0..3 {
        for sender in 1..=2usize {
            let step = b.handle_message(sender, echo(&proofs[sender - 1]));
            assert!(step.messages.is_empty());
            assert_eq!(step.output, None);
        }
    }
    assert_eq!(b.output(), None);
    assert_eq!(b.phase(), Phase::Init);
}

#[test]
fn echoes_of_one_sender_count_once() {
    let proofs = proofs_of(b"Proposed value", 4, 1);
    let mut b = Broadcast::new(4, 1, 4, 1, ALG).unwrap();
    b.handle_message(1, echo(&proofs[0]));
    for _ in 0..5 {
        assert!(b.handle_message(1, echo(&proofs[0])).messages.is_empty());
    }
    b.handle_message(2, echo(&proofs[1]));
    assert_eq!(b.phase(), Phase::Init);
}

#[test]
fn echo_must_carry_the_shard_of_its_sender() {
    let proofs = proofs_of(b"Proposed value", 4, 1);
    let mut b = Broadcast::new(4, 1, 4, 1, ALG).unwrap();
    b.handle_message(1, echo(&proofs[0]));
    b.handle_message(2, echo(&proofs[1]));
    assert!(b.handle_message(3, echo(&proofs[0])).messages.is_empty());
    assert!(b.handle_message(0, echo(&proofs[2])).messages.is_empty());
    assert!(b.handle_message(5, echo(&proofs[2])).messages.is_empty());
    assert_eq!(b.phase(), Phase::Init);
    assert_eq!(b.handle_message(3, echo(&proofs[2])).messages.len(), 1);
}

#[test]
fn ready_follows_more_readys_than_can_be_faulty() {
    let root = vec![7u8; 32];
    let mut b = Broadcast::new(4, 1, 4, 1, ALG).unwrap();
    assert!(b.handle_message(1, ready(&root)).messages.is_empty());
    assert!(b.handle_message(1, ready(&root)).messages.is_empty());
    let step = b.handle_message(2, ready(&root));
    assert_eq!(step.messages.len(), 1);
    assert_eq!(step.messages[0].target(), Target::All);
    assert_eq!(step.messages[0].message(), &ready(&root));
    assert_eq!(b.phase(), Phase::ReadySent);
    assert_eq!(step.output, None);
    assert!(b.handle_message(3, ready(&root)).messages.is_empty());
    assert_eq!(b.output(), None);
}

#[test]
fn readys_for_different_roots_do_not_add_up() {
    let mut b = Broadcast::new(4, 1, 4, 1, ALG).unwrap();
    assert!(b.handle_message(1, ready(&vec![1u8; 32])).messages.is_empty());
    assert!(b.handle_message(2, ready(&vec![2u8; 32])).messages.is_empty());
    assert!(b.handle_message(3, ready(&vec![3u8; 32])).messages.is_empty());
    assert_eq!(b.phase(), Phase::Init);
}

#[test]
fn delivery_waits_for_the_shards() {
    let proofs = proofs_of(b"Proposed value", 4, 1);
    let root = root_of(b"Proposed value", 4, 1);
    let mut b = Broadcast::new(4, 1, 4, 1, ALG).unwrap();
    b.handle_message(1, ready(&root));
    b.handle_message(2, ready(&root));
    b.handle_message(3, ready(&root));
    assert_eq!(b.output(), None);
    assert_eq!(b.handle_message(1, echo(&proofs[0])).output, None);
    let step = b.handle_message(2, echo(&proofs[1]));
    assert_eq!(step.output, Some(b"Proposed value".to_vec()));
    assert_eq!(b.phase(), Phase::Delivered);
}

#[test]
fn delivered_replica_ignores_what_follows() {
    let mut nodes = replicas(4, 1, 1);
    let mut queue = VecDeque::new();
    let step = nodes[0].propose(&b"Proposed value".to_vec()).unwrap();
    post(&mut queue, 1, step);
    run(&mut nodes, &mut queue, &[]);
    let proofs = proofs_of(b"another", 4, 1);
    let root = root_of(b"another", 4, 1);
    for sender in 1..=4usize {
        let step = nodes[3].handle_message(sender, echo(&proofs[sender - 1]));
        assert!(step.messages.is_empty());
        assert_eq!(step.output, None);
        let step = nodes[3].handle_message(sender, ready(&root));
        assert!(step.messages.is_empty());
        assert_eq!(step.output, None);
    }
    assert_eq!(nodes[3].output(), Some(&b"Proposed value".to_vec()));
    assert_eq!(nodes[0].propose(&vec![1]).err(), Some(BroadcastError::AlreadyProposed));
}

#[test]
fn agreement_messages_are_not_for_the_broadcast() {
    let mut b = Broadcast::new(4, 1, 4, 1, ALG).unwrap();
    let step = b.handle_message(1, Message::Agreement(AgreementMessage::Unspecified));
    assert!(step.messages.is_empty());
    assert_eq!(step.output, None);
    assert_eq!(b.phase(), Phase::Init);
}

#[test]
fn tampered_echo_of_a_faulty_replica_is_rejected() {
    let mut nodes = replicas(4, 1, 1);
    let stale = proofs_of(b"stale value", 4, 1);
    let mut tampered = stale[3].clone();
    tampered.value[0] ^= 0xff;
    for id in 1..=3usize {
        let step = nodes[id - 1].handle_message(4, echo(&tampered));
        assert!(step.messages.is_empty());
        assert_eq!(nodes[id - 1].phase(), Phase::Init);
    }
    let mut queue = VecDeque::new();
    let step = nodes[0].propose(&b"Proposed value".to_vec()).unwrap();
    post(&mut queue, 1, step);
    let delivered = run(&mut nodes, &mut queue, &[4]);
    for id in 1..=3 {
        assert_eq!(delivered[id - 1], vec![b"Proposed value".to_vec()]);
    }
}

#[test]
fn valid_echo_under_a_stale_root_does_not_stop_the_round() {
    let mut nodes = replicas(4, 1, 1);
    let stale = proofs_of(b"stale value", 4, 1);
    for id in 1..=3usize {
        let step = nodes[id - 1].handle_message(4, echo(&stale[3]));
        assert!(step.messages.is_empty());
    }
    let mut queue = VecDeque::new();
    let step = nodes[0].propose(&b"Proposed value".to_vec()).unwrap();
    post(&mut queue, 1, step);
    let delivered = run(&mut nodes, &mut queue, &[4]);
    for id in 1..=3 {
        assert_eq!(delivered[id - 1], vec![b"Proposed value".to_vec()]);
    }
}

#[test]
fn shards_that_do_not_give_the_root_again_make_nobody_ready() {
    let mut shards = encode(&b"Proposed value".to_vec(), 4, 1).unwrap();
    shards[2][0] ^= 1;
    let (_, proofs) = build(&shards, ALG);
    let mut b = Broadcast::new(4, 1, 4, 1, ALG).unwrap();
    assert!(b.handle_message(1, echo(&proofs[0])).messages.is_empty());
    assert!(b.handle_message(2, echo(&proofs[1])).messages.is_empty());
    assert!(b.handle_message(3, echo(&proofs[2])).messages.is_empty());
    assert_eq!(b.phase(), Phase::Init);
    assert_eq!(b.output(), None);
}

#[test]
fn faulty_proposer_cannot_make_replicas_deliver_different_values() {
    let first = proofs_of(b"one value", 4, 1);
    let second = proofs_of(b"another value", 4, 1);
    let mut nodes = replicas(4, 1, 1);
    let mut queue = VecDeque::new();
    // The proposer is faulty: it sends shards of one value to replicas 2 and
    // 3 and a shard of another to replica 4, and echoes accordingly.
    for (id, proofs) in [(2usize, &first), (3, &first), (4, &second)] {
        let value = Message::Broadcast(BroadcastMessage::Value(proofs[id - 1].clone()));
        let step = nodes[id - 1].handle_message(1, value);
        post(&mut queue, id, step);
    }
    let delivered = run(&mut nodes, &mut queue, &[1]);
    for id in 2..=4 {
        assert!(delivered[id - 1].is_empty());
    }
    for (id, proofs) in [(2usize, &first), (3, &first), (4, &second)] {
        let step = nodes[id - 1].handle_message(1, echo(&proofs[0]));
        post(&mut queue, id, step);
    }
    let delivered = run(&mut nodes, &mut queue, &[1]);
    for id in 2..=4 {
        assert_eq!(delivered[id - 1], vec![b"one value".to_vec()]);
    }
}

#[test]
fn every_replica_tells_once_that_it_is_ready() {
    let mut nodes = replicas(4, 1, 1);
    let mut queue = VecDeque::new();
    let step = nodes[0].propose(&b"Proposed value".to_vec()).unwrap();
    post(&mut queue, 1, step);
    let mut readys = vec![0usize; 4];
    let mut echoes = vec![0usize; 4];
    while let Some((from, targeted)) = queue.pop_front() {
        let (target, message) = targeted.into_parts();
        match &message {
            Message::Broadcast(BroadcastMessage::Ready(_)) => {
                assert_eq!(target, Target::All);
                readys[from - 1] += 1;
            }
            Message::Broadcast(BroadcastMessage::Echo(_)) => {
                assert_eq!(target, Target::All);
                echoes[from - 1] += 1;
            }
            _ => {}
        }
        let to: Vec<usize> = match target {
            Target::All => (1..=4).filter(|id| *id != from).collect(),
            Target::Node(id) => vec![id],
        };
        for id in to {
            let step = nodes[id - 1].handle_message(from, message.clone());
            post(&mut queue, id, step);
        }
    }
    assert_eq!(readys, vec![1, 1, 1, 1]);
    assert_eq!(echoes, vec![1, 1, 1, 1]);
}
