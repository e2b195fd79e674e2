//! The local message delivery system: where a message goes, and the
//! channels that carry it between the link handlers and the protocol
//! instances.

use vstd::prelude::*;
use crossbeam_channel::{Receiver, Sender};
use crate::proto::Message;

verus! {

/// Message destination: every node, or the node with a given index. Remote
/// node indices start from 1.
#[derive(Clone, Copy, Debug, PartialEq, Eq, Structural)]
pub enum Target {
    All,
    Node(usize),
}

/// Message with a designated target. The target is never node 0.
#[derive(Debug, PartialEq, Eq)]
pub struct TargetedMessage {
    pub(crate) target: Target,
    pub(crate) message: Message,
}

impl TargetedMessage {
    #[verifier::type_invariant]
    pub closed spec fn addressed(&self) -> bool {
        self.target != Target::Node(0)
    }

    pub closed spec fn spec_target(&self) -> Target {
        self.target
    }

    pub closed spec fn spec_message(&self) -> Message {
        self.message
    }

    /// Initialises a message while checking that the target exists: there
    /// is no message for node 0.
    pub fn new(target: Target, message: Message) -> (targeted: Option<Self>)
        ensures
            targeted.is_some() <==> target != Target::Node(0),
            targeted matches Some(t) ==> t.spec_target() == target && t.spec_message() == message,
    {
        match target {
            Target::Node(i) if i == 0 => None,
            _ => Some(TargetedMessage { target, message }),
        }
    }

    pub fn target(&self) -> (target: Target)
        ensures
            target == self.spec_target(),
            target != Target::Node(0),
    {
        proof {
            use_type_invariant(self);
        }
        self.target
    }

    pub fn message(&self) -> (message: &Message)
        ensures
            *message == self.spec_message(),
    {
        &self.message
    }

    /// Takes the message apart.
    pub fn into_parts(self) -> (parts: (Target, Message))
        ensures
            parts.0 == self.spec_target(),
            parts.1 == self.spec_message(),
            parts.0 != Target::Node(0),
    {
        proof {
            use_type_invariant(&self);
        }
        (self.target, self.message)
    }
}

impl View for TargetedMessage {
    type V = (Target, crate::proto::MessageView);

    open spec fn view(&self) -> (Target, crate::proto::MessageView) {
        (self.spec_target(), self.spec_message()@)
    }
}

impl Clone for TargetedMessage {
    fn clone(&self) -> (copy: Self)
        ensures
            copy.spec_target() == self.spec_target(),
            copy.spec_message()@ == self.spec_message()@,
    {
        proof {
            use_type_invariant(self);
        }
        TargetedMessage { target: self.target, message: self.message.clone() }
    }
}

/// Message sent by a given source. The sources are consensus nodes indexed
/// 1 through N where N is the total number of nodes. The source is what
/// the link handler that received the message says it is.
#[derive(Debug, PartialEq, Eq)]
pub struct SourcedMessage {
    pub source: usize,
    pub message: Message,
}

impl Clone for SourcedMessage {
    fn clone(&self) -> (copy: Self)
        ensures
            copy.source == self.source,
            copy.message@ == self.message@,
    {
        SourcedMessage { source: self.source, message: self.message.clone() }
    }
}

/// Why a message could not be routed.
#[derive(Clone, Copy, Debug, PartialEq, Eq, Structural)]
pub enum RoutingError {
    /// The target has no outbox; the message is dropped. Holds the position
    /// the outbox would have had.
    NoSuchTarget(usize),
    /// The far end of the outbox or inbox at this position is gone.
    ChannelClosed(usize),
}

/// The outboxes a message for `target` goes to, given how many there are:
/// all of them in order, or the one at the position before the node's
/// index. `None` where that position has no outbox.
pub open spec fn destinations(target: Target, outboxes: nat) -> Option<Seq<int>> {
    match target {
        Target::All => Some(Seq::new(outboxes, |j: int| j)),
        Target::Node(i) => if 1 <= i <= outboxes {
            Some(seq![i - 1])
        } else {
            None
        },
    }
}

/// A message for all goes to every one of the outboxes, one for each
/// remote node of `num_nodes` nodes; a message for node `i` among the remote
/// nodes goes to the outbox at `i - 1` and to no other; and nothing goes to
/// node 0.
pub proof fn fan_out_destinations(num_nodes: nat, i: usize)
    requires
        num_nodes >= 1,
    ensures
        destinations(Target::All, (num_nodes - 1) as nat).is_some(),
        destinations(Target::All, (num_nodes - 1) as nat).unwrap().len() == num_nodes - 1,
        forall|j: int|
            0 <= j < num_nodes - 1 ==> #[trigger] destinations(
                Target::All,
                (num_nodes - 1) as nat,
            ).unwrap()[j] == j,
        1 <= i <= num_nodes - 1 ==> destinations(Target::Node(i), (num_nodes - 1) as nat) == Some(
            seq![i - 1],
        ),
        i > num_nodes - 1 ==> destinations(Target::Node(i), (num_nodes - 1) as nat).is_none(),
        destinations(Target::Node(0), (num_nodes - 1) as nat).is_none(),
{
}

/// One copy of a message, with the position of the outbox it is for.
#[derive(Debug, PartialEq, Eq)]
pub struct Delivery {
    pub outbox: usize,
    pub message: Message,
}

/// Whether `copies` are the copies of `message` for the outboxes `to`, one
/// for each and in that order.
pub open spec fn delivers(copies: Seq<Delivery>, to: Seq<int>, message: Message) -> bool {
    &&& copies.len() == to.len()
    &&& forall|j: int|
        0 <= j < copies.len() ==> (#[trigger] copies[j]).outbox == to[j] && copies[j].message@
            == message@
}

/// Decides where a targeted message goes among `outboxes` link-handler
/// outboxes. A message for all of them yields one copy per outbox; a
/// message for node `i` yields one copy, for outbox `i - 1`; where there is
/// no such outbox the message is dropped with an error.
pub fn fan_out(message: &TargetedMessage, outboxes: usize) -> (copies: Result<
    Vec<Delivery>,
    RoutingError,
>)
    ensures
        match destinations(message.spec_target(), outboxes as nat) {
            Some(to) => copies.is_ok() && delivers(copies.unwrap()@, to, message.spec_message()),
            None => message.spec_target() matches Target::Node(i) && copies == Err::<
                Vec<Delivery>,
                RoutingError,
            >(RoutingError::NoSuchTarget((i - 1) as usize)),
        },
{
    proof {
        use_type_invariant(message);
    }
    match message.target {
        Target::All => {
            let mut copies: Vec<Delivery> = Vec::new();
            let mut j: usize = 0;
            while j < outboxes
                invariant
                    j <= outboxes,
                    copies@.len() == j,
                    forall|k: int|
                        0 <= k < j ==> (#[trigger] copies@[k]).outbox == k && copies@[k].message@
                            == message.message@,
                decreases outboxes - j,
            {
                copies.push(Delivery { outbox: j, message: message.message.clone() });
                j += 1;
            }
            Ok(copies)
        },
        Target::Node(i) => {
            // Remote node indices start from 1; the outboxes from 0.
            let at: usize = i - 1;
            if at < outboxes {
                let mut copies: Vec<Delivery> = Vec::new();
                copies.push(Delivery { outbox: at, message: message.message.clone() });
                Ok(copies)
            } else {
                Err(RoutingError::NoSuchTarget(at))
            }
        },
    }
}

/// One copy of a sourced message, with the position of the inbox it is for.
#[derive(Debug, PartialEq, Eq)]
pub struct Arrival {
    pub inbox: usize,
    pub message: SourcedMessage,
}

/// Decides where a message from a link handler goes: one copy to each of
/// the `inboxes` protocol instances, in order, each with the source the
/// link handler gave.
pub fn fan_in(message: &SourcedMessage, inboxes: usize) -> (copies: Vec<Arrival>)
    ensures
        copies@.len() == inboxes,
        forall|j: int|
            0 <= j < inboxes ==> (#[trigger] copies@[j]).inbox == j && copies@[j].message.source
                == message.source && copies@[j].message.message@ == message.message@,
{
    let mut copies: Vec<Arrival> = Vec::new();
    let mut j: usize = 0;
    while j < inboxes
        invariant
            j <= inboxes,
            copies@.len() == j,
            forall|k: int|
                0 <= k < j ==> (#[trigger] copies@[k]).inbox == k && copies@[k].message.source
                    == message.source && copies@[k].message.message@ == message.message@,
        decreases inboxes - j,
    {
        copies.push(Arrival { inbox: j, message: message.clone() });
        j += 1;
    }
    copies
}

/// The sending end of a `crossbeam_channel` channel. Nothing is known of
/// what is inside.
#[verifier::external_type_specification]
#[verifier::external_body]
#[verifier::reject_recursive_types(T)]
pub struct ExSender<T>(Sender<T>);

/// The receiving end of a `crossbeam_channel` channel. Nothing is known of
/// what is inside.
#[verifier::external_type_specification]
#[verifier::external_body]
#[verifier::reject_recursive_types(T)]
pub struct ExReceiver<T>(Receiver<T>);

/// Calls `crossbeam_channel::unbounded`, which makes a channel of unbounded
/// capacity and hands out its two ends. Nothing is claimed of them.
#[verifier::external_body]
fn channel<T>() -> (ends: (Sender<T>, Receiver<T>)) {
    crossbeam_channel::unbounded()
}

/// Calls `crossbeam_channel::Sender::send`, which fails only where every
/// receiver of the channel is gone, and then hands the item back.
#[verifier::external_body]
fn send_on<T>(tx: &Sender<T>, item: T) -> (sent: Result<(), T>)
    ensures
        sent matches Err(back) ==> back == item,
{
    tx.send(item).map_err(|e| e.0)
}

/// The messaging struct allows for targeted message exchange between comms
/// tasks on one side and algo tasks on the other.
pub struct Messaging {
    /// The total number of consensus nodes for indexing purposes.
    num_nodes: usize,
    /// Transmit sides of message channels to comms tasks.
    to_comms_txs: Vec<Sender<Message>>,
    /// Receive side of the routed message channel from comms tasks.
    from_comms_rx: Receiver<SourcedMessage>,
    /// Transmit sides of message channels to algo tasks.
    to_algo_txs: Vec<Sender<SourcedMessage>>,
    /// Receive side of the routed message channel from algo tasks.
    from_algo_rx: Receiver<TargetedMessage>,
    /// RX handles to be used by comms tasks.
    to_comms_rxs: Vec<Receiver<Message>>,
    /// TX handle to be used by comms tasks.
    from_comms_tx: Sender<SourcedMessage>,
    /// RX handles to be used by algo tasks.
    to_algo_rxs: Vec<Receiver<SourcedMessage>>,
    /// TX handle to be used by algo tasks.
    from_algo_tx: Sender<TargetedMessage>,
}

impl Messaging {
    /// There is one channel to each remote node and one to each local
    /// protocol instance, and both ends of each are held.
    #[verifier::type_invariant]
    pub closed spec fn wired(&self) -> bool {
        &&& self.num_nodes >= 1
        &&& self.to_comms_txs@.len() == self.num_nodes - 1
        &&& self.to_comms_rxs@.len() == self.num_nodes - 1
        &&& self.to_algo_txs@.len() == self.num_nodes
        &&& self.to_algo_rxs@.len() == self.num_nodes
    }

    pub closed spec fn spec_num_nodes(&self) -> usize {
        self.num_nodes
    }

    pub closed spec fn spec_to_comms_rxs(&self) -> Vec<Receiver<Message>> {
        self.to_comms_rxs
    }

    pub closed spec fn spec_to_algo_rxs(&self) -> Vec<Receiver<SourcedMessage>> {
        self.to_algo_rxs
    }

    /// Initialises all the required TX and RX handles for the case on a
    /// total number `num_nodes` of consensus nodes, this one included.
    pub fn new(num_nodes: usize) -> (messaging: Self)
        requires
            num_nodes >= 1,
        ensures
            messaging.spec_num_nodes() == num_nodes,
            messaging.spec_to_comms_rxs()@.len() == num_nodes - 1,
            messaging.spec_to_algo_rxs()@.len() == num_nodes,
    {
        let mut to_comms_txs: Vec<Sender<Message>> = Vec::new();
        let mut to_comms_rxs: Vec<Receiver<Message>> = Vec::new();
        let mut i: usize = 0;
        while i < num_nodes - 1
            invariant
                num_nodes >= 1,
                i <= num_nodes - 1,
                to_comms_txs@.len() == i,
                to_comms_rxs@.len() == i,
            decreases num_nodes - 1 - i,
        {
            let (tx, rx) = channel::<Message>();
            to_comms_txs.push(tx);
            to_comms_rxs.push(rx);
            i += 1;
        }
        let (from_comms_tx, from_comms_rx) = channel::<SourcedMessage>();
        let mut to_algo_txs: Vec<Sender<SourcedMessage>> = Vec::new();
        let mut to_algo_rxs: Vec<Receiver<SourcedMessage>> = Vec::new();
        let mut j: usize = 0;
        while j < num_nodes
            invariant
                j <= num_nodes,
                to_algo_txs@.len() == j,
                to_algo_rxs@.len() == j,
            decreases num_nodes - j,
        {
            let (tx, rx) = channel::<SourcedMessage>();
            to_algo_txs.push(tx);
            to_algo_rxs.push(rx);
            j += 1;
        }
        let (from_algo_tx, from_algo_rx) = channel::<TargetedMessage>();
        Messaging {
            num_nodes,
            to_comms_txs,
            from_comms_rx,
            to_algo_txs,
            from_algo_rx,
            to_comms_rxs,
            from_comms_tx,
            to_algo_rxs,
            from_algo_tx,
        }
    }

    pub fn num_nodes(&self) -> (n: usize)
        ensures
            n == self.spec_num_nodes(),
            n >= 1,
    {
        proof {
            use_type_invariant(self);
        }
        self.num_nodes
    }

    /// The receiving ends of the outboxes, one for each remote node; the
    /// one for node `i` stands at position `i - 1`.
    pub fn to_comms_rxs(&self) -> (rxs: &Vec<Receiver<Message>>)
        ensures
            *rxs == self.spec_to_comms_rxs(),
            rxs@.len() == self.spec_num_nodes() - 1,
    {
        proof {
            use_type_invariant(self);
        }
        &self.to_comms_rxs
    }

    /// The sending end on which the link handlers hand in what they
    /// received, each tagged with its source.
    pub fn from_comms_tx(&self) -> (tx: &Sender<SourcedMessage>)
        ensures
            *tx == self.spec_from_comms_tx(),
    {
        &self.from_comms_tx
    }

    /// The receiving ends of the inboxes, one for each protocol instance.
    pub fn to_algo_rxs(&self) -> (rxs: &Vec<Receiver<SourcedMessage>>)
        ensures
            *rxs == self.spec_to_algo_rxs(),
            rxs@.len() == self.spec_num_nodes(),
    {
        proof {
            use_type_invariant(self);
        }
        &self.to_algo_rxs
    }

    /// The sending end on which the protocol instances hand in what they
    /// want sent.
    pub fn from_algo_tx(&self) -> (tx: &Sender<TargetedMessage>)
        ensures
            *tx == self.spec_from_algo_tx(),
    {
        &self.from_algo_tx
    }

    /// The receiving end that the routing loop reads targeted messages from.
    pub fn from_algo_rx(&self) -> (rx: &Receiver<TargetedMessage>)
        ensures
            *rx == self.spec_from_algo_rx(),
    {
        &self.from_algo_rx
    }

    /// The receiving end that the routing loop reads sourced messages from.
    pub fn from_comms_rx(&self) -> (rx: &Receiver<SourcedMessage>)
        ensures
            *rx == self.spec_from_comms_rx(),
    {
        &self.from_comms_rx
    }

    /// Forwards a message from a protocol instance to the outboxes that
    /// `fan_out` names, in order, and says how many copies went out. A
    /// message without an outbox is dropped; a closed outbox stops the
    /// forwarding.
    pub fn route_targeted(&self, message: &TargetedMessage) -> (sent: Result<usize, RoutingError>)
        ensures
            match destinations(message.spec_target(), (self.spec_num_nodes() - 1) as nat) {
                Some(to) => match sent {
                    Ok(count) => count == to.len(),
                    Err(RoutingError::ChannelClosed(at)) => to.contains(at as int),
                    Err(RoutingError::NoSuchTarget(_)) => false,
                },
                None => message.spec_target() matches Target::Node(i) && sent == Err::<
                    usize,
                    RoutingError,
                >(RoutingError::NoSuchTarget((i - 1) as usize)),
            },
    {
        proof {
            use_type_invariant(self);
        }
        let ghost to = destinations(message.spec_target(), (self.num_nodes - 1) as nat);
        let copies = match fan_out(message, self.to_comms_txs.len()) {
            Ok(copies) => copies,
            Err(e) => {
                return Err(e);
            },
        };
        let total = copies.len();
        let ghost planned = copies@;
        for next in it: copies
            invariant
                to == destinations(message.spec_target(), (self.spec_num_nodes() - 1) as nat),
                to.is_some(),
                it.seq() == planned,
                planned.len() == total,
                delivers(planned, to.unwrap(), message.spec_message()),
                forall|k: int|
                    0 <= k < total ==> 0 <= #[trigger] to.unwrap()[k] < self.to_comms_txs@.len(),
        {
            let at = next.outbox;
            assert(next == planned[it.index() as int]);
            assert(at == to.unwrap()[it.index() as int]);
            assert(to.unwrap().contains(at as int));
            match send_on(&self.to_comms_txs[at], next.message) {
                Ok(()) => {},
                Err(_) => {
                    return Err(RoutingError::ChannelClosed(at));
                },
            }
        }
        Ok(total)
    }

    /// Forwards a message from a link handler to every inbox, in order,
    /// and says how many copies went out. A closed inbox stops the
    /// forwarding.
    pub fn route_sourced(&self, message: &SourcedMessage) -> (sent: Result<usize, RoutingError>)
        ensures
            match sent {
                Ok(count) => count == self.spec_num_nodes(),
                Err(RoutingError::ChannelClosed(at)) => at < self.spec_num_nodes(),
                Err(RoutingError::NoSuchTarget(_)) => false,
            },
    {
        proof {
            use_type_invariant(self);
        }
        let copies = fan_in(message, self.to_algo_txs.len());
        let total = copies.len();
        let ghost planned = copies@;
        for next in it: copies
            invariant
                it.seq() == planned,
                planned.len() == total,
                total == self.to_algo_txs@.len(),
                total == self.num_nodes,
                forall|j: int| 0 <= j < total ==> (#[trigger] planned[j]).inbox == j,
        {
            let at = next.inbox;
            assert(next == planned[it.index() as int]);
            match send_on(&self.to_algo_txs[at], next.message) {
                Ok(()) => {},
                Err(_) => {
                    return Err(RoutingError::ChannelClosed(at));
                },
            }
        }
        Ok(total)
    }

    /// The sending end that this system holds for the link handlers.
    pub closed spec fn spec_from_comms_tx(&self) -> Sender<SourcedMessage> {
        self.from_comms_tx
    }

    /// The sending end that this system holds for the protocol instances.
    pub closed spec fn spec_from_algo_tx(&self) -> Sender<TargetedMessage> {
        self.from_algo_tx
    }

    /// The receiving end on which this system gets targeted messages.
    pub closed spec fn spec_from_algo_rx(&self) -> Receiver<TargetedMessage> {
        self.from_algo_rx
    }

    /// The receiving end on which this system gets sourced messages.
    pub closed spec fn spec_from_comms_rx(&self) -> Receiver<SourcedMessage> {
        self.from_comms_rx
    }
}

} // verus!
