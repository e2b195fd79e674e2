//! Reliable broadcast: the state of one replica in the broadcast of one
//! proposer, and what it does on each message.
//!
//! The proposer codes its value into one shard per replica, authenticates
//! the shards by a tree of hashes and sends each replica its shard with the
//! proof. A replica echoes the shard it was sent to all. Once enough
//! replicas have echoed shards of one tree to rebuild the value, and the
//! value rebuilt gives that tree again, the replica tells all that it is
//! ready; it does so too once enough others are. Once enough are ready, it
//! delivers the value.

pub mod laws;

use vstd::prelude::*;
use crate::erasure::{
    agrees, decode, decoded, encode, encoded, optional_rows, present_count, shard_rows,
};
use crate::hashing::{bytes_eq, HashAlgorithm};
use crate::merkle_tree::{
    build, leaf_index, merkle_proof, merkle_root, path_index, proof_valid, rows, verify,
};
use crate::messaging::{Target, TargetedMessage};
use crate::proto::{
    clone_bytes, proof_view, BroadcastMessage, BroadcastView, Message, MessageView, Proof,
    ProofView,
};

verus! {

/// What a replica holds of one broadcast. Replicas are numbered from 1; the
/// echo and the ready message counted for replica `j` stand at position
/// `j - 1`.
pub struct BroadcastState {
    pub num_nodes: nat,
    pub num_faulty: nat,
    pub our_id: nat,
    pub proposer_id: nat,
    pub algorithm: HashAlgorithm,
    pub disseminated: bool,
    pub echo_sent: bool,
    pub ready_sent: bool,
    pub echos: Seq<Option<ProofView>>,
    pub readys: Seq<Option<Seq<u8>>>,
    pub output: Option<Seq<u8>>,
}

/// A state after a step, and the messages the step sends.
pub struct Outcome {
    pub state: BroadcastState,
    pub messages: Seq<(Target, MessageView)>,
}

/// How many of the first `n` positions satisfy `pred`.
pub open spec fn count_where(n: nat, pred: spec_fn(int) -> bool) -> nat
    decreases n,
{
    if n == 0 {
        0
    } else {
        count_where((n - 1) as nat, pred) + if pred(n - 1) {
            1nat
        } else {
            0nat
        }
    }
}

impl BroadcastState {
    /// The numbers fit together: at least three replicas for each faulty
    /// one and one more, at most 256 in all, this replica and the proposer
    /// among them, and one place for each replica's echo and ready.
    pub open spec fn well_formed(self) -> bool {
        &&& 3 * self.num_faulty + 1 <= self.num_nodes <= 256
        &&& 1 <= self.our_id <= self.num_nodes
        &&& 1 <= self.proposer_id <= self.num_nodes
        &&& self.echos.len() == self.num_nodes
        &&& self.readys.len() == self.num_nodes
    }

    /// Whether `p` verifies and is the proof of the shard at `position`.
    pub open spec fn shard_ok(self, p: ProofView, position: int) -> bool {
        proof_valid(self.algorithm, p) && path_index(p.lemma, self.num_nodes) == Some(position)
    }

    /// Whether the echo counted at `position` is for the tree with `root`.
    pub open spec fn echoed(self, root: Seq<u8>) -> spec_fn(int) -> bool {
        |position: int|
            0 <= position < self.echos.len() && self.echos[position].is_some()
                && self.echos[position].unwrap().root_hash == root
    }

    /// Whether the ready counted at `position` is for the tree with `root`.
    pub open spec fn readied(self, root: Seq<u8>) -> spec_fn(int) -> bool {
        |position: int| 0 <= position < self.readys.len() && self.readys[position] == Some(root)
    }

    /// The number of replicas whose echo for `root` was counted.
    pub open spec fn echo_count(self, root: Seq<u8>) -> nat {
        count_where(self.num_nodes, self.echoed(root))
    }

    /// The number of replicas whose ready for `root` was counted.
    pub open spec fn ready_count(self, root: Seq<u8>) -> nat {
        count_where(self.num_nodes, self.readied(root))
    }

    /// The shards echoed for `root`, each at the position of its sender.
    pub open spec fn shards_for(self, root: Seq<u8>) -> Seq<Option<Seq<u8>>> {
        Seq::new(
            self.num_nodes,
            |position: int|
                if self.echoed(root)(position) {
                    Some(self.echos[position].unwrap().value)
                } else {
                    None
                },
        )
    }

    /// The value that the shards echoed for `root` give, if they give one
    /// and the tree over the shards of that value has this root again.
    pub open spec fn reconstructed(self, root: Seq<u8>) -> Option<Seq<u8>> {
        match decoded(self.shards_for(root), self.num_nodes, self.num_faulty) {
            Ok(value) => if value.len() + 4 <= u32::MAX && merkle_root(
                self.algorithm,
                encoded(value, self.num_nodes, self.num_faulty),
            ) == root {
                Some(value)
            } else {
                None
            },
            Err(_) => None,
        }
    }

    /// Whether this replica tells now that it is ready for `root`: it has
    /// not yet said so of any root, and either all but the faulty number of
    /// replicas echoed shards of `root` that give a value, or more replicas
    /// than can be faulty are ready for `root`.
    pub open spec fn sends_ready(self, root: Seq<u8>) -> bool {
        !self.ready_sent && (self.ready_count(root) >= self.num_faulty + 1 || (self.echo_count(root)
            >= self.num_nodes - self.num_faulty && self.reconstructed(root).is_some()))
    }

    /// The state with the ready of this replica, counted unless one was
    /// counted for it before.
    pub open spec fn with_own_ready(self, root: Seq<u8>) -> BroadcastState {
        BroadcastState {
            ready_sent: true,
            readys: if self.readys[self.our_id - 1].is_none() {
                self.readys.update(self.our_id - 1, Some(root))
            } else {
                self.readys
            },
            ..self
        }
    }

    /// Whether the value is delivered now: nothing was delivered yet, all
    /// but the faulty number of replicas are ready for `root`, and the
    /// shards echoed for `root` give a value.
    pub open spec fn delivers(self, root: Seq<u8>) -> bool {
        self.output.is_none() && self.ready_count(root) >= self.num_nodes - self.num_faulty
            && self.reconstructed(root).is_some()
    }

    /// What follows once an echo or a ready for `root` was counted.
    pub open spec fn advance(self, root: Seq<u8>) -> Outcome {
        let readied = if self.sends_ready(root) {
            self.with_own_ready(root)
        } else {
            self
        };
        Outcome {
            state: if readied.delivers(root) {
                BroadcastState { output: readied.reconstructed(root), ..readied }
            } else {
                readied
            },
            messages: if self.sends_ready(root) {
                seq![(Target::All, MessageView::Broadcast(BroadcastView::Ready(root)))]
            } else {
                Seq::empty()
            },
        }
    }

    /// Whether the shards echoed for `root` are shards of `value`, enough
    /// of them to give it back, and `root` is the root of the tree over the
    /// shards of `value`.
    pub open spec fn genuine(self, root: Seq<u8>, value: Seq<u8>) -> bool {
        &&& value.len() + 4 <= u32::MAX
        &&& root == merkle_root(self.algorithm, encoded(value, self.num_nodes, self.num_faulty))
        &&& agrees(self.shards_for(root), encoded(value, self.num_nodes, self.num_faulty))
        &&& present_count(self.shards_for(root)) >= self.num_faulty + 1
    }

    pub open spec fn unchanged(self) -> Outcome {
        Outcome { state: self, messages: Seq::empty() }
    }

    /// Whether a `Value` from `sender` is taken: nothing is delivered, no
    /// shard was echoed yet, the sender is the proposer, and the proof
    /// verifies and is that of the shard of this replica.
    pub open spec fn accepts_value(self, sender: nat, p: ProofView) -> bool {
        self.output.is_none() && !self.echo_sent && sender == self.proposer_id && self.shard_ok(
            p,
            self.our_id - 1,
        )
    }

    /// On a `Value` that is taken the replica echoes the proof to all and
    /// counts its own echo.
    pub open spec fn on_value(self, sender: nat, p: ProofView) -> Outcome {
        if self.accepts_value(sender, p) {
            let echoed = BroadcastState {
                echo_sent: true,
                echos: if self.echos[self.our_id - 1].is_none() {
                    self.echos.update(self.our_id - 1, Some(p))
                } else {
                    self.echos
                },
                ..self
            };
            let next = echoed.advance(p.root_hash);
            Outcome {
                state: next.state,
                messages: seq![(Target::All, MessageView::Broadcast(BroadcastView::Echo(p)))]
                    + next.messages,
            }
        } else {
            self.unchanged()
        }
    }

    /// Whether an `Echo` from `sender` is counted: nothing is delivered,
    /// the sender is a replica whose echo was not counted before, and the
    /// proof verifies and is that of the shard of the sender.
    pub open spec fn accepts_echo(self, sender: nat, p: ProofView) -> bool {
        self.output.is_none() && 1 <= sender <= self.num_nodes && self.echos[sender - 1].is_none()
            && self.shard_ok(p, sender - 1)
    }

    pub open spec fn on_echo(self, sender: nat, p: ProofView) -> Outcome {
        if self.accepts_echo(sender, p) {
            BroadcastState { echos: self.echos.update(sender - 1, Some(p)), ..self }.advance(
                p.root_hash,
            )
        } else {
            self.unchanged()
        }
    }

    /// Whether a `Ready` from `sender` is counted: nothing is delivered and
    /// the sender is a replica whose ready was not counted before.
    pub open spec fn accepts_ready(self, sender: nat) -> bool {
        self.output.is_none() && 1 <= sender <= self.num_nodes && self.readys[sender - 1].is_none()
    }

    pub open spec fn on_ready(self, sender: nat, root: Seq<u8>) -> Outcome {
        if self.accepts_ready(sender) {
            BroadcastState { readys: self.readys.update(sender - 1, Some(root)), ..self }.advance(
                root,
            )
        } else {
            self.unchanged()
        }
    }

    /// Whether a message from `sender` is counted.
    pub open spec fn accepts(self, sender: nat, message: MessageView) -> bool {
        match message {
            MessageView::Broadcast(BroadcastView::Value(p)) => self.accepts_value(sender, p),
            MessageView::Broadcast(BroadcastView::Echo(p)) => self.accepts_echo(sender, p),
            MessageView::Broadcast(BroadcastView::Ready(_)) => self.accepts_ready(sender),
            MessageView::Agreement(_) => false,
        }
    }

    /// The root that a message speaks of.
    pub open spec fn root_of(message: MessageView) -> Seq<u8> {
        match message {
            MessageView::Broadcast(BroadcastView::Value(p)) => p.root_hash,
            MessageView::Broadcast(BroadcastView::Echo(p)) => p.root_hash,
            MessageView::Broadcast(BroadcastView::Ready(root)) => root,
            MessageView::Agreement(_) => Seq::empty(),
        }
    }

    /// What the replica does on a message that the link to `sender`
    /// delivered. Agreement messages are not for this protocol.
    pub open spec fn on_message(self, sender: nat, message: MessageView) -> Outcome {
        match message {
            MessageView::Broadcast(BroadcastView::Value(p)) => self.on_value(sender, p),
            MessageView::Broadcast(BroadcastView::Echo(p)) => self.on_echo(sender, p),
            MessageView::Broadcast(BroadcastView::Ready(root)) => self.on_ready(sender, root),
            MessageView::Agreement(_) => self.unchanged(),
        }
    }

    /// Whether this replica may propose `value`: it is the proposer, has
    /// not proposed or delivered yet, and the value fits the frame.
    pub open spec fn may_propose(self, value: Seq<u8>) -> Result<(), BroadcastError> {
        if self.our_id != self.proposer_id {
            Err(BroadcastError::NotProposer)
        } else if self.disseminated || self.output.is_some() {
            Err(BroadcastError::AlreadyProposed)
        } else if value.len() + 4 > u32::MAX {
            Err(BroadcastError::ValueTooLarge)
        } else {
            Ok(())
        }
    }

    /// The `Value` messages of a proposal: one for each other replica, in
    /// the order of their numbers, each with the proof of its shard.
    pub open spec fn value_messages(self, value: Seq<u8>) -> Seq<(Target, MessageView)> {
        let shards = encoded(value, self.num_nodes, self.num_faulty);
        Seq::new(
            (self.num_nodes - 1) as nat,
            |t: int|
                {
                    let position = if t < self.our_id - 1 {
                        t
                    } else {
                        t + 1
                    };
                    (
                        Target::Node((position + 1) as usize),
                        MessageView::Broadcast(
                            BroadcastView::Value(merkle_proof(self.algorithm, shards, position)),
                        ),
                    )
                },
        )
    }

    /// On a proposal the proposer sends each other replica its shard, and
    /// takes its own as if it had been sent it.
    pub open spec fn on_propose(self, value: Seq<u8>) -> Outcome {
        if self.may_propose(value).is_ok() {
            let shards = encoded(value, self.num_nodes, self.num_faulty);
            let own = BroadcastState { disseminated: true, ..self }.on_value(
                self.our_id,
                merkle_proof(self.algorithm, shards, self.our_id - 1),
            );
            Outcome { state: own.state, messages: self.value_messages(value) + own.messages }
        } else {
            self.unchanged()
        }
    }

    pub open spec fn phase(self) -> Phase {
        if self.output.is_some() {
            Phase::Delivered
        } else if self.ready_sent {
            Phase::ReadySent
        } else if self.echo_sent {
            Phase::Echoing
        } else if self.disseminated {
            Phase::Disseminated
        } else {
            Phase::Init
        }
    }
}

/// Why a proposal was refused.
#[derive(Clone, Copy, Debug, PartialEq, Eq, Structural)]
pub enum BroadcastError {
    /// This replica is not the proposer of the broadcast.
    NotProposer,
    /// The proposer has proposed already, or the broadcast is over.
    AlreadyProposed,
    /// The value does not fit the frame of the erasure code.
    ValueTooLarge,
}

/// How far a replica has come in a broadcast.
#[derive(Clone, Copy, Debug, PartialEq, Eq, Structural)]
pub enum Phase {
    /// Nothing was sent yet.
    Init,
    /// The proposer has sent the shards out and not yet echoed its own.
    Disseminated,
    /// The replica has echoed its shard.
    Echoing,
    /// The replica has told that it is ready.
    ReadySent,
    /// The replica has delivered the value; it ignores what comes after.
    Delivered,
}

/// The state of one replica in the broadcast of one proposer.
pub struct Broadcast {
    num_nodes: usize,
    num_faulty: usize,
    our_id: usize,
    proposer_id: usize,
    algorithm: HashAlgorithm,
    disseminated: bool,
    echo_sent: bool,
    ready_sent: bool,
    echos: Vec<Option<Proof>>,
    readys: Vec<Option<Vec<u8>>>,
    output: Option<Vec<u8>>,
}

/// What one step of a replica gives: the messages to send, in order, and
/// the value if the step delivered it.
#[derive(Debug, PartialEq, Eq)]
pub struct Step {
    pub messages: Vec<TargetedMessage>,
    pub output: Option<Vec<u8>>,
}

pub open spec fn bytes_view(bytes: Option<Vec<u8>>) -> Option<Seq<u8>> {
    match bytes {
        Some(b) => Some(b@),
        None => None,
    }
}

pub open spec fn messages_view(messages: Seq<TargetedMessage>) -> Seq<(Target, MessageView)> {
    messages.map_values(|m: TargetedMessage| m@)
}

/// The state of a replica that has seen nothing yet.
pub open spec fn initial_state(
    num_nodes: nat,
    num_faulty: nat,
    our_id: nat,
    proposer_id: nat,
    algorithm: HashAlgorithm,
) -> BroadcastState {
    BroadcastState {
        num_nodes: num_nodes,
        num_faulty: num_faulty,
        our_id: our_id,
        proposer_id: proposer_id,
        algorithm: algorithm,
        disseminated: false,
        echo_sent: false,
        ready_sent: false,
        echos: Seq::new(num_nodes, |position: int| None::<ProofView>),
        readys: Seq::new(num_nodes, |position: int| None::<Seq<u8>>),
        output: None,
    }
}

impl View for Broadcast {
    type V = BroadcastState;

    closed spec fn view(&self) -> BroadcastState {
        BroadcastState {
            num_nodes: self.num_nodes as nat,
            num_faulty: self.num_faulty as nat,
            our_id: self.our_id as nat,
            proposer_id: self.proposer_id as nat,
            algorithm: self.algorithm,
            disseminated: self.disseminated,
            echo_sent: self.echo_sent,
            ready_sent: self.ready_sent,
            echos: self.echos@.map_values(|e: Option<Proof>| proof_view(e)),
            readys: self.readys@.map_values(|r: Option<Vec<u8>>| bytes_view(r)),
            output: bytes_view(self.output),
        }
    }
}

fn sends(messages: &mut Vec<TargetedMessage>, target: Target, message: Message)
    requires
        target != Target::Node(0),
    ensures
        messages_view(final(messages)@) == messages_view(old(messages)@) + seq![
            (target, message@),
        ],
{
    match TargetedMessage::new(target, message) {
        Some(targeted) => {
            messages.push(targeted);
        },
        None => {},
    }
    assert(messages_view(messages@) =~= messages_view(old(messages)@) + seq![(target, message@)]);
}

impl Broadcast {
    /// The state is well formed.
    pub open spec fn wf(&self) -> bool {
        self@.well_formed()
    }

    #[verifier::type_invariant]
    spec fn always_well_formed(&self) -> bool {
        self@.well_formed()
    }

    /// The state of a replica that has seen nothing yet, for `num_nodes`
    /// replicas of which up to `num_faulty` may be faulty. There must be at
    /// least three replicas for each faulty one and one more, at most 256
    /// in all, and this replica and the proposer must be among them.
    pub fn new(
        num_nodes: usize,
        num_faulty: usize,
        our_id: usize,
        proposer_id: usize,
        algorithm: HashAlgorithm,
    ) -> (made: Option<Self>)
        ensures
            made.is_some() <==> initial_state(
                num_nodes as nat,
                num_faulty as nat,
                our_id as nat,
                proposer_id as nat,
                algorithm,
            ).well_formed(),
            made matches Some(b) ==> b.wf() && b@ == initial_state(
                num_nodes as nat,
                num_faulty as nat,
                our_id as nat,
                proposer_id as nat,
                algorithm,
            ),
    {
        if num_nodes == 0 || num_nodes > 256 || num_faulty > (num_nodes - 1) / 3 {
            return None;
        }
        if our_id == 0 || our_id > num_nodes || proposer_id == 0 || proposer_id > num_nodes {
            return None;
        }
        let mut echos: Vec<Option<Proof>> = Vec::new();
        let mut readys: Vec<Option<Vec<u8>>> = Vec::new();
        let mut i: usize = 0;
        while i < num_nodes
            invariant
                i <= num_nodes,
                echos@.len() == i,
                readys@.len() == i,
                forall|j: int| 0 <= j < i ==> (#[trigger] echos@[j]).is_none(),
                forall|j: int| 0 <= j < i ==> (#[trigger] readys@[j]).is_none(),
            decreases num_nodes - i,
        {
            echos.push(None);
            readys.push(None);
            i += 1;
        }
        let made = Broadcast {
            num_nodes,
            num_faulty,
            our_id,
            proposer_id,
            algorithm,
            disseminated: false,
            echo_sent: false,
            ready_sent: false,
            echos,
            readys,
            output: None,
        };
        proof {
            let init = initial_state(
                num_nodes as nat,
                num_faulty as nat,
                our_id as nat,
                proposer_id as nat,
                algorithm,
            );
            assert(made@.echos =~= init.echos);
            assert(made@.readys =~= init.readys);
        }
        Some(made)
    }

    pub fn num_nodes(&self) -> (n: usize)
        ensures
            n == self@.num_nodes,
    {
        self.num_nodes
    }

    pub fn num_faulty(&self) -> (f: usize)
        ensures
            f == self@.num_faulty,
    {
        self.num_faulty
    }

    pub fn our_id(&self) -> (id: usize)
        ensures
            id == self@.our_id,
    {
        self.our_id
    }

    pub fn proposer_id(&self) -> (id: usize)
        ensures
            id == self@.proposer_id,
    {
        self.proposer_id
    }

    /// The value delivered, once it is.
    pub fn output(&self) -> (value: Option<&Vec<u8>>)
        ensures
            value.is_some() == self@.output.is_some(),
            value matches Some(v) ==> Some(v@) == self@.output,
    {
        self.output.as_ref()
    }

    /// How far this replica has come.
    pub fn phase(&self) -> (phase: Phase)
        ensures
            phase == self@.phase(),
    {
        if self.output.is_some() {
            Phase::Delivered
        } else if self.ready_sent {
            Phase::ReadySent
        } else if self.echo_sent {
            Phase::Echoing
        } else if self.disseminated {
            Phase::Disseminated
        } else {
            Phase::Init
        }
    }

    fn shard_ok(&self, p: &Proof, position: usize) -> (ok: bool)
        ensures
            ok == self@.shard_ok(p@, position as int),
    {
        if !verify(p, self.algorithm) {
            return false;
        }
        match leaf_index(p, self.num_nodes) {
            Some(i) => i == position,
            None => false,
        }
    }

    fn count_echos(&self, root: &Vec<u8>) -> (count: usize)
        requires
            self.wf(),
        ensures
            count == self@.echo_count(root@),
    {
        let mut count: usize = 0;
        let mut i: usize = 0;
        while i < self.num_nodes
            invariant
                self.wf(),
                i <= self.num_nodes,
                count <= i,
                count == count_where(i as nat, self@.echoed(root@)),
            decreases self.num_nodes - i,
        {
            assert(self@.echos[i as int] == proof_view(self.echos@[i as int]));
            let hit = match &self.echos[i] {
                Some(p) => bytes_eq(&p.root_hash, root),
                None => false,
            };
            assert(hit == self@.echoed(root@)(i as int));
            if hit {
                count += 1;
            }
            i += 1;
        }
        count
    }

    fn count_readys(&self, root: &Vec<u8>) -> (count: usize)
        requires
            self.wf(),
        ensures
            count == self@.ready_count(root@),
    {
        let mut count: usize = 0;
        let mut i: usize = 0;
        while i < self.num_nodes
            invariant
                self.wf(),
                i <= self.num_nodes,
                count <= i,
                count == count_where(i as nat, self@.readied(root@)),
            decreases self.num_nodes - i,
        {
            assert(self@.readys[i as int] == bytes_view(self.readys@[i as int]));
            let hit = match &self.readys[i] {
                Some(r) => bytes_eq(r, root),
                None => false,
            };
            assert(hit == self@.readied(root@)(i as int));
            if hit {
                count += 1;
            }
            i += 1;
        }
        count
    }

    fn shards_for(&self, root: &Vec<u8>) -> (shards: Vec<Option<Vec<u8>>>)
        requires
            self.wf(),
        ensures
            optional_rows(shards@) == self@.shards_for(root@),
    {
        let mut shards: Vec<Option<Vec<u8>>> = Vec::new();
        let mut i: usize = 0;
        while i < self.num_nodes
            invariant
                self.wf(),
                i <= self.num_nodes,
                shards@.len() == i,
                forall|j: int|
                    0 <= j < i ==> crate::erasure::shard_row(#[trigger] shards@[j])
                        == self@.shards_for(root@)[j],
            decreases self.num_nodes - i,
        {
            assert(self@.echos[i as int] == proof_view(self.echos@[i as int]));
            let shard = match &self.echos[i] {
                Some(p) => if bytes_eq(&p.root_hash, root) {
                    Some(clone_bytes(&p.value))
                } else {
                    None
                },
                None => None,
            };
            shards.push(shard);
            i += 1;
        }
        assert(optional_rows(shards@) =~= self@.shards_for(root@));
        shards
    }

    fn reconstruct(&self, root: &Vec<u8>) -> (value: Option<Vec<u8>>)
        requires
            self.wf(),
        ensures
            bytes_view(value) == self@.reconstructed(root@),
            forall|payload: Seq<u8>|
                (#[trigger] self@.genuine(root@, payload)) ==> bytes_view(value) == Some(payload),
    {
        let shards = self.shards_for(root);
        let value = match decode(shards, self.num_nodes, self.num_faulty) {
            Ok(value) => value,
            Err(_) => {
                return None;
            },
        };
        let again = match encode(&value, self.num_nodes, self.num_faulty) {
            Ok(again) => again,
            Err(_) => {
                return None;
            },
        };
        assert(rows(again@) =~= shard_rows(again@));
        let (rebuilt, _) = build(&again, self.algorithm);
        if bytes_eq(&rebuilt, root) {
            Some(value)
        } else {
            None
        }
    }

    fn advance(&mut self, root: &Vec<u8>, messages: &mut Vec<TargetedMessage>)
        requires
            old(self).wf(),
        ensures
            final(self).wf(),
            final(self)@ == old(self)@.advance(root@).state,
            messages_view(final(messages)@) == messages_view(old(messages)@) + old(self)@.advance(
                root@,
            ).messages,
            forall|value: Seq<u8>|
                old(self)@.output.is_none() && (#[trigger] final(self)@.genuine(root@, value))
                    && final(self)@.ready_count(root@) >= final(self)@.num_nodes
                    - final(self)@.num_faulty ==> final(self)@.output == Some(value),
    {
        let enough: usize = self.num_nodes - self.num_faulty;
        let mut sends_ready = false;
        if !self.ready_sent {
            if self.count_readys(root) >= self.num_faulty + 1 {
                sends_ready = true;
            } else if self.count_echos(root) >= enough {
                sends_ready = self.reconstruct(root).is_some();
            }
        }
        assert(sends_ready == old(self)@.sends_ready(root@));
        if sends_ready {
            self.ready_sent = true;
            let own: usize = self.our_id - 1;
            assert(old(self)@.readys[own as int] == bytes_view(old(self).readys@[own as int]));
            if self.readys[own].is_none() {
                self.readys[own] = Some(clone_bytes(root));
                assert(self@.readys =~= old(self)@.readys.update(own as int, Some(root@)));
            }
            assert(self@.echos =~= old(self)@.echos);
            assert(self@ == old(self)@.with_own_ready(root@));
            sends(
                messages,
                Target::All,
                Message::Broadcast(BroadcastMessage::Ready(clone_bytes(root))),
            );
        } else {
            assert(messages_view(messages@) =~= messages_view(old(messages)@) + Seq::empty());
        }
        let ghost readied = self@;
        if self.output.is_none() && self.count_readys(root) >= enough {
            match self.reconstruct(root) {
                Some(value) => {
                    self.output = Some(value);
                    assert(self@.echos =~= readied.echos);
                    assert(self@.readys =~= readied.readys);
                },
                None => {},
            }
        }
        proof {
            assert(self@.readied(root@) == readied.readied(root@));
            assert(self@.echoed(root@) == readied.echoed(root@));
            assert(self@.shards_for(root@) == readied.shards_for(root@));
            assert forall|value: Seq<u8>|
                old(self)@.output.is_none() && #[trigger] self@.genuine(root@, value)
                    && self@.ready_count(root@) >= self@.num_nodes
                    - self@.num_faulty implies self@.output == Some(value) by {
                assert(readied.genuine(root@, value));
            }
        }
    }

    /// Takes a message that the link to replica `sender` delivered, and
    /// says what to send and whether the value is delivered now. Messages
    /// that do not verify, that come twice from one sender, or that come
    /// after the delivery change nothing.
    pub fn handle_message(&mut self, sender: usize, message: Message) -> (step: Step)
        ensures
            final(self).wf(),
            final(self)@ == old(self)@.on_message(sender as nat, message@).state,
            messages_view(step.messages@) == old(self)@.on_message(sender as nat, message@).messages,
            bytes_view(step.output) == if old(self)@.output.is_none() {
                final(self)@.output
            } else {
                None
            },
            forall|value: Seq<u8>|
                old(self)@.accepts(sender as nat, message@) && #[trigger] final(self)@.genuine(
                    BroadcastState::root_of(message@),
                    value,
                ) && final(self)@.ready_count(BroadcastState::root_of(message@))
                    >= final(self)@.num_nodes - final(self)@.num_faulty ==> final(self)@.output
                    == Some(value),
    {
        proof {
            use_type_invariant(&*self);
        }
        let mut messages: Vec<TargetedMessage> = Vec::new();
        assert(messages_view(messages@) =~= Seq::empty());
        let delivered_before = self.output.is_some();
        match message {
            Message::Broadcast(BroadcastMessage::Value(p)) => {
                if !delivered_before && !self.echo_sent && sender == self.proposer_id
                    && self.shard_ok(&p, self.our_id - 1) {
                    self.take_value(p, &mut messages);
                }
            },
            Message::Broadcast(BroadcastMessage::Echo(p)) => {
                if !delivered_before && 1 <= sender && sender <= self.num_nodes {
                    assert(self@.echos[sender - 1] == proof_view(self.echos@[sender - 1]));
                    if self.echos[sender - 1].is_none() && self.shard_ok(&p, sender - 1) {
                        self.take_echo(sender, p, &mut messages);
                    }
                }
            },
            Message::Broadcast(BroadcastMessage::Ready(root)) => {
                if !delivered_before && 1 <= sender && sender <= self.num_nodes {
                    assert(self@.readys[sender - 1] == bytes_view(self.readys@[sender - 1]));
                    if self.readys[sender - 1].is_none() {
                        self.take_ready(sender, root, &mut messages);
                    }
                }
            },
            Message::Agreement(_) => {},
        }
        let output = if delivered_before {
            None
        } else {
            match &self.output {
                Some(value) => Some(clone_bytes(value)),
                None => None,
            }
        };
        Step { messages, output }
    }

    /// Counts the echo of `sender` and goes on from there.
    fn take_echo(&mut self, sender: usize, p: Proof, messages: &mut Vec<TargetedMessage>)
        requires
            old(self).wf(),
            old(self)@.accepts_echo(sender as nat, p@),
        ensures
            final(self).wf(),
            final(self)@ == old(self)@.on_echo(sender as nat, p@).state,
            messages_view(final(messages)@) == messages_view(old(messages)@) + old(self)@.on_echo(
                sender as nat,
                p@,
            ).messages,
            forall|value: Seq<u8>|
                (#[trigger] final(self)@.genuine(p@.root_hash, value)) && final(self)@.ready_count(
                    p@.root_hash,
                ) >= final(self)@.num_nodes - final(self)@.num_faulty ==> final(self)@.output
                    == Some(value),
    {
        let root = clone_bytes(&p.root_hash);
        self.echos[sender - 1] = Some(p);
        assert(self@.echos =~= old(self)@.echos.update(sender - 1, Some(p@)));
        assert(self@.readys =~= old(self)@.readys);
        self.advance(&root, messages);
    }

    /// Counts the ready of `sender` and goes on from there.
    fn take_ready(&mut self, sender: usize, root: Vec<u8>, messages: &mut Vec<TargetedMessage>)
        requires
            old(self).wf(),
            old(self)@.accepts_ready(sender as nat),
        ensures
            final(self).wf(),
            final(self)@ == old(self)@.on_ready(sender as nat, root@).state,
            messages_view(final(messages)@) == messages_view(old(messages)@) + old(self)@.on_ready(
                sender as nat,
                root@,
            ).messages,
            forall|value: Seq<u8>|
                (#[trigger] final(self)@.genuine(root@, value)) && final(self)@.ready_count(root@)
                    >= final(self)@.num_nodes - final(self)@.num_faulty ==> final(self)@.output
                    == Some(value),
    {
        self.readys[sender - 1] = Some(clone_bytes(&root));
        assert(self@.readys =~= old(self)@.readys.update(sender - 1, Some(root@)));
        assert(self@.echos =~= old(self)@.echos);
        self.advance(&root, messages);
    }

    /// Echoes the proof of the shard of this replica, counts the echo, and
    /// goes on from there.
    fn take_value(&mut self, p: Proof, messages: &mut Vec<TargetedMessage>)
        requires
            old(self).wf(),
            old(self)@.accepts_value(old(self)@.proposer_id, p@),
        ensures
            final(self).wf(),
            final(self)@ == old(self)@.on_value(old(self)@.proposer_id, p@).state,
            messages_view(final(messages)@) == messages_view(old(messages)@) + old(self)@.on_value(
                old(self)@.proposer_id,
                p@,
            ).messages,
            forall|value: Seq<u8>|
                (#[trigger] final(self)@.genuine(p@.root_hash, value)) && final(self)@.ready_count(
                    p@.root_hash,
                ) >= final(self)@.num_nodes - final(self)@.num_faulty ==> final(self)@.output
                    == Some(value),
    {
        let own: usize = self.our_id - 1;
        let root = clone_bytes(&p.root_hash);
        sends(messages, Target::All, Message::Broadcast(BroadcastMessage::Echo(p.clone())));
        self.echo_sent = true;
        assert(old(self)@.echos[own as int] == proof_view(old(self).echos@[own as int]));
        if self.echos[own].is_none() {
            self.echos[own] = Some(p);
            assert(self@.echos =~= old(self)@.echos.update(own as int, Some(p@)));
        }
        assert(self@.readys =~= old(self)@.readys);
        let ghost echoed = self@;
        assert(echoed.output.is_none());
        self.advance(&root, messages);
        assert(root@ == p@.root_hash);
        assert(messages_view(messages@) =~= messages_view(old(messages)@) + (seq![
            (Target::All, MessageView::Broadcast(BroadcastView::Echo(p@))),
        ] + echoed.advance(root@).messages));
    }

    /// Proposes `value`: codes it into one shard per replica, sends each
    /// other replica its shard with the proof, and takes the shard of this
    /// replica. Only the proposer may propose, and only once.
    pub fn propose(&mut self, value: &Vec<u8>) -> (step: Result<Step, BroadcastError>)
        ensures
            final(self).wf(),
            final(self)@ == old(self)@.on_propose(value@).state,
            match old(self)@.may_propose(value@) {
                Ok(_) => step.is_ok()
                    && messages_view(step.unwrap().messages@)
                    == old(self)@.on_propose(value@).messages
                    && bytes_view(step.unwrap().output) == final(self)@.output,
                Err(e) => step matches Err(refused) && refused == e,
            },
    {
        proof {
            use_type_invariant(&*self);
        }
        if self.our_id != self.proposer_id {
            return Err(BroadcastError::NotProposer);
        }
        if self.disseminated || self.output.is_some() {
            return Err(BroadcastError::AlreadyProposed);
        }
        let shards = match encode(value, self.num_nodes, self.num_faulty) {
            Ok(shards) => shards,
            Err(_) => {
                return Err(BroadcastError::ValueTooLarge);
            },
        };
        assert(rows(shards@) =~= shard_rows(shards@));
        let ghost coded = encoded(value@, self.num_nodes as nat, self.num_faulty as nat);
        let (_, proofs) = build(&shards, self.algorithm);
        let mut messages: Vec<TargetedMessage> = Vec::new();
        assert(messages_view(messages@) =~= self@.value_messages(value@).subrange(0, 0));
        let mut own: Option<Proof> = None;
        let ghost planned = proofs@;
        let ghost before = self@;
        for p in it: proofs
            invariant
                it.seq() == planned,
                planned.len() == self.num_nodes,
                self.wf(),
                self@ == before,
                coded == encoded(value@, before.num_nodes, before.num_faulty),
                coded.len() == self.num_nodes,
                forall|i: int|
                    0 <= i < planned.len() ==> (#[trigger] planned[i])@ == merkle_proof(
                        self.algorithm,
                        coded,
                        i,
                    ),
                own.is_some() == (it.index() > self.our_id - 1),
                own.is_some() ==> own.unwrap()@ == merkle_proof(
                    self.algorithm,
                    coded,
                    self.our_id - 1,
                ),
                messages@.len() == if it.index() > self.our_id - 1 {
                    it.index() - 1
                } else {
                    it.index() as int
                },
                messages_view(messages@) == before.value_messages(value@).subrange(
                    0,
                    messages@.len() as int,
                ),
        {
            let position = messages.len() + if own.is_some() {
                1usize
            } else {
                0usize
            };
            assert(position == it.index());
            if position + 1 == self.our_id {
                own = Some(p);
            } else {
                let ghost sent = messages@.len() as int;
                assert(p == planned[it.index() as int]);
                assert(p@ == merkle_proof(self.algorithm, coded, position as int));
                assert(0 <= sent < before.num_nodes - 1);
                assert(position == if sent < before.our_id - 1 {
                    sent
                } else {
                    sent + 1
                });
                assert(before.value_messages(value@)[sent] == (
                    Target::Node((position + 1) as usize),
                    MessageView::Broadcast(BroadcastView::Value(p@)),
                ));
                sends(
                    &mut messages,
                    Target::Node(position + 1),
                    Message::Broadcast(BroadcastMessage::Value(p)),
                );
                assert(messages_view(messages@) =~= before.value_messages(value@).subrange(
                    0,
                    sent + 1,
                ));
            }
        }
        assert(messages_view(messages@) =~= before.value_messages(value@));
        self.disseminated = true;
        assert(self@.echos =~= before.echos);
        assert(self@.readys =~= before.readys);
        match own {
            Some(p) => {
                proof {
                    crate::merkle_tree::laws::built_proofs_verify(
                        self.algorithm,
                        coded,
                        self.our_id - 1,
                    );
                }
                if !self.echo_sent {
                    self.take_value(p, &mut messages);
                }
            },
            None => {},
        }
        let output = match &self.output {
            Some(value) => Some(clone_bytes(value)),
            None => None,
        };
        Ok(Step { messages, output })
    }
}

} // verus!
