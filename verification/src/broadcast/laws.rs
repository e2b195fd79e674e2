//! What holds of every step of a replica, and of the states of two replicas
//! that deliver.

use vstd::prelude::*;
use crate::broadcast::{count_where, initial_state, BroadcastState};
use crate::erasure::{encoded, present_count};
use crate::merkle_tree::merkle_root;
use crate::hashing::HashAlgorithm;
use crate::proto::{BroadcastView, MessageView, ProofView};

verus! {

/// No more positions are counted than there are.
pub proof fn count_where_bound(n: nat, p: spec_fn(int) -> bool)
    ensures
        count_where(n, p) <= n,
    decreases n,
{
    if n > 0 {
        count_where_bound((n - 1) as nat, p);
    }
}

/// What holds at more positions is counted more often.
pub proof fn count_where_monotone(n: nat, p: spec_fn(int) -> bool, q: spec_fn(int) -> bool)
    requires
        forall|j: int| 0 <= j < n && #[trigger] p(j) ==> q(j),
    ensures
        count_where(n, p) <= count_where(n, q),
    decreases n,
{
    if n > 0 {
        count_where_monotone((n - 1) as nat, p, q);
    }
}

/// Changing what holds at one position changes the count by one at most.
pub proof fn count_where_one_more(
    n: nat,
    p: spec_fn(int) -> bool,
    q: spec_fn(int) -> bool,
    at: int,
)
    requires
        forall|j: int| 0 <= j < n && j != at ==> #[trigger] p(j) == q(j),
    ensures
        count_where(n, q) <= count_where(n, p) + 1,
        at >= n || at < 0 ==> count_where(n, q) == count_where(n, p),
    decreases n,
{
    if n > 0 {
        count_where_one_more((n - 1) as nat, p, q, at);
        if at == n - 1 {
            count_where_one_more((n - 1) as nat, p, q, -1);
        }
    }
}

/// What holds nowhere is counted at no position.
pub proof fn count_where_nowhere(n: nat, p: spec_fn(int) -> bool)
    requires
        forall|j: int| 0 <= j < n ==> !#[trigger] p(j),
    ensures
        count_where(n, p) == 0,
    decreases n,
{
    if n > 0 {
        count_where_nowhere((n - 1) as nat, p);
    }
}

/// What is counted at all holds at some position.
pub proof fn count_where_witness(n: nat, p: spec_fn(int) -> bool) -> (j: int)
    requires
        count_where(n, p) > 0,
    ensures
        0 <= j < n,
        p(j),
    decreases n,
{
    if p(n - 1) {
        n - 1
    } else {
        count_where_witness((n - 1) as nat, p)
    }
}

/// Positions counted for both of two properties, and those counted for
/// either, are together as many as those counted for the one and for the
/// other.
pub proof fn count_where_both_and_either(n: nat, a: spec_fn(int) -> bool, b: spec_fn(int) -> bool)
    ensures
        count_where(n, a) + count_where(n, b) == count_where(n, |j: int| a(j) && b(j))
            + count_where(n, |j: int| a(j) || b(j)),
    decreases n,
{
    if n > 0 {
        count_where_both_and_either((n - 1) as nat, a, b);
    }
}

/// Any two sets of all but `f` of `n` replicas have more than `f` replicas
/// in common, where `n` is at least `3f + 1`.
pub proof fn quorums_intersect(n: nat, f: nat, a: spec_fn(int) -> bool, b: spec_fn(int) -> bool)
    requires
        3 * f + 1 <= n,
        count_where(n, a) >= n - f,
        count_where(n, b) >= n - f,
    ensures
        count_where(n, |j: int| a(j) && b(j)) >= f + 1,
{
    count_where_both_and_either(n, a, b);
    count_where_bound(n, |j: int| a(j) || b(j));
}

/// As many shards are there for a root as echoes were counted for it.
pub proof fn shards_are_echoes(s: BroadcastState, root: Seq<u8>)
    requires
        s.well_formed(),
    ensures
        present_count(s.shards_for(root)) == s.echo_count(root),
{
    shards_prefix_are_echoes(s, root, s.num_nodes);
    assert(s.shards_for(root).subrange(0, s.num_nodes as int) =~= s.shards_for(root));
}

proof fn shards_prefix_are_echoes(s: BroadcastState, root: Seq<u8>, n: nat)
    requires
        s.well_formed(),
        n <= s.num_nodes,
    ensures
        present_count(s.shards_for(root).subrange(0, n as int)) == count_where(n, s.echoed(root)),
    decreases n,
{
    if n > 0 {
        shards_prefix_are_echoes(s, root, (n - 1) as nat);
        let prefix = s.shards_for(root).subrange(0, n as int);
        assert(prefix.drop_last() =~= s.shards_for(root).subrange(0, n - 1));
        assert(prefix.last() == s.shards_for(root)[n - 1]);
    }
}

/// The root that a broadcast message speaks of.
pub open spec fn root_of(message: BroadcastView) -> Seq<u8> {
    match message {
        BroadcastView::Value(p) => p.root_hash,
        BroadcastView::Echo(p) => p.root_hash,
        BroadcastView::Ready(root) => root,
    }
}

/// A replica that has delivered ignores every message: its state stays as
/// it is, it sends nothing, and so it delivers once at most.
pub proof fn delivered_is_final(s: BroadcastState, sender: nat, message: MessageView)
    requires
        s.output.is_some(),
    ensures
        s.on_message(sender, message) == s.unchanged(),
{
}

/// Every step keeps a well-formed state well formed, and keeps the numbers
/// it was made with.
pub proof fn steps_keep_well_formed(s: BroadcastState, sender: nat, message: MessageView)
    requires
        s.well_formed(),
    ensures
        s.on_message(sender, message).state.well_formed(),
        s.on_message(sender, message).state.num_nodes == s.num_nodes,
        s.on_message(sender, message).state.num_faulty == s.num_faulty,
        s.on_message(sender, message).state.our_id == s.our_id,
        s.on_message(sender, message).state.proposer_id == s.proposer_id,
{
}

/// A replica delivers only on evidence of a quorum: in the state in which
/// it delivers, all but the faulty number of replicas are counted as ready
/// for the root of the message that made it deliver, more replicas than can
/// be faulty have echoed shards of that root, and what is delivered is the
/// value that these shards give.
pub proof fn delivery_needs_quorum(s: BroadcastState, sender: nat, message: BroadcastView)
    requires
        s.well_formed(),
        s.output.is_none(),
        s.on_message(sender, MessageView::Broadcast(message)).state.output.is_some(),
    ensures
        ({
            let after = s.on_message(sender, MessageView::Broadcast(message)).state;
            let root = root_of(message);
            &&& after.ready_count(root) >= s.num_nodes - s.num_faulty
            &&& after.echo_count(root) >= s.num_faulty + 1
            &&& after.output == after.reconstructed(root)
        }),
{
    let after = s.on_message(sender, MessageView::Broadcast(message)).state;
    let root = root_of(message);
    let counted = match message {
        BroadcastView::Value(p) => BroadcastState {
            echo_sent: true,
            echos: if s.echos[s.our_id - 1].is_none() {
                s.echos.update(s.our_id - 1, Some(p))
            } else {
                s.echos
            },
            ..s
        },
        BroadcastView::Echo(p) => BroadcastState {
            echos: s.echos.update(sender - 1, Some(p)),
            ..s
        },
        BroadcastView::Ready(r) => BroadcastState {
            readys: s.readys.update(sender - 1, Some(r)),
            ..s
        },
    };
    assert(after == counted.advance(root).state);
    let readied = if counted.sends_ready(root) {
        counted.with_own_ready(root)
    } else {
        counted
    };
    assert(readied.delivers(root));
    assert(after.readied(root) == readied.readied(root));
    assert(after.echoed(root) == readied.echoed(root));
    assert(after.shards_for(root) == readied.shards_for(root));
    assert(after.reconstructed(root) == readied.reconstructed(root));
    shards_are_echoes(after, root);
}

/// A replica tells at most once that it is ready: once it has, no step
/// sends a `Ready`.
pub proof fn ready_is_sent_once(s: BroadcastState, sender: nat, message: MessageView)
    requires
        s.ready_sent,
    ensures
        s.on_message(sender, message).state.ready_sent,
        forall|k: int|
            0 <= k < s.on_message(sender, message).messages.len() ==> !(#[trigger] s.on_message(
                sender,
                message,
            ).messages[k].1 matches MessageView::Broadcast(BroadcastView::Ready(_))),
{
}

/// In the state of one replica, at most one root has all but the faulty
/// number of replicas ready for it, and at most one has that many echoes:
/// each replica is counted once.
pub proof fn one_root_reaches_quorum(s: BroadcastState, first: Seq<u8>, second: Seq<u8>)
    requires
        s.well_formed(),
    ensures
        s.ready_count(first) >= s.num_nodes - s.num_faulty && s.ready_count(second) >= s.num_nodes
            - s.num_faulty ==> first == second,
        s.echo_count(first) >= s.num_nodes - s.num_faulty && s.echo_count(second) >= s.num_nodes
            - s.num_faulty ==> first == second,
{
    let n = s.num_nodes;
    let f = s.num_faulty;
    if s.ready_count(first) >= n - f && s.ready_count(second) >= n - f {
        quorums_intersect(n, f, s.readied(first), s.readied(second));
        let j = count_where_witness(n, |j: int| s.readied(first)(j) && s.readied(second)(j));
    }
    if s.echo_count(first) >= n - f && s.echo_count(second) >= n - f {
        quorums_intersect(n, f, s.echoed(first), s.echoed(second));
        let j = count_where_witness(n, |j: int| s.echoed(first)(j) && s.echoed(second)(j));
    }
}

/// Agreement on the root. Take two replicas of one broadcast, each with
/// all but the faulty number of replicas counted as ready for a root, as a
/// replica that delivers has. Let at most the faulty number of replicas be
/// faulty, and let every other replica have told both the same, as a
/// replica does that tells all at most once that it is ready. Then the two
/// roots are one.
pub proof fn delivered_roots_agree(
    a: BroadcastState,
    b: BroadcastState,
    root_a: Seq<u8>,
    root_b: Seq<u8>,
    faulty: spec_fn(int) -> bool,
)
    requires
        a.well_formed(),
        b.well_formed(),
        a.num_nodes == b.num_nodes,
        a.num_faulty == b.num_faulty,
        count_where(a.num_nodes, faulty) <= a.num_faulty,
        forall|j: int|
            0 <= j < a.num_nodes && !faulty(j) && (#[trigger] a.readys[j]).is_some()
                && b.readys[j].is_some() ==> a.readys[j] == b.readys[j],
        a.ready_count(root_a) >= a.num_nodes - a.num_faulty,
        b.ready_count(root_b) >= b.num_nodes - b.num_faulty,
    ensures
        root_a == root_b,
{
    let n = a.num_nodes;
    let f = a.num_faulty;
    let both = |j: int| a.readied(root_a)(j) && b.readied(root_b)(j);
    quorums_intersect(n, f, a.readied(root_a), b.readied(root_b));
    let both_faulty = |j: int| both(j) && faulty(j);
    let both_correct = |j: int| both(j) && !faulty(j);
    count_where_both_and_either(n, both_faulty, both_correct);
    count_where_nowhere(n, |j: int| both_faulty(j) && both_correct(j));
    count_where_monotone(n, both, |j: int| both_faulty(j) || both_correct(j));
    count_where_monotone(n, both_faulty, faulty);
    let j = count_where_witness(n, both_correct);
    assert(a.readys[j] == Some(root_a));
    assert(b.readys[j] == Some(root_b));
}

/// Agreement on the value. Two replicas as in `delivered_roots_agree`, each
/// of which has delivered what the shards echoed for its root give, have
/// delivered the same value, unless two different values have one root
/// hash, which the digest is trusted to make unlikely.
pub proof fn delivered_values_agree(
    a: BroadcastState,
    b: BroadcastState,
    root_a: Seq<u8>,
    root_b: Seq<u8>,
    faulty: spec_fn(int) -> bool,
)
    requires
        a.well_formed(),
        b.well_formed(),
        a.num_nodes == b.num_nodes,
        a.num_faulty == b.num_faulty,
        a.algorithm == b.algorithm,
        count_where(a.num_nodes, faulty) <= a.num_faulty,
        forall|j: int|
            0 <= j < a.num_nodes && !faulty(j) && (#[trigger] a.readys[j]).is_some()
                && b.readys[j].is_some() ==> a.readys[j] == b.readys[j],
        a.ready_count(root_a) >= a.num_nodes - a.num_faulty,
        b.ready_count(root_b) >= b.num_nodes - b.num_faulty,
        a.output.is_some(),
        b.output.is_some(),
        a.output == a.reconstructed(root_a),
        b.output == b.reconstructed(root_b),
        merkle_root(
            a.algorithm,
            encoded(a.output.unwrap(), a.num_nodes, a.num_faulty),
        ) == merkle_root(a.algorithm, encoded(b.output.unwrap(), a.num_nodes, a.num_faulty))
            ==> a.output == b.output,
    ensures
        a.output == b.output,
{
    delivered_roots_agree(a, b, root_a, root_b, faulty);
}

/// The state after a run of echoes, each given with its sender.
pub open spec fn after_echoes(s: BroadcastState, echoes: Seq<(nat, ProofView)>) -> BroadcastState
    decreases echoes.len(),
{
    if echoes.len() == 0 {
        s
    } else {
        after_echoes(s, echoes.drop_last()).on_echo(echoes.last().0, echoes.last().1).state
    }
}

/// A replica that has seen nothing and then gets echoes, fewer than all
/// but the faulty number of replicas, does not deliver and does not tell
/// that it is ready, whatever the echoes hold.
pub proof fn too_few_echoes_deliver_nothing(
    num_nodes: nat,
    num_faulty: nat,
    our_id: nat,
    proposer_id: nat,
    algorithm: HashAlgorithm,
    echoes: Seq<(nat, ProofView)>,
)
    requires
        initial_state(num_nodes, num_faulty, our_id, proposer_id, algorithm).well_formed(),
        echoes.len() < num_nodes - num_faulty,
    ensures
        after_echoes(
            initial_state(num_nodes, num_faulty, our_id, proposer_id, algorithm),
            echoes,
        ).output.is_none(),
        !after_echoes(
            initial_state(num_nodes, num_faulty, our_id, proposer_id, algorithm),
            echoes,
        ).ready_sent,
{
    let s = initial_state(num_nodes, num_faulty, our_id, proposer_id, algorithm);
    assert forall|root: Seq<u8>| #[trigger] s.echo_count(root) <= 0 by {
        count_where_nowhere(s.num_nodes, s.echoed(root));
    }
    few_echoes_invariant(s, echoes);
}

/// Nothing was delivered, nothing told, no ready counted, and no root has
/// more than `bound` echoes.
pub open spec fn quiet(s: BroadcastState, bound: nat) -> bool {
    &&& s.well_formed()
    &&& s.output.is_none()
    &&& !s.ready_sent
    &&& forall|j: int| 0 <= j < s.num_nodes ==> (#[trigger] s.readys[j]).is_none()
    &&& forall|root: Seq<u8>| #[trigger] s.echo_count(root) <= bound
}

proof fn quiet_advance(s: BroadcastState, root: Seq<u8>)
    requires
        s.well_formed(),
        s.output.is_none(),
        !s.ready_sent,
        forall|j: int| 0 <= j < s.num_nodes ==> (#[trigger] s.readys[j]).is_none(),
        s.echo_count(root) < s.num_nodes - s.num_faulty,
    ensures
        s.advance(root).state == s,
{
    count_where_nowhere(s.num_nodes, s.readied(root));
    assert(s.ready_count(root) == 0);
    assert(!s.sends_ready(root));
    assert(!s.delivers(root));
}

proof fn quiet_echo(s: BroadcastState, bound: nat, sender: nat, p: ProofView)
    requires
        quiet(s, bound),
        bound + 1 < s.num_nodes - s.num_faulty,
    ensures
        quiet(s.on_echo(sender, p).state, bound + 1),
        s.on_echo(sender, p).state.num_nodes == s.num_nodes,
        s.on_echo(sender, p).state.num_faulty == s.num_faulty,
{
    if s.accepts_echo(sender, p) {
        let counted = BroadcastState { echos: s.echos.update(sender - 1, Some(p)), ..s };
        assert forall|root: Seq<u8>| #[trigger] counted.echo_count(root) <= bound + 1 by {
            assert(s.echo_count(root) <= bound);
            count_where_one_more(s.num_nodes, s.echoed(root), counted.echoed(root), sender - 1);
        }
        assert(counted.echo_count(p.root_hash) <= bound + 1);
        quiet_advance(counted, p.root_hash);
    } else {
        assert forall|root: Seq<u8>| #[trigger] s.echo_count(root) <= bound + 1 by {
            assert(s.echo_count(root) <= bound);
        }
    }
}

proof fn few_echoes_invariant(s: BroadcastState, echoes: Seq<(nat, ProofView)>)
    requires
        quiet(s, 0),
        echoes.len() < s.num_nodes - s.num_faulty,
    ensures
        quiet(after_echoes(s, echoes), echoes.len()),
        after_echoes(s, echoes).num_nodes == s.num_nodes,
        after_echoes(s, echoes).num_faulty == s.num_faulty,
    decreases echoes.len(),
{
    if echoes.len() > 0 {
        few_echoes_invariant(s, echoes.drop_last());
        quiet_echo(
            after_echoes(s, echoes.drop_last()),
            (echoes.len() - 1) as nat,
            echoes.last().0,
            echoes.last().1,
        );
    }
}

} // verus!
