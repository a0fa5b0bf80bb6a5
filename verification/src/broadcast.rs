//! Anti-entropy broadcast: a node state machine replicating a growing
//! set of values across a fixed neighbor graph.
//!
//! The node keeps the set of values it has seen (`messages`), a record
//! per peer of the values that peer is known to hold (`known`), and its
//! neighbor list from the topology control payload. External
//! `Broadcast`, `Read`, `Topology` and `Gossip` envelopes mutate or read
//! this state; the periodic gossip tick sends each neighbor the values
//! it is not yet known to hold.

use vstd::prelude::*;

use crate::Body;
use crate::Event;
use crate::Init;
use crate::Message;
use crate::Node;
use crate::NodeError;

verus! {

/// What a broadcast node can receive or send.
#[derive(Debug, PartialEq, Eq)]
pub enum Payload {
    Broadcast { message: isize },
    BroadcastOk,
    Read,
    ReadOk { messages: Vec<isize> },
    Topology { topology: Vec<(String, Vec<String>)> },
    TopologyOk,
    Gossip { seen: Vec<isize> },
}

/// Node-internal events: the periodic gossip tick.
#[derive(Debug)]
pub enum InternalMessage {
    Gossip,
}

/// The broadcast node's state.
///
/// `known` and the topology payload are association lists keyed by node
/// id; `messages` and every `known` entry are duplicate-free, so each
/// stands for the finite set of its elements.
pub struct BroadcastNode {
    pub id: String,
    pub message_id: usize,
    pub messages: Vec<isize>,
    pub known: Vec<(String, Vec<isize>)>,
    pub neighbours: Vec<String>,
}

// ---------------------------------------------------------------------
// Association lists keyed by node id
// ---------------------------------------------------------------------

/// The keys of an association list, as character sequences.
pub open spec fn key_seq<V>(s: Seq<(String, V)>) -> Seq<Seq<char>> {
    s.map_values(|p: (String, V)| p.0@)
}

/// The index of the first entry whose key reads `k`, or -1 if none does.
pub open spec fn key_index<V>(s: Seq<(String, V)>, k: Seq<char>) -> int
    decreases s.len(),
{
    if s.len() == 0 {
        -1
    } else if s[0].0@ == k {
        0
    } else {
        let r = key_index(s.skip(1), k);
        if r < 0 {
            -1
        } else {
            r + 1
        }
    }
}

/// Whether some entry of `s` is keyed by `k`.
pub open spec fn has_key<V>(s: Seq<(String, V)>, k: Seq<char>) -> bool {
    key_index(s, k) >= 0
}

/// `key_index` finds exactly the first entry keyed by `k`.
pub proof fn lemma_key_index<V>(s: Seq<(String, V)>, k: Seq<char>)
    ensures
        has_key(s, k) <==> exists|j: int| 0 <= j < s.len() && s[j].0@ == k,
        has_key(s, k) ==> {
            let i = key_index(s, k);
            &&& 0 <= i < s.len()
            &&& s[i].0@ == k
            &&& forall|j: int| 0 <= j < i ==> s[j].0@ != k
        },
    decreases s.len(),
{
    if s.len() == 0 {
    } else if s[0].0@ == k {
    } else {
        let sub = s.skip(1);
        lemma_key_index(sub, k);
        assert(forall|j: int| 0 <= j < sub.len() ==> sub[j] == s[j + 1]);
        if exists|j: int| 0 <= j < s.len() && s[j].0@ == k {
            let j = choose|j: int| 0 <= j < s.len() && s[j].0@ == k;
            assert(j >= 1);
            assert(sub[j - 1].0@ == k);
            assert(has_key(sub, k));
        }
        if has_key(sub, k) {
            let i = key_index(sub, k);
            assert(s[i + 1].0@ == k);
            assert forall|j: int| 0 <= j < i + 1 implies s[j].0@ != k by {
                if j >= 1 {
                    assert(sub[j - 1].0@ != k);
                }
            }
        }
    }
}

// ---------------------------------------------------------------------
// Duplicate-free accumulation
// ---------------------------------------------------------------------

/// `base` followed by those values of `xs` not yet present, first
/// occurrences only, in order.
pub open spec fn append_new<A>(base: Seq<A>, xs: Seq<A>) -> Seq<A>
    decreases xs.len(),
{
    if xs.len() == 0 {
        base
    } else {
        let rest = append_new(base, xs.drop_last());
        if rest.contains(xs.last()) {
            rest
        } else {
            rest.push(xs.last())
        }
    }
}

/// `append_new` holds exactly the values of `base` and `xs`, and keeps
/// `base` as a prefix and freedom from duplicates.
pub proof fn lemma_append_new<A>(base: Seq<A>, xs: Seq<A>)
    ensures
        forall|x: A| #[trigger]
            append_new(base, xs).contains(x) <==> (base.contains(x) || xs.contains(x)),
        base.no_duplicates() ==> append_new(base, xs).no_duplicates(),
        append_new(base, xs).len() >= base.len(),
        forall|i: int| 0 <= i < base.len() ==> append_new(base, xs)[i] == base[i],
    decreases xs.len(),
{
    broadcast use vstd::seq_lib::group_seq_properties;

    if xs.len() == 0 {
    } else {
        lemma_append_new(base, xs.drop_last());
        assert(forall|x: A| #[trigger]
            xs.contains(x) <==> (xs.drop_last().contains(x) || x == xs.last()));
    }
}

/// The values of `msgs`, in order, that do not occur in `ks`.
pub open spec fn delta_of(msgs: Seq<isize>, ks: Seq<isize>) -> Seq<isize>
    decreases msgs.len(),
{
    if msgs.len() == 0 {
        Seq::empty()
    } else {
        let rest = delta_of(msgs.drop_last(), ks);
        if ks.contains(msgs.last()) {
            rest
        } else {
            rest.push(msgs.last())
        }
    }
}

/// The delta holds exactly the values of `msgs` absent from `ks`; it is
/// empty exactly when `ks` covers `msgs`.
pub proof fn lemma_delta_of(msgs: Seq<isize>, ks: Seq<isize>)
    ensures
        forall|x: isize| #[trigger]
            delta_of(msgs, ks).contains(x) <==> (msgs.contains(x) && !ks.contains(x)),
        msgs.no_duplicates() ==> delta_of(msgs, ks).no_duplicates(),
        (delta_of(msgs, ks).len() == 0 <==> (forall|x: isize| #[trigger]
            msgs.contains(x) ==> ks.contains(x))),
    decreases msgs.len(),
{
    broadcast use vstd::seq_lib::group_seq_properties;

    if msgs.len() == 0 {
    } else {
        let dl = msgs.drop_last();
        lemma_delta_of(dl, ks);
        assert(forall|x: isize| #[trigger]
            msgs.contains(x) <==> (dl.contains(x) || x == msgs.last()));
        if delta_of(msgs, ks).len() == 0 {
            assert(ks.contains(msgs.last()));
            assert forall|x: isize| #[trigger] msgs.contains(x) implies ks.contains(x) by {
                if x != msgs.last() {
                    assert(dl.contains(x));
                }
            }
        }
        if forall|x: isize| #[trigger] msgs.contains(x) ==> ks.contains(x) {
            assert forall|x: isize| #[trigger] dl.contains(x) implies ks.contains(x) by {
                assert(msgs.contains(x));
            }
            assert(delta_of(dl, ks).len() == 0);
            assert(msgs.contains(msgs.last()));
        }
        if msgs.no_duplicates() {
            let v = msgs.last();
            let rest = delta_of(dl, ks);
            assert(!dl.contains(v)) by {
                if dl.contains(v) {
                    let i = choose|i: int| 0 <= i < dl.len() && dl[i] == v;
                    assert(msgs[i] == msgs[msgs.len() - 1]);
                }
            }
            if !ks.contains(v) {
                assert(rest.push(v).no_duplicates()) by {
                    assert forall|i: int, j: int|
                        0 <= i < rest.push(v).len() && 0 <= j < rest.push(v).len() && i
                            != j implies rest.push(v)[i] != rest.push(v)[j] by {
                        if i < rest.len() && rest[i] == v {
                            assert(rest.contains(v));
                        }
                        if j < rest.len() && rest[j] == v {
                            assert(rest.contains(v));
                        }
                    }
                }
            }
        }
    }
}

// ---------------------------------------------------------------------
// Executable helpers over the value vectors
// ---------------------------------------------------------------------

/// Linear membership test.
fn contains_value(v: &Vec<isize>, x: isize) -> (b: bool)
    ensures
        b == v@.contains(x),
{
    let mut i: usize = 0;
    while i < v.len()
        invariant
            i <= v@.len(),
            forall|j: int| 0 <= j < i ==> v@[j] != x,
        decreases v@.len() - i,
    {
        if v[i] == x {
            assert(v@.contains(x)) by { assert(v@[i as int] == x); }
            return true;
        }
        i += 1;
    }
    false
}

/// A fresh vector with the same values in the same order.
fn copy_values(v: &Vec<isize>) -> (r: Vec<isize>)
    ensures
        r@ == v@,
{
    let mut r: Vec<isize> = Vec::new();
    let mut i: usize = 0;
    while i < v.len()
        invariant
            i <= v@.len(),
            r@ == v@.take(i as int),
        decreases v@.len() - i,
    {
        r.push(v[i]);
        proof {
            assert(v@.take(i as int).push(v@[i as int]) =~= v@.take(i + 1));
        }
        i += 1;
    }
    proof {
        assert(v@.take(v@.len() as int) =~= v@);
    }
    r
}

/// A fresh vector with the same strings in the same order.
fn clone_strings(v: &Vec<String>) -> (r: Vec<String>)
    ensures
        r@ == v@,
{
    let mut r: Vec<String> = Vec::new();
    let mut i: usize = 0;
    while i < v.len()
        invariant
            i <= v@.len(),
            r@ == v@.take(i as int),
        decreases v@.len() - i,
    {
        r.push(v[i].clone());
        proof {
            assert(v@.take(i as int).push(v@[i as int]) =~= v@.take(i + 1));
        }
        i += 1;
    }
    proof {
        assert(v@.take(v@.len() as int) =~= v@);
    }
    r
}

/// First entry of the association list keyed by `key`, if any.
fn lookup<V>(s: &Vec<(String, V)>, key: &String) -> (r: Option<usize>)
    ensures
        match r {
            Some(i) => {
                &&& has_key(s@, key@)
                &&& i == key_index(s@, key@)
                &&& 0 <= i < s@.len()
                &&& s@[i as int].0@ == key@
            },
            None => !has_key(s@, key@),
        },
{
    let mut i: usize = 0;
    while i < s.len()
        invariant
            i <= s@.len(),
            forall|j: int| 0 <= j < i ==> s@[j].0@ != key@,
        decreases s@.len() - i,
    {
        if s[i].0 == *key {
            proof {
                lemma_key_index(s@, key@);
                assert(s@[i as int].0@ == key@);
            }
            return Some(i);
        }
        i += 1;
    }
    proof {
        lemma_key_index(s@, key@);
    }
    None
}

/// `base` extended in place order with the values of `xs` it lacks.
fn merge_new(base: &Vec<isize>, xs: &Vec<isize>) -> (r: Vec<isize>)
    ensures
        r@ == append_new(base@, xs@),
{
    let mut r = copy_values(base);
    let mut i: usize = 0;
    while i < xs.len()
        invariant
            i <= xs@.len(),
            r@ == append_new(base@, xs@.take(i as int)),
        decreases xs@.len() - i,
    {
        let x = xs[i];
        proof {
            assert(xs@.take(i + 1).drop_last() =~= xs@.take(i as int));
            assert(xs@.take(i + 1).last() == xs@[i as int]);
        }
        if !contains_value(&r, x) {
            r.push(x);
        }
        i += 1;
    }
    proof {
        assert(xs@.take(xs@.len() as int) =~= xs@);
    }
    r
}

// ---------------------------------------------------------------------
// The state model and the transition relation
// ---------------------------------------------------------------------

/// The views of a sequence of strings.
pub open spec fn view_seq(ids: Seq<String>) -> Seq<Seq<char>> {
    ids.map_values(|s: String| s@)
}

impl BroadcastNode {
    /// Structural invariant: value vectors are duplicate-free and the
    /// `known` record has one entry per peer.
    pub open spec fn wf(self) -> bool {
        &&& self.messages@.no_duplicates()
        &&& key_seq(self.known@).no_duplicates()
        &&& forall|i: int|
            0 <= i < self.known@.len() ==> (#[trigger] self.known@[i].1@).no_duplicates()
    }

    /// The set of values this node has seen.
    pub open spec fn messages_set(self) -> Set<isize> {
        self.messages@.to_set()
    }
}

/// The freshly bootstrapped state: empty value set, counter at zero, no
/// neighbours yet, and one empty `known` entry per distinct peer id, in
/// first-occurrence order.
pub open spec fn from_init_post(init: Init, node: BroadcastNode) -> bool {
    &&& node.id == init.node_id
    &&& node.message_id == 0
    &&& node.messages@ == Seq::<isize>::empty()
    &&& node.neighbours@ == Seq::<String>::empty()
    &&& key_seq(node.known@) == append_new(Seq::<Seq<char>>::empty(), view_seq(init.node_ids@))
    &&& forall|i: int| 0 <= i < node.known@.len() ==> node.known@[i].1@ == Seq::<isize>::empty()
    &&& node.wf()
}

/// A reply envelope for `req`: addresses swapped, identifiers linked.
pub open spec fn replies_to(reply: Message<Payload>, req: Message<Payload>, id: usize) -> bool {
    &&& reply.src == req.dest
    &&& reply.dest == req.src
    &&& reply.body.msg_id == Some(id)
    &&& reply.body.in_reply_to == req.body.msg_id
}

/// `Broadcast { v }`: `v` joins the value set (a no-op when already
/// present), everything else is unchanged, and the one output is a
/// `BroadcastOk` reply.
pub open spec fn broadcast_post(
    pre: BroadcastNode,
    req: Message<Payload>,
    v: isize,
    post: BroadcastNode,
    r: Result<Vec<Message<Payload>>, NodeError>,
) -> bool {
    &&& post.id == pre.id
    &&& post.message_id == pre.message_id
    &&& post.known == pre.known
    &&& post.neighbours == pre.neighbours
    &&& post.messages@ == (if pre.messages@.contains(v) {
        pre.messages@
    } else {
        pre.messages@.push(v)
    })
    &&& (r matches Ok(out) && out@.len() == 1 && replies_to(out@[0], req, pre.message_id)
        && out@[0].body.payload is BroadcastOk)
}

/// `Read`: the state is untouched and the one output is a `ReadOk` reply
/// carrying the value set as it stands.
pub open spec fn read_post(
    pre: BroadcastNode,
    req: Message<Payload>,
    post: BroadcastNode,
    r: Result<Vec<Message<Payload>>, NodeError>,
) -> bool {
    &&& post == pre
    &&& (r matches Ok(out) && out@.len() == 1 && replies_to(out@[0], req, pre.message_id) && match out@[0].body.payload {
        Payload::ReadOk { messages } => messages@ == pre.messages@,
        _ => false,
    })
}

/// `Topology { graph }`: this node's entry becomes its neighbour list and
/// the one output is a `TopologyOk` reply; a graph without this node is a
/// fatal configuration error that leaves the state untouched.
pub open spec fn topology_post(
    pre: BroadcastNode,
    req: Message<Payload>,
    topo: Seq<(String, Vec<String>)>,
    post: BroadcastNode,
    r: Result<Vec<Message<Payload>>, NodeError>,
) -> bool {
    if has_key(topo, pre.id@) {
        &&& post.id == pre.id
        &&& post.message_id == pre.message_id
        &&& post.messages == pre.messages
        &&& post.known == pre.known
        &&& post.neighbours@ == topo[key_index(topo, pre.id@)].1@
        &&& (r matches Ok(out) && out@.len() == 1 && replies_to(out@[0], req, pre.message_id)
            && out@[0].body.payload is TopologyOk)
    } else {
        &&& post == pre
        &&& (r matches Err(e) && e == NodeError::MissingTopologyEntry)
    }
}

/// `Gossip { seen }` from peer `src`: `seen` is unioned into the value
/// set and into the peer's `known` entry; nothing is sent back. A peer
/// without a `known` entry is a fatal invariant violation.
pub open spec fn gossip_post(
    pre: BroadcastNode,
    src: Seq<char>,
    seen: Seq<isize>,
    post: BroadcastNode,
    r: Result<Vec<Message<Payload>>, NodeError>,
) -> bool {
    if has_key(pre.known@, src) {
        let i = key_index(pre.known@, src);
        &&& post.id == pre.id
        &&& post.message_id == pre.message_id
        &&& post.neighbours == pre.neighbours
        &&& post.messages@ == append_new(pre.messages@, seen)
        &&& post.known@.len() == pre.known@.len()
        &&& forall|j: int|
            0 <= j < pre.known@.len() && j != i ==> post.known@[j] == pre.known@[j]
        &&& post.known@[i].0 == pre.known@[i].0
        &&& post.known@[i].1@ == append_new(pre.known@[i].1@, seen)
        &&& (r matches Ok(out) && out@.len() == 0)
    } else {
        &&& post == pre
        &&& (r matches Err(e) && e == NodeError::UnknownPeer)
    }
}

/// The `known` entry index for neighbour `j`.
pub open spec fn nb_known_index(pre: BroadcastNode, j: int) -> int {
    key_index(pre.known@, pre.neighbours@[j]@)
}

/// The values neighbour `j` is not yet known to hold, in `messages`
/// order: the payload of the gossip envelope sent to it.
pub open spec fn nb_delta(pre: BroadcastNode, j: int) -> Seq<isize> {
    delta_of(pre.messages@, pre.known@[nb_known_index(pre, j)].1@)
}

/// How many gossip envelopes a tick sends to neighbours before `j`: one
/// per neighbour with a non-empty delta.
pub open spec fn sends_upto(pre: BroadcastNode, j: int) -> int
    decreases j,
{
    if j <= 0 {
        0
    } else {
        sends_upto(pre, j - 1) + if nb_delta(pre, j - 1).len() == 0 {
            0int
        } else {
            1int
        }
    }
}

/// Every neighbour has a `known` entry.
pub open spec fn all_neighbours_known(pre: BroadcastNode) -> bool {
    forall|j: int| 0 <= j < pre.neighbours@.len() ==> has_key(pre.known@, pre.neighbours@[j]@)
}

/// The gossip envelope a tick sends to neighbour `j`: from this node to
/// that neighbour, a fresh message id, no reply linkage, and exactly the
/// delta as payload.
pub open spec fn gossip_msg_ok(pre: BroadcastNode, j: int, m: Message<Payload>) -> bool {
    &&& m.src == pre.id
    &&& m.dest == pre.neighbours@[j]
    &&& (m.body.msg_id matches Some(mi) && mi as int == pre.message_id + sends_upto(pre, j))
    &&& m.body.in_reply_to is None
    &&& (m.body.payload matches Payload::Gossip { seen } && seen@ == nb_delta(pre, j))
}

/// A completed tick: only the message id counter moved, and the outputs
/// are the gossip envelopes for the neighbours with non-empty deltas, in
/// neighbour order.
pub open spec fn tick_ok(pre: BroadcastNode, post: BroadcastNode, out: Seq<Message<Payload>>) -> bool {
    let n = pre.neighbours@.len() as int;
    &&& post.id == pre.id
    &&& post.messages == pre.messages
    &&& post.known == pre.known
    &&& post.neighbours == pre.neighbours
    &&& post.message_id as int == pre.message_id + sends_upto(pre, n)
    &&& out.len() == sends_upto(pre, n)
    &&& forall|j: int|
        0 <= j < n && (#[trigger] nb_delta(pre, j)).len() > 0 ==> gossip_msg_ok(
            pre,
            j,
            out[sends_upto(pre, j)],
        )
}

/// A gossip tick, which may instead find a neighbour with no `known`
/// entry: a fatal invariant violation that leaves the state untouched.
pub open spec fn tick_post(
    pre: BroadcastNode,
    post: BroadcastNode,
    r: Result<Vec<Message<Payload>>, NodeError>,
) -> bool {
    if all_neighbours_known(pre) {
        r matches Ok(out) && tick_ok(pre, post, out@)
    } else {
        &&& post == pre
        &&& (r matches Err(e) && e == NodeError::UnknownPeer)
    }
}

/// The whole transition relation of `step`, by event.
pub open spec fn step_post(
    pre: BroadcastNode,
    input: Event<Payload, InternalMessage>,
    post: BroadcastNode,
    r: Result<Vec<Message<Payload>>, NodeError>,
) -> bool {
    match input {
        Event::ExternalMessage(req) => match req.body.payload {
            Payload::Broadcast { message } => broadcast_post(pre, req, message, post, r),
            Payload::Read => read_post(pre, req, post, r),
            Payload::Topology { topology } => topology_post(pre, req, topology@, post, r),
            Payload::Gossip { seen } => gossip_post(pre, req.src@, seen@, post, r),
            Payload::BroadcastOk | Payload::ReadOk { .. } | Payload::TopologyOk => {
                &&& post == pre
                &&& (r matches Err(e) && e == NodeError::UnexpectedReply)
            },
        },
        Event::InternalMessage(_) => tick_post(pre, post, r),
        Event::Shutdown => true,
    }
}

/// Appending a value not yet present keeps a sequence duplicate-free.
proof fn lemma_push_no_dup<A>(s: Seq<A>, v: A)
    requires
        s.no_duplicates(),
        !s.contains(v),
    ensures
        s.push(v).no_duplicates(),
{
    assert forall|i: int, j: int|
        0 <= i < s.push(v).len() && 0 <= j < s.push(v).len() && i != j implies s.push(v)[i]
        != s.push(v)[j] by {
        if i < s.len() && s[i] == v {
            assert(s.contains(v));
        }
        if j < s.len() && s[j] == v {
            assert(s.contains(v));
        }
    }
}

/// The send count grows with the neighbour index and never beyond it.
proof fn lemma_sends_upto(pre: BroadcastNode, a: int, b: int)
    requires
        0 <= a <= b,
    ensures
        sends_upto(pre, a) <= sends_upto(pre, b),
        0 <= sends_upto(pre, b) <= b,
    decreases b,
{
    if b > 0 {
        if a == b {
            lemma_sends_upto(pre, 0, b - 1);
        } else {
            lemma_sends_upto(pre, a, b - 1);
        }
    }
}

/// The values of `msgs` that do not occur in `ks`, in order.
fn delta_vec(msgs: &Vec<isize>, ks: &Vec<isize>) -> (r: Vec<isize>)
    ensures
        r@ == delta_of(msgs@, ks@),
{
    let mut r: Vec<isize> = Vec::new();
    let mut i: usize = 0;
    while i < msgs.len()
        invariant
            i <= msgs@.len(),
            r@ == delta_of(msgs@.take(i as int), ks@),
        decreases msgs@.len() - i,
    {
        let x = msgs[i];
        proof {
            assert(msgs@.take(i + 1).drop_last() =~= msgs@.take(i as int));
            assert(msgs@.take(i + 1).last() == msgs@[i as int]);
        }
        if !contains_value(ks, x) {
            r.push(x);
        }
        i += 1;
    }
    proof {
        assert(msgs@.take(msgs@.len() as int) =~= msgs@);
    }
    r
}

// ---------------------------------------------------------------------
// Laws of the transition relation
// ---------------------------------------------------------------------

/// Applying the same `Broadcast { v }` twice leaves the value sequence —
/// and so the value set — exactly as one application does.
pub proof fn lemma_broadcast_idempotent(
    pre: BroadcastNode,
    req1: Message<Payload>,
    req2: Message<Payload>,
    v: isize,
    mid: BroadcastNode,
    post: BroadcastNode,
    r1: Result<Vec<Message<Payload>>, NodeError>,
    r2: Result<Vec<Message<Payload>>, NodeError>,
)
    requires
        broadcast_post(pre, req1, v, mid, r1),
        broadcast_post(mid, req2, v, post, r2),
    ensures
        post.messages@ == mid.messages@,
        mid.messages_set() == pre.messages_set().insert(v),
        post.messages_set() == pre.messages_set().insert(v),
{
    broadcast use vstd::seq_lib::group_seq_properties;

    assert(mid.messages@.contains(v));
    assert(mid.messages_set() =~= pre.messages_set().insert(v));
}

/// Across any handled event, the value set and every peer's known set
/// only grow, and the `known` record keeps its keys.
pub proof fn lemma_step_monotonic(
    pre: BroadcastNode,
    input: Event<Payload, InternalMessage>,
    post: BroadcastNode,
    r: Result<Vec<Message<Payload>>, NodeError>,
)
    requires
        step_post(pre, input, post, r),
        !(input is Shutdown),
    ensures
        pre.messages_set().subset_of(post.messages_set()),
        post.known@.len() == pre.known@.len(),
        forall|j: int| 0 <= j < pre.known@.len() ==> (#[trigger] post.known@[j]).0 == pre.known@[j].0,
        forall|j: int|
            0 <= j < pre.known@.len() ==> (#[trigger] pre.known@[j]).1@.to_set().subset_of(
                post.known@[j].1@.to_set(),
            ),
{
    broadcast use vstd::seq_lib::group_seq_properties;

    match input {
        Event::ExternalMessage(req) => match req.body.payload {
            Payload::Broadcast { message } => {
                assert(pre.messages_set().subset_of(post.messages_set()));
            },
            Payload::Gossip { seen } => {
                if has_key(pre.known@, req.src@) {
                    let i = key_index(pre.known@, req.src@);
                    lemma_key_index(pre.known@, req.src@);
                    lemma_append_new(pre.messages@, seen@);
                    lemma_append_new(pre.known@[i].1@, seen@);
                }
            },
            _ => {},
        },
        _ => {},
    }
}

/// Delta minimality: the payload a gossip tick sends to a neighbour never
/// carries a value that neighbour is already known to hold.
pub proof fn lemma_delta_minimal(pre: BroadcastNode, j: int, m: Message<Payload>)
    requires
        0 <= j < pre.neighbours@.len(),
        gossip_msg_ok(pre, j, m),
    ensures
        m.body.payload matches Payload::Gossip { seen } ==> forall|x: isize| #[trigger]
            seen@.contains(x) ==> !pre.known@[nb_known_index(pre, j)].1@.contains(x),
{
    lemma_delta_of(pre.messages@, pre.known@[nb_known_index(pre, j)].1@);
}

/// One gossip delivery: provided everything the sender believes this
/// neighbour already holds is indeed in the neighbour's value set,
/// applying the delivered delta leaves the neighbour holding exactly the
/// union of both nodes' value sets.
pub proof fn lemma_gossip_exchange(
    a: BroadcastNode,
    j: int,
    m: Message<Payload>,
    b: BroadcastNode,
    post: BroadcastNode,
    r: Result<Vec<Message<Payload>>, NodeError>,
)
    requires
        0 <= j < a.neighbours@.len(),
        gossip_msg_ok(a, j, m),
        a.known@[nb_known_index(a, j)].1@.to_set().subset_of(b.messages_set()),
        has_key(b.known@, m.src@),
        match m.body.payload {
            Payload::Gossip { seen } => gossip_post(b, m.src@, seen@, post, r),
            _ => false,
        },
    ensures
        post.messages_set() == a.messages_set().union(b.messages_set()),
{
    let ks = a.known@[nb_known_index(a, j)].1@;
    lemma_delta_of(a.messages@, ks);
    match m.body.payload {
        Payload::Gossip { seen } => {
            lemma_append_new(b.messages@, seen@);
            assert forall|x: isize|
                post.messages_set().contains(x) == a.messages_set().union(
                    b.messages_set(),
                ).contains(x) by {
                assert(post.messages@.contains(x) <==> (b.messages@.contains(x)
                    || seen@.contains(x)));
                assert(seen@.contains(x) <==> (a.messages@.contains(x) && !ks.contains(x)));
                if ks.contains(x) {
                    assert(ks.to_set().contains(x));
                    assert(b.messages_set().contains(x));
                }
            }
            assert(post.messages_set() =~= a.messages_set().union(b.messages_set()));
        },
        _ => {},
    }
}

/// One gossip exchange in each direction between two nodes whose known
/// records for each other are accurate leaves both holding the union of
/// the two original value sets — their value sets are then equal. For a
/// connected pair, repeated gossip thus equalises the value sets.
pub proof fn lemma_gossip_round_trip(
    a: BroadcastNode,
    ja: int,
    m1: Message<Payload>,
    b: BroadcastNode,
    b1: BroadcastNode,
    r1: Result<Vec<Message<Payload>>, NodeError>,
    jb: int,
    m2: Message<Payload>,
    a1: BroadcastNode,
    r2: Result<Vec<Message<Payload>>, NodeError>,
)
    requires
        // `a` gossips to its neighbour `b`, whose record at `a` is accurate,
        // and `b` applies the delta.
        0 <= ja < a.neighbours@.len(),
        gossip_msg_ok(a, ja, m1),
        a.known@[nb_known_index(a, ja)].1@.to_set().subset_of(b.messages_set()),
        has_key(b.known@, a.id@),
        match m1.body.payload {
            Payload::Gossip { seen } => gossip_post(b, m1.src@, seen@, b1, r1),
            _ => false,
        },
        // the updated `b` gossips back to `a`, its neighbour, whose own
        // record at `b` was accurate too, and `a` applies that delta.
        0 <= jb < b1.neighbours@.len(),
        b1.neighbours@[jb]@ == a.id@,
        gossip_msg_ok(b1, jb, m2),
        b.known@[key_index(b.known@, a.id@)].1@.to_set().subset_of(a.messages_set()),
        has_key(a.known@, m2.src@),
        match m2.body.payload {
            Payload::Gossip { seen } => gossip_post(a, m2.src@, seen@, a1, r2),
            _ => false,
        },
    ensures
        b1.messages_set() == a.messages_set().union(b.messages_set()),
        a1.messages_set() == b1.messages_set(),
{
    lemma_gossip_exchange(a, ja, m1, b, b1, r1);

    // The exchange kept `b`'s record of `a` accurate: the delta it
    // absorbed came from `a`'s value set.
    let i = key_index(b.known@, a.id@);
    lemma_key_index(b.known@, a.id@);
    lemma_key_index(b1.known@, a.id@);
    match m1.body.payload {
        Payload::Gossip { seen } => {
            lemma_delta_of(a.messages@, a.known@[nb_known_index(a, ja)].1@);
            lemma_append_new(b.known@[i].1@, seen@);
            // `b1` keeps the same keys, so its entry for `a` is still entry `i`.
            assert(forall|j: int| 0 <= j < b1.known@.len() ==> b1.known@[j].0 == b.known@[j].0);
            assert(b1.known@[i].0@ == a.id@);
            assert(has_key(b1.known@, a.id@)) by {
                assert(b1.known@[i].0@ == a.id@);
            }
            let i1 = key_index(b1.known@, a.id@);
            assert(i1 == i) by {
                if i1 < i {
                    assert(b.known@[i1].0@ == a.id@);
                } else if i1 > i {
                    assert(b1.known@[i].0@ != a.id@);
                }
            }
            assert(nb_known_index(b1, jb) == i1);
            assert forall|x: isize| #[trigger]
                b1.known@[i].1@.to_set().contains(x) implies a.messages_set().contains(x) by {
                assert(b1.known@[i].1@.contains(x));
                if seen@.contains(x) {
                    assert(a.messages@.contains(x));
                } else {
                    assert(b.known@[i].1@.contains(x));
                    assert(b.known@[i].1@.to_set().contains(x));
                }
            }
        },
        _ => {},
    }

    // The reverse exchange then lands `a` on the same union.
    lemma_gossip_exchange(b1, jb, m2, a, a1, r2);
    assert(a1.messages_set() =~= b1.messages_set());
}

/// A tick sends a neighbour nothing exactly when every value this node
/// holds is recorded as known to that neighbour; if the record is
/// accurate, the neighbour then already holds this node's whole set.
pub proof fn lemma_gossip_converged(a: BroadcastNode, j: int, b: BroadcastNode)
    requires
        0 <= j < a.neighbours@.len(),
        nb_delta(a, j).len() == 0,
        a.known@[nb_known_index(a, j)].1@.to_set().subset_of(b.messages_set()),
    ensures
        a.messages_set().subset_of(b.messages_set()),
{
    lemma_delta_of(a.messages@, a.known@[nb_known_index(a, j)].1@);
}

impl Node<Payload, InternalMessage> for BroadcastNode {
    /// Everything but the unhandled shutdown signal; a tick moreover
    /// needs the message id counter not to run out.
    open spec fn step_allows(self, input: Event<Payload, InternalMessage>) -> bool {
        match input {
            Event::ExternalMessage(_) => true,
            Event::InternalMessage(_) => self.message_id + self.neighbours@.len() <= usize::MAX,
            Event::Shutdown => false,
        }
    }

    fn from_init(init: &Init) -> (r: Result<Self, NodeError>)
        ensures
            r matches Ok(node) && from_init_post(*init, node),
    {
        let mut known: Vec<(String, Vec<isize>)> = Vec::new();
        let mut i: usize = 0;
        while i < init.node_ids.len()
            invariant
                i <= init.node_ids@.len(),
                key_seq(known@) == append_new(
                    Seq::<Seq<char>>::empty(),
                    view_seq(init.node_ids@.take(i as int)),
                ),
                forall|j: int| 0 <= j < known@.len() ==> known@[j].1@ == Seq::<isize>::empty(),
                key_seq(known@).no_duplicates(),
            decreases init.node_ids@.len() - i,
        {
            let ghost idv = init.node_ids@[i as int]@;
            let id = &init.node_ids[i];
            proof {
                let vt = view_seq(init.node_ids@.take(i + 1));
                assert(vt.drop_last() =~= view_seq(init.node_ids@.take(i as int)));
                assert(vt.last() == idv);
                lemma_key_index(known@, idv);
                assert(forall|j: int|
                    0 <= j < known@.len() ==> key_seq(known@)[j] == known@[j].0@);
            }
            match lookup(&known, id) {
                Some(_) => {
                    proof {
                        let ki = key_index(known@, idv);
                        assert(key_seq(known@)[ki] == idv);
                        assert(key_seq(known@).contains(idv));
                    }
                },
                None => {
                    let ghost kpre = known@;
                    proof {
                        if key_seq(kpre).contains(idv) {
                            let j = choose|j: int|
                                0 <= j < key_seq(kpre).len() && key_seq(kpre)[j] == idv;
                            assert(kpre[j].0@ == idv);
                        }
                        lemma_push_no_dup(key_seq(kpre), idv);
                    }
                    known.push((id.clone(), Vec::new()));
                    proof {
                        assert(key_seq(known@) =~= key_seq(kpre).push(idv));
                    }
                },
            }
            i += 1;
        }
        proof {
            assert(init.node_ids@.take(init.node_ids@.len() as int) =~= init.node_ids@);
        }
        let node = BroadcastNode {
            id: init.node_id.clone(),
            message_id: 0,
            messages: Vec::new(),
            known,
            neighbours: Vec::new(),
        };
        Ok(node)
    }

    fn step(&mut self, input: Event<Payload, InternalMessage>) -> (r: Result<
        Vec<Message<Payload>>,
        NodeError,
    >)
        ensures
            step_post(*old(self), input, *final(self), r),
            old(self).wf() ==> final(self).wf(),
    {
        match input {
            Event::ExternalMessage(msg) => {
                let reply_payload: Payload = match &msg.body.payload {
                    Payload::Broadcast { message } => {
                        let v = *message;
                        if !contains_value(&self.messages, v) {
                            proof {
                                if old(self).messages@.no_duplicates() {
                                    lemma_push_no_dup(old(self).messages@, v);
                                }
                            }
                            self.messages.push(v);
                        }
                        Payload::BroadcastOk
                    },
                    Payload::Read => {
                        let snapshot = copy_values(&self.messages);
                        Payload::ReadOk { messages: snapshot }
                    },
                    Payload::Topology { topology } => {
                        match lookup(topology, &self.id) {
                            Some(ti) => {
                                let nb = clone_strings(&topology[ti].1);
                                self.neighbours = nb;
                                Payload::TopologyOk
                            },
                            None => {
                                return Err(NodeError::MissingTopologyEntry);
                            },
                        }
                    },
                    Payload::Gossip { seen } => {
                        match lookup(&self.known, &msg.src) {
                            Some(ki) => {
                                let ghost kpre = self.known@;
                                let entry = self.known.remove(ki);
                                let merged = merge_new(&entry.1, seen);
                                proof {
                                    lemma_append_new(entry.1@, seen@);
                                }
                                self.known.insert(ki, (entry.0, merged));
                                let new_msgs = merge_new(&self.messages, seen);
                                proof {
                                    lemma_append_new(old(self).messages@, seen@);
                                }
                                self.messages = new_msgs;
                                proof {
                                    assert(self.known@ =~= kpre.update(
                                        ki as int,
                                        (entry.0, merged),
                                    ));
                                    assert(forall|j: int|
                                        0 <= j < kpre.len() && j != ki ==> self.known@[j]
                                            == kpre[j]);
                                    assert(key_seq(self.known@) =~= key_seq(kpre));
                                }
                                return Ok(Vec::new());
                            },
                            None => {
                                return Err(NodeError::UnknownPeer);
                            },
                        }
                    },
                    Payload::BroadcastOk | Payload::ReadOk { .. } | Payload::TopologyOk => {
                        return Err(NodeError::UnexpectedReply);
                    },
                };
                let reply = msg.into_reply(self.message_id, Some(reply_payload));
                Ok(vec![reply])
            },
            Event::InternalMessage(im) => {
                match im {
                    InternalMessage::Gossip => {
                        let ghost pre = *old(self);
                        let mut outs: Vec<Message<Payload>> = Vec::new();
                        let mut mid: usize = self.message_id;
                        let mut j: usize = 0;
                        let n = self.neighbours.len();
                        while j < n
                            invariant
                                input == Event::<Payload, InternalMessage>::InternalMessage(
                                    InternalMessage::Gossip,
                                ),
                                *self == pre,
                                pre == *old(self),
                                n == pre.neighbours@.len(),
                                pre.message_id + pre.neighbours@.len() <= usize::MAX,
                                j <= n,
                                mid as int == pre.message_id + sends_upto(pre, j as int),
                                outs@.len() == sends_upto(pre, j as int),
                                forall|k: int|
                                    0 <= k < j && (#[trigger] nb_delta(pre, k)).len() > 0
                                        ==> gossip_msg_ok(pre, k, outs@[sends_upto(pre, k)]),
                                forall|k: int|
                                    0 <= k < j ==> has_key(
                                        pre.known@,
                                        (#[trigger] pre.neighbours@[k])@,
                                    ),
                            decreases n - j,
                        {
                            let ghost jj = j as int;
                            let ghost outs0 = outs@;
                            proof {
                                lemma_sends_upto(pre, jj, jj);
                            }
                            match lookup(&self.known, &self.neighbours[j]) {
                                None => {
                                    proof {
                                        assert(!has_key(pre.known@, pre.neighbours@[jj]@));
                                        assert(!all_neighbours_known(pre));
                                        assert(*self == pre);
                                        assert(tick_post(
                                            pre,
                                            *self,
                                            Err(NodeError::UnknownPeer),
                                        ));
                                    }
                                    return Err(NodeError::UnknownPeer);
                                },
                                Some(ki) => {
                                    let delta = delta_vec(&self.messages, &self.known[ki].1);
                                    proof {
                                        assert(ki as int == nb_known_index(pre, jj));
                                        assert(delta@ == nb_delta(pre, jj));
                                        assert(sends_upto(pre, jj + 1) == sends_upto(pre, jj)
                                            + if nb_delta(pre, jj).len() == 0 {
                                            0int
                                        } else {
                                            1int
                                        });
                                    }
                                    if delta.len() > 0 {
                                        let body = Body {
                                            msg_id: Some(mid),
                                            in_reply_to: None,
                                            payload: Payload::Gossip { seen: delta },
                                        };
                                        let m = Message {
                                            src: self.id.clone(),
                                            dest: self.neighbours[j].clone(),
                                            body,
                                        };
                                        proof {
                                            assert(gossip_msg_ok(pre, jj, m));
                                        }
                                        outs.push(m);
                                        mid = mid + 1;
                                        proof {
                                            assert(outs@ == outs0.push(m));
                                            assert(outs@[sends_upto(pre, jj)] == m);
                                        }
                                    }
                                },
                            }
                            proof {
                                assert forall|k: int|
                                    0 <= k < jj + 1 && (#[trigger] nb_delta(pre, k)).len()
                                        > 0 implies gossip_msg_ok(
                                    pre,
                                    k,
                                    outs@[sends_upto(pre, k)],
                                ) by {
                                    if k < jj {
                                        lemma_sends_upto(pre, k, k);
                                        lemma_sends_upto(pre, k + 1, jj);
                                        assert(sends_upto(pre, k + 1) == sends_upto(pre, k)
                                            + 1);
                                        assert(0 <= sends_upto(pre, k) < outs0.len());
                                        assert(gossip_msg_ok(
                                            pre,
                                            k,
                                            outs0[sends_upto(pre, k)],
                                        ));
                                        assert(outs@[sends_upto(pre, k)]
                                            == outs0[sends_upto(pre, k)]);
                                    } else {
                                        assert(k == jj);
                                    }
                                }
                            }
                            j += 1;
                        }
                        self.message_id = mid;
                        Ok(outs)
                    },
                }
            },
            Event::Shutdown => {
                // `step_allows` rules the shutdown signal out; the runtime
                // stops dispatching instead of handing it to a node.
                Ok(Vec::new())
            },
        }
    }
}

} // verus!

