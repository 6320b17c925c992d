//! The broadcast workload: values are spread to neighbors, acknowledged,
//! and retransmitted until acknowledged; receivers deduplicate, so the
//! at-least-once fan-out converges.

use vstd::prelude::*;

use crate::node::Node;
use crate::protocol::replies_to;
use crate::protocol::Body;
use crate::protocol::Init;
use crate::protocol::Message;
use crate::protocol::NodeError;
use crate::protocol::Payload;

verus! {

/// What one delivery does to the set of seen values: a new value is
/// appended, a known one changes nothing.
pub open spec fn deliver_seen(seen: Seq<usize>, message: usize) -> Seq<usize> {
    if seen.contains(message) {
        seen
    } else {
        seen.push(message)
    }
}

/// Delivering the same value twice leaves the seen set where the first
/// delivery put it: deduplication is idempotent.
pub proof fn lemma_deliver_seen_idempotent(seen: Seq<usize>, message: usize)
    ensures
        deliver_seen(deliver_seen(seen, message), message) == deliver_seen(seen, message),
{
    if !seen.contains(message) {
        assert(deliver_seen(seen, message)[seen.len() as int] == message);
    }
}

/// Delivery always leaves the value present.
pub proof fn lemma_deliver_seen_complete(seen: Seq<usize>, message: usize)
    ensures
        deliver_seen(seen, message).contains(message),
{
    if !seen.contains(message) {
        assert(deliver_seen(seen, message)[seen.len() as int] == message);
    }
}

/// A sequence without duplicates.
pub open spec fn no_dups(s: Seq<usize>) -> bool {
    forall|i: int, j: int| 0 <= i < j < s.len() ==> #[trigger] s[i] != #[trigger] s[j]
}

/// Delivery keeps the seen set free of duplicates.
pub proof fn lemma_deliver_seen_no_dups(seen: Seq<usize>, message: usize)
    requires
        no_dups(seen),
    ensures
        no_dups(deliver_seen(seen, message)),
{
    if !seen.contains(message) {
        let out = seen.push(message);
        assert forall|i: int, j: int| 0 <= i < j < out.len() implies #[trigger] out[i] != #[trigger] out[j] by {
            if j == seen.len() {
                assert(out[i] == seen[i]);
            }
        }
    }
}

/// The neighbors a broadcast is forwarded to: everyone in the neighbor list
/// but this node and the sender of the broadcast.
pub open spec fn fanout_targets(neighbors: Seq<String>, node: Seq<char>, src: Seq<char>) -> Seq<
    String,
> {
    neighbors.filter(|n: String| n@ != node && n@ != src)
}

/// The forwarded copy of a broadcast: a fresh request from this node to one
/// neighbor, carrying the value.
pub open spec fn is_fanout_msg(
    m: Message,
    node: Seq<char>,
    dst: Seq<char>,
    id: usize,
    message: usize,
) -> bool {
    &&& m.src@ == node
    &&& m.dst@ == dst
    &&& m.body.id == Some(id)
    &&& m.body.in_reply_to is None
    &&& m.body.payload matches Payload::Broadcast { message: v } && v == message
}

/// Broadcast node state: the outbound id counter, this node's name, the
/// values seen in arrival order, the neighbor list from the topology, and
/// the forwarded copies still waiting for `broadcast_ok`, each under the
/// `msg_id` it was sent with.
pub struct BroadcastNode {
    pub id: usize,
    pub node: String,
    pub messages: Vec<usize>,
    pub neighbors: Vec<String>,
    pub unacked: Vec<(usize, (String, usize))>,
}

impl BroadcastNode {
    /// Internal invariant: no value is recorded twice, every waiting copy
    /// has a distinct id, and waiting ids were all drawn below the counter.
    pub open spec fn wf(&self) -> bool {
        &&& no_dups(self.messages@)
        &&& forall|i: int, j: int|
            0 <= i < j < self.unacked@.len() ==> (#[trigger] self.unacked@[i]).0 != (
            #[trigger] self.unacked@[j]).0
        &&& forall|i: int| 0 <= i < self.unacked@.len() ==> (#[trigger] self.unacked@[i]).0 < self.id
    }

    /// Builds the node: nothing seen, no neighbors yet, ids start at one.
    pub fn from_init(init: Init) -> (r: Self)
        ensures
            r.wf(),
            r.id == 1,
            r.node@ == init.node_id@,
            r.messages@ == Seq::<usize>::empty(),
            r.neighbors@ == Seq::<String>::empty(),
            r.unacked@ == Seq::<(usize, (String, usize))>::empty(),
    {
        BroadcastNode {
            id: 1,
            node: init.node_id,
            messages: Vec::new(),
            neighbors: Vec::new(),
            unacked: Vec::new(),
        }
    }

    /// Forwards a newly seen value to every eligible neighbor, recording
    /// each copy as unacknowledged.
    fn fan_out(&mut self, src: &String, message: usize, out: &mut Vec<Message>)
        requires
            old(self).wf(),
            old(self).id + old(self).neighbors@.len() <= usize::MAX,
        ensures
            final(self).wf(),
            final(self).node == old(self).node,
            final(self).messages == old(self).messages,
            final(self).neighbors == old(self).neighbors,
            final(self).id == old(self).id + fanout_targets(
                old(self).neighbors@,
                old(self).node@,
                src@,
            ).len(),
            ({
                let targets = fanout_targets(old(self).neighbors@, old(self).node@, src@);
                &&& final(out)@.len() == old(out)@.len() + targets.len()
                &&& forall|k: int|
                    0 <= k < targets.len() ==> is_fanout_msg(
                        #[trigger] final(out)@[old(out)@.len() + k],
                        old(self).node@,
                        targets[k]@,
                        (old(self).id + k) as usize,
                        message,
                    )
                &&& final(self).unacked@.len() == old(self).unacked@.len() + targets.len()
                &&& forall|k: int|
                    0 <= k < targets.len() ==> {
                        let e = #[trigger] final(self).unacked@[old(self).unacked@.len() + k];
                        e.0 == (old(self).id + k) as usize && e.1.0@ == targets[k]@ && e.1.1
                            == message
                    }
                &&& forall|k: int|
                    0 <= k < old(self).unacked@.len() ==> #[trigger] final(self).unacked@[k] == old(self).unacked@[k]
                &&& forall|k: int|
                    0 <= k < old(out)@.len() ==> #[trigger] final(out)@[k] == old(out)@[k]
            }),
    {
        proof {
            reveal(Seq::filter);
            assert(old(self).neighbors@.take(0) =~= Seq::<String>::empty());
            assert(fanout_targets(Seq::<String>::empty(), old(self).node@, src@) =~= Seq::<
                String,
            >::empty());
        }
        let ghost node_v = self.node@;
        let ghost src_v = src@;
        let ghost all_targets = fanout_targets(self.neighbors@, node_v, src_v);
        let n_len = self.neighbors.len();
        let mut i: usize = 0;
        while i < n_len
            invariant
                old(self).wf(),
                self.node == old(self).node,
                self.messages == old(self).messages,
                self.neighbors == old(self).neighbors,
                node_v == old(self).node@,
                src_v == src@,
                n_len == self.neighbors@.len(),
                0 <= i <= n_len,
                old(self).id + n_len <= usize::MAX,
                ({
                    let targets = fanout_targets(self.neighbors@.take(i as int), node_v, src_v);
                    &&& targets.len() <= i
                    &&& self.id == old(self).id + targets.len()
                    &&& out@.len() == old(out)@.len() + targets.len()
                    &&& forall|k: int|
                        0 <= k < targets.len() ==> is_fanout_msg(
                            #[trigger] out@[old(out)@.len() + k],
                            node_v,
                            targets[k]@,
                            (old(self).id + k) as usize,
                            message,
                        )
                    &&& self.unacked@.len() == old(self).unacked@.len() + targets.len()
                    &&& forall|k: int|
                        0 <= k < targets.len() ==> {
                            let e = #[trigger] self.unacked@[old(self).unacked@.len() + k];
                            e.0 == (old(self).id + k) as usize && e.1.0@ == targets[k]@ && e.1.1
                                == message
                        }
                    &&& forall|k: int|
                        0 <= k < old(self).unacked@.len() ==> #[trigger] self.unacked@[k] == old(self).unacked@[k]
                    &&& forall|k: int|
                        0 <= k < old(out)@.len() ==> #[trigger] out@[k] == old(out)@[k]
                }),
            decreases n_len - i,
        {
            let ghost prev_targets = fanout_targets(self.neighbors@.take(i as int), node_v, src_v);
            let eligible = !str_eq(&self.neighbors[i], &self.node) && !str_eq(
                &self.neighbors[i],
                src,
            );
            if eligible {
                let dst = clone_string(&self.neighbors[i]);
                let dst2 = clone_string(&dst);
                let mid = self.id;
                self.id = self.id + 1;
                let msg = Message {
                    src: clone_string(&self.node),
                    dst,
                    body: Body {
                        id: Some(mid),
                        in_reply_to: None,
                        payload: Payload::Broadcast { message },
                    },
                };
                out.push(msg);
                self.unacked.push((mid, (dst2, message)));
            }
            proof {
                reveal(Seq::filter);
                let taken = self.neighbors@.take(i + 1);
                assert(taken.drop_last() =~= self.neighbors@.take(i as int));
                assert(taken.last() == self.neighbors@[i as int]);
                let targets = fanout_targets(taken, node_v, src_v);
                if eligible {
                    assert(targets =~= prev_targets.push(self.neighbors@[i as int]));
                } else {
                    assert(targets =~= prev_targets);
                }
            }
            i = i + 1;
        }
        proof {
            assert(self.neighbors@.take(n_len as int) =~= self.neighbors@);
            let ghost base = old(self).unacked@.len() as int;
            let ghost targets = fanout_targets(old(self).neighbors@, old(self).node@, src@);
            assert forall|a: int, b: int|
                0 <= a < b < self.unacked@.len() implies (#[trigger] self.unacked@[a]).0 != (
            #[trigger] self.unacked@[b]).0 by {
                if a >= base {
                    let ka = a - base;
                    assert(self.unacked@[base + ka].0 == (old(self).id + ka) as usize);
                }
                if b >= base {
                    let kb = b - base;
                    assert(self.unacked@[base + kb].0 == (old(self).id + kb) as usize);
                }
                if a < base {
                    assert(self.unacked@[a] == old(self).unacked@[a]);
                    assert(old(self).unacked@[a].0 < old(self).id);
                }
                if b < base {
                    assert(self.unacked@[b] == old(self).unacked@[b]);
                    assert(old(self).unacked@[b].0 < old(self).id);
                }
            }
            assert forall|a: int|
                0 <= a < self.unacked@.len() implies (#[trigger] self.unacked@[a]).0
                < self.id by {
                if a < base {
                    assert(self.unacked@[a] == old(self).unacked@[a]);
                    assert(old(self).unacked@[a].0 < old(self).id);
                } else {
                    let ka = a - base;
                    assert(self.unacked@[base + ka].0 == (old(self).id + ka) as usize);
                }
            }
        }
    }

    /// Serves one message, as the workload contract in the module header
    /// describes; the returned messages are emitted in order.
    pub fn step(&mut self, input: Message) -> (r: Result<Vec<Message>, NodeError>)
        requires
            old(self).wf(),
            old(self).id + old(self).neighbors@.len() < usize::MAX,
        ensures
            final(self).wf(),
            final(self).node == old(self).node,
            // a broadcast is acknowledged at once and folded into the seen set
            input.body.payload matches Payload::Broadcast { message } ==> (r matches Ok(out)
                && out@.len() >= 1 && replies_to(out@[0], input) && out@[0].body.id == Some(
                old(self).id,
            ) && out@[0].body.payload is BroadcastOk && final(self).messages@ == deliver_seen(
                old(self).messages@,
                message,
            ) && final(self).neighbors == old(self).neighbors),
            // a known value changes nothing and is not forwarded again
            input.body.payload matches Payload::Broadcast { message } ==> (old(self).messages@.contains(message) ==> (r matches Ok(out) && out@.len() == 1 && final(self).unacked == old(self).unacked && final(self).messages == old(self).messages && final(self).id == old(self).id + 1)),
            // a new value goes out to every eligible neighbor once
            input.body.payload matches Payload::Broadcast { message } ==> (!old(self).messages@.contains(message) ==> (r matches Ok(out) && ({
                let targets = fanout_targets(old(self).neighbors@, old(self).node@, input.src@);
                &&& final(self).id == old(self).id + 1 + targets.len()
                &&& out@.len() == 1 + targets.len()
                &&& forall|k: int|
                    0 <= k < targets.len() ==> is_fanout_msg(
                        #[trigger] out@[1 + k],
                        old(self).node@,
                        targets[k]@,
                        (old(self).id + 1 + k) as usize,
                        message,
                    )
                &&& final(self).unacked@.len() == old(self).unacked@.len() + targets.len()
                &&& forall|k: int|
                    0 <= k < old(self).unacked@.len() ==> #[trigger] final(self).unacked@[k] == old(self).unacked@[k]
                &&& forall|k: int|
                    0 <= k < targets.len() ==> {
                        let e = #[trigger] final(self).unacked@[old(self).unacked@.len() + k];
                        e.0 == (old(self).id + 1 + k) as usize && e.1.0@ == targets[k]@ && e.1.1
                            == message
                    }
            }))),
            // an acknowledgement retires exactly the awaited copy
            input.body.payload is BroadcastOk ==> (r matches Ok(out) && out@.len() == 0 && final(self).messages == old(self).messages && final(self).neighbors == old(self).neighbors && final(self).id == old(self).id && (match input.body.in_reply_to {
                Some(mid) => {
                    if (exists|i: int|
                        0 <= i < old(self).unacked@.len() && (#[trigger] old(self).unacked@[i]).0
                            == mid) {
                        exists|i: int|
                            0 <= i < old(self).unacked@.len() && (#[trigger] old(self).unacked@[i]).0 == mid && final(self).unacked@ == old(self).unacked@.subrange(0, i) + old(self).unacked@.skip(i + 1)
                    } else {
                        final(self).unacked == old(self).unacked
                    }
                },
                None => final(self).unacked == old(self).unacked,
            })),
            // a read returns the seen values, in order, without duplicates
            input.body.payload is Read ==> (r matches Ok(out) && out@.len() == 1 && replies_to(
                out@[0],
                input,
            ) && out@[0].body.id == Some(old(self).id) && (out@[0].body.payload matches
                Payload::ReadOkMessages { messages } && messages@ == old(self).messages@) && final(self).messages == old(self).messages && final(self).unacked == old(self).unacked && final(self).neighbors == old(self).neighbors && final(self).id == old(self).id + 1),
            // the topology installs this node's neighbor list or fails fast
            input.body.payload matches Payload::Topology { topology } ==> (final(self).messages
                == old(self).messages && final(self).unacked == old(self).unacked && final(self).id
                == old(self).id + 1 && (match r {
                Ok(out) => out@.len() == 1 && replies_to(out@[0], input) && out@[0].body.id == Some(
                    old(self).id,
                ) && out@[0].body.payload is TopologyOk && (exists|i: int|
                    0 <= i < topology@.len() && (#[trigger] topology@[i]).0@ == old(self).node@
                        && final(self).neighbors@ == topology@[i].1@),
                Err(e) => e == NodeError::MissingTopologyEntry && final(self).neighbors == old(self).neighbors && (forall|i: int|
                    0 <= i < topology@.len() ==> (#[trigger] topology@[i]).0@ != old(self).node@),
            })),
            // a retransmit tick re-sends every waiting copy verbatim
            input.body.payload is BroadcastUnAcked ==> (r matches Ok(out) && final(self).unacked
                == old(self).unacked && final(self).messages == old(self).messages && final(self).neighbors == old(self).neighbors && final(self).id == old(self).id && out@.len()
                == old(self).unacked@.len() && forall|k: int|
                0 <= k < out@.len() ==> is_fanout_msg(
                    #[trigger] out@[k],
                    old(self).node@,
                    old(self).unacked@[k].1.0@,
                    old(self).unacked@[k].0,
                    old(self).unacked@[k].1.1,
                )),
            !(input.body.payload is Broadcast) && !(input.body.payload is BroadcastOk) && !(
            input.body.payload is Read) && !(input.body.payload is Topology) && !(
            input.body.payload is BroadcastUnAcked) ==> r == Err::<Vec<Message>, NodeError>(
                NodeError::UnexpectedPayload,
            ),
    {
        match input.body.payload {
            Payload::Broadcast { message } => {
                let src = clone_string(&input.src);
                let mut reply = input.into_reply(&mut self.id);
                reply.body.payload = Payload::BroadcastOk;
                let mut out: Vec<Message> = Vec::new();
                out.push(reply);
                if !contains_usize(&self.messages, message) {
                    self.messages.push(message);
                    proof {
                        lemma_deliver_seen_no_dups(old(self).messages@, message);
                    }
                    self.fan_out(&src, message, &mut out);
                }
                Ok(out)
            },
            Payload::BroadcastOk => {
                let out: Vec<Message> = Vec::new();
                match input.body.in_reply_to {
                    None => Ok(out),
                    Some(mid) => {
                        let mut i: usize = 0;
                        while i < self.unacked.len()
                            invariant
                                0 <= i <= self.unacked@.len(),
                                self.unacked == old(self).unacked,
                                self.messages == old(self).messages,
                                self.neighbors == old(self).neighbors,
                                self.node == old(self).node,
                                self.id == old(self).id,
                                old(self).wf(),
                                input.body.payload is BroadcastOk,
                                input.body.in_reply_to == Some(mid),
                                out@.len() == 0,
                                forall|k: int|
                                    0 <= k < i ==> (#[trigger] self.unacked@[k]).0 != mid,
                            decreases self.unacked@.len() - i,
                        {
                            if self.unacked[i].0 == mid {
                                self.unacked.remove(i);
                                proof {
                                    assert(self.unacked@ =~= old(self).unacked@.subrange(
                                        0,
                                        i as int,
                                    ) + old(self).unacked@.skip(i as int + 1));
                                }
                                return Ok(out);
                            }
                            i = i + 1;
                        }
                        Ok(out)
                    },
                }
            },
            Payload::Read => {
                let snapshot = copy_usizes(&self.messages);
                let mut reply = input.into_reply(&mut self.id);
                reply.body.payload = Payload::ReadOkMessages { messages: snapshot };
                let mut out: Vec<Message> = Vec::new();
                out.push(reply);
                Ok(out)
            },
            Payload::Topology { .. } => {
                let mut reply = input.into_reply(&mut self.id);
                let mut topology = match reply.body.payload {
                    Payload::Topology { topology } => topology,
                    _ => Vec::new(),
                };
                reply.body.payload = Payload::TopologyOk;
                let ghost tv = topology@;
                let mut i: usize = 0;
                let n = topology.len();
                while i < n
                    invariant
                        0 <= i <= n,
                        n == tv.len(),
                        topology@ == tv,
                        forall|k: int| 0 <= k < i ==> (#[trigger] tv[k]).0@ != self.node@,
                        self.node == old(self).node,
                        self.messages == old(self).messages,
                        self.unacked == old(self).unacked,
                        self.neighbors == old(self).neighbors,
                        self.id == old(self).id + 1,
                        old(self).wf(),
                        (input.body.payload matches Payload::Topology { topology: t2 } && t2@
                            == tv),
                        crate::protocol::replies_to(reply, input),
                        reply.body.payload is TopologyOk,
                        reply.body.id == Some(old(self).id),
                        reply.body.in_reply_to == input.body.id,
                    decreases n - i,
                {
                    if str_eq(&topology[i].0, &self.node) {
                        let entry = topology.remove(i);
                        self.neighbors = entry.1;
                        let mut out: Vec<Message> = Vec::new();
                        out.push(reply);
                        proof {
                            assert(tv[i as int].1 == entry.1);
                        }
                        return Ok(out);
                    }
                    i = i + 1;
                }
                Err(NodeError::MissingTopologyEntry)
            },
            Payload::BroadcastUnAcked => {
                let mut out: Vec<Message> = Vec::new();
                let mut i: usize = 0;
                while i < self.unacked.len()
                    invariant
                        0 <= i <= self.unacked@.len(),
                        out@.len() == i,
                        forall|k: int|
                            0 <= k < i ==> is_fanout_msg(
                                #[trigger] out@[k],
                                self.node@,
                                self.unacked@[k].1.0@,
                                self.unacked@[k].0,
                                self.unacked@[k].1.1,
                            ),
                    decreases self.unacked@.len() - i,
                {
                    let e_id = self.unacked[i].0;
                    let e_dst = clone_string(&self.unacked[i].1.0);
                    let e_val = self.unacked[i].1.1;
                    let msg = Message {
                        src: clone_string(&self.node),
                        dst: e_dst,
                        body: Body {
                            id: Some(e_id),
                            in_reply_to: None,
                            payload: Payload::Broadcast { message: e_val },
                        },
                    };
                    out.push(msg);
                    i = i + 1;
                }
                Ok(out)
            },
            _ => Err(NodeError::UnexpectedPayload),
        }
    }
}

/// Copies a string; the copy carries the same characters.
pub fn clone_string(s: &String) -> (r: String)
    ensures
        r == *s,
        r@ == s@,
{
    s.clone()
}

/// Compares two strings by their characters.
pub fn str_eq(a: &String, b: &String) -> (r: bool)
    ensures
        r == (a@ == b@),
{
    *a == *b
}

/// True when the vector holds the value.
pub fn contains_usize(v: &Vec<usize>, x: usize) -> (r: bool)
    ensures
        r == v@.contains(x),
{
    let mut i: usize = 0;
    while i < v.len()
        invariant
            0 <= i <= v@.len(),
            forall|k: int| 0 <= k < i ==> v@[k] != x,
        decreases v@.len() - i,
    {
        if v[i] == x {
            return true;
        }
        i = i + 1;
    }
    false
}

/// Copies a vector of values.
pub fn copy_usizes(v: &Vec<usize>) -> (r: Vec<usize>)
    ensures
        r@ == v@,
{
    let mut r: Vec<usize> = Vec::new();
    let mut i: usize = 0;
    while i < v.len()
        invariant
            0 <= i <= v@.len(),
            r@ == v@.take(i as int),
        decreases v@.len() - i,
    {
        r.push(v[i]);
        proof {
            assert(v@.take(i + 1) =~= v@.take(i as int).push(v@[i as int]));
        }
        i = i + 1;
    }
    proof {
        assert(v@.take(v@.len() as int) =~= v@);
    }
    r
}

impl Node for BroadcastNode {
    open spec fn inv(&self) -> bool {
        self.wf()
    }

    fn from_init(init: Init) -> (r: Result<Self, NodeError>) {
        Ok(BroadcastNode::from_init(init))
    }

    fn step(&mut self, input: Message) -> (r: Result<Vec<Message>, NodeError>) {
        if !(self.id < usize::MAX && usize::MAX - self.id > self.neighbors.len()) {
            return Err(NodeError::UnexpectedPayload);
        }
        BroadcastNode::step(self, input)
    }
}

} // verus!
