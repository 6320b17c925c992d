//! The grow-only counter workload: each node accumulates its own deltas and
//! gossips them; a read returns the local total plus the last value heard
//! from every peer, so contributions are partitioned by origin and never
//! double-counted.

use vstd::prelude::*;

use crate::broadcast::clone_string;
use crate::broadcast::str_eq;
use crate::node::Node;
use crate::protocol::replies_to;
use crate::protocol::Init;
use crate::protocol::Message;
use crate::protocol::NodeError;
use crate::protocol::Payload;

verus! {

/// The sum of the observed peer values.
pub open spec fn sum_values(v: Seq<(Seq<char>, usize)>) -> int
    decreases v.len(),
{
    if v.len() == 0 {
        0
    } else {
        sum_values(v.drop_last()) + v.last().1
    }
}

/// The total a read returns: this node's own count plus everything heard.
pub open spec fn read_total(count: usize, v: Seq<(Seq<char>, usize)>) -> int {
    count + sum_values(v)
}

/// The sum of a plain value sequence.
pub open spec fn sum_usizes(s: Seq<usize>) -> int
    decreases s.len(),
{
    if s.len() == 0 {
        0
    } else {
        sum_usizes(s.drop_last()) + s.last()
    }
}

proof fn lemma_sum_usizes_drop(s: Seq<usize>, i: int)
    requires
        0 <= i < s.len(),
    ensures
        sum_usizes(s) == sum_usizes(s.remove(i)) + s[i],
    decreases s.len(),
{
    if i == s.len() - 1 {
        assert(s.remove(i) =~= s.drop_last());
    } else {
        lemma_sum_usizes_drop(s.drop_last(), i);
        assert(s.remove(i).drop_last() =~= s.drop_last().remove(i));
        assert(s.remove(i).last() == s.last());
    }
}

/// Convergence: when a node has heard from every peer exactly that peer's
/// own count, its read total is the sum of all counts in the cluster: the
/// added deltas are counted once each.
pub proof fn lemma_counter_convergence(counts: Seq<usize>, i: int, vals: Seq<(Seq<char>, usize)>)
    requires
        0 <= i < counts.len(),
        vals.len() == counts.len() - 1,
        forall|k: int|
            0 <= k < vals.len() ==> (#[trigger] vals[k]).1 == counts.remove(i)[k],
    ensures
        read_total(counts[i], vals) == sum_usizes(counts),
    decreases vals.len(),
{
    lemma_sum_usizes_drop(counts, i);
    lemma_sum_values_is_sum(vals, counts.remove(i));
}

proof fn lemma_sum_values_is_sum(vals: Seq<(Seq<char>, usize)>, nums: Seq<usize>)
    requires
        vals.len() == nums.len(),
        forall|k: int| 0 <= k < vals.len() ==> (#[trigger] vals[k]).1 == nums[k],
    ensures
        sum_values(vals) == sum_usizes(nums),
    decreases vals.len(),
{
    if vals.len() > 0 {
        assert(forall|k: int|
            0 <= k < vals.drop_last().len() ==> (#[trigger] vals.drop_last()[k]).1
                == nums.drop_last()[k]);
        lemma_sum_values_is_sum(vals.drop_last(), nums.drop_last());
        assert(vals.last().1 == nums[vals.len() - 1]);
    }
}

/// The cluster members other than this node, in membership order.
pub open spec fn peers_of(ids: Seq<String>, node: Seq<char>) -> Seq<String> {
    ids.filter(|x: String| x@ != node)
}

/// Grow-only counter state: the id counter, this node's name and
/// accumulated total, the peer list, and the last value heard per peer.
pub struct GrowOnlyCounter {
    pub id: usize,
    pub node: String,
    pub count: usize,
    pub node_ids: Vec<String>,
    pub node_values: Vec<(String, usize)>,
}

impl GrowOnlyCounter {
    /// Internal invariant: at most one recorded value per peer, so the
    /// per-origin accounting never double-counts a contribution.
    pub open spec fn wf(&self) -> bool {
        forall|i: int, j: int|
            0 <= i < j < self.node_values.deep_view().len() ==> (
            #[trigger] self.node_values.deep_view()[i]).0 != (
            #[trigger] self.node_values.deep_view()[j]).0
    }

    /// Builds the node: nothing counted, nothing heard; the peer list is
    /// the cluster membership without this node.
    pub fn from_init(init: Init) -> (r: Self)
        ensures
            r.wf(),
            r.id == 1,
            r.count == 0,
            r.node@ == init.node_id@,
            r.node_values@ == Seq::<(String, usize)>::empty(),
            r.node_ids@ == peers_of(init.node_ids@, init.node_id@),
    {
        let node = init.node_id;
        let mut node_ids: Vec<String> = Vec::new();
        let n = init.node_ids.len();
        let mut i: usize = 0;
        proof {
            reveal(Seq::filter);
            assert(init.node_ids@.take(0) =~= Seq::<String>::empty());
            assert(peers_of(Seq::<String>::empty(), node@) =~= Seq::<String>::empty());
        }
        while i < n
            invariant
                0 <= i <= n,
                n == init.node_ids@.len(),
                node_ids@ == peers_of(init.node_ids@.take(i as int), node@),
            decreases n - i,
        {
            proof {
                reveal(Seq::filter);
                let taken = init.node_ids@.take(i + 1);
                assert(taken.drop_last() =~= init.node_ids@.take(i as int));
                assert(taken.last() == init.node_ids@[i as int]);
            }
            if !str_eq(&init.node_ids[i], &node) {
                let copy = clone_string(&init.node_ids[i]);
                node_ids.push(copy);
                proof {
                    assert(node_ids@ =~= peers_of(init.node_ids@.take(i + 1), node@));
                }
            }
            i = i + 1;
        }
        proof {
            assert(init.node_ids@.take(n as int) =~= init.node_ids@);
        }
        GrowOnlyCounter { id: 1, node, count: 0, node_ids, node_values: Vec::new() }
    }

    /// Serves one message: `add` accumulates, `read` reports the convergent
    /// total, `server_read` hands out this node's own contribution, and
    /// `server_read_ok` records what a peer reported, keyed by that peer.
    pub fn step(&mut self, input: Message) -> (r: Result<Vec<Message>, NodeError>)
        requires
            old(self).wf(),
            old(self).id < usize::MAX,
            input.body.payload matches Payload::Add { delta } ==> old(self).count + delta
                <= usize::MAX,
            input.body.payload is Read ==> read_total(old(self).count, old(self).node_values.deep_view())
                <= usize::MAX,
        ensures
            final(self).wf(),
            final(self).node == old(self).node,
            final(self).node_ids == old(self).node_ids,
            old(self).id <= final(self).id <= old(self).id + 1,
            input.body.payload matches Payload::Add { delta } ==> (r matches Ok(out) && out@.len()
                == 1 && replies_to(out@[0], input) && out@[0].body.payload is AddOk && final(self).count == old(self).count + delta && final(self).node_values == old(self).node_values),
            input.body.payload is Read ==> (r matches Ok(out) && out@.len() == 1 && replies_to(
                out@[0],
                input,
            ) && (out@[0].body.payload matches Payload::ReadOk { value } && value == read_total(
                old(self).count,
                old(self).node_values.deep_view(),
            )) && final(self).count == old(self).count && final(self).node_values == old(self).node_values),
            input.body.payload is ServerRead ==> (r matches Ok(out) && out@.len() == 1
                && replies_to(out@[0], input) && (out@[0].body.payload matches
                Payload::ServerReadOk { value } && value == old(self).count) && final(self).count
                == old(self).count && final(self).node_values == old(self).node_values),
            input.body.payload matches Payload::ServerReadOk { value } ==> (r matches Ok(out)
                && out@.len() == 0 && final(self).count == old(self).count && ({
                let dv = old(self).node_values.deep_view();
                let peer = input.src@;
                if (exists|k: int| 0 <= k < dv.len() && (#[trigger] dv[k]).0 == peer) {
                    exists|k: int|
                        0 <= k < dv.len() && (#[trigger] dv[k]).0 == peer && (forall|j: int|
                            0 <= j < k ==> (#[trigger] dv[j]).0 != peer) && final(self).node_values.deep_view() =~= dv.update(k, (peer, value))
                } else {
                    final(self).node_values.deep_view() =~= dv.push((peer, value))
                }
            })),
            !(input.body.payload is Add) && !(input.body.payload is Read) && !(
            input.body.payload is ServerRead) && !(input.body.payload is ServerReadOk) ==> r
                == Err::<Vec<Message>, NodeError>(NodeError::UnexpectedPayload),
    {
        match input.body.payload {
            Payload::Add { delta } => {
                self.count = self.count + delta;
                let mut reply = input.into_reply(&mut self.id);
                reply.body.payload = Payload::AddOk;
                let mut out: Vec<Message> = Vec::new();
                out.push(reply);
                Ok(out)
            },
            Payload::Read => {
                let mut total: usize = self.count;
                let n = self.node_values.len();
                let mut i: usize = 0;
                proof {
                    assert(self.node_values.deep_view().take(0) =~= Seq::<
                        (Seq<char>, usize),
                    >::empty());
                }
                while i < n
                    invariant
                        0 <= i <= n,
                        self == old(self),
                        n == self.node_values@.len(),
                        total == self.count + sum_values(self.node_values.deep_view().take(i as int)),
                        read_total(self.count, self.node_values.deep_view()) <= usize::MAX,
                    decreases n - i,
                {
                    proof {
                        let dv = self.node_values.deep_view();
                        assert(dv.take(i + 1).drop_last() =~= dv.take(i as int));
                        assert(dv.take(i + 1).last() == dv[i as int]);
                        lemma_sum_values_prefix_bound(dv, i + 1);
                        assert(dv[i as int].1 == self.node_values@[i as int].1);
                    }
                    total = total + self.node_values[i].1;
                    i = i + 1;
                }
                proof {
                    assert(self.node_values.deep_view().take(n as int) =~= self.node_values.deep_view());
                }
                let mut reply = input.into_reply(&mut self.id);
                reply.body.payload = Payload::ReadOk { value: total };
                let mut out: Vec<Message> = Vec::new();
                out.push(reply);
                Ok(out)
            },
            Payload::ServerRead => {
                let value = self.count;
                let mut reply = input.into_reply(&mut self.id);
                reply.body.payload = Payload::ServerReadOk { value };
                let mut out: Vec<Message> = Vec::new();
                out.push(reply);
                Ok(out)
            },
            Payload::ServerReadOk { value } => {
                let peer = clone_string(&input.src);
                let out: Vec<Message> = Vec::new();
                let n = self.node_values.len();
                let mut i: usize = 0;
                while i < n
                    invariant
                        0 <= i <= n,
                        self == old(self),
                        old(self).wf(),
                        n == self.node_values@.len(),
                        out@.len() == 0,
                        peer@ == input.src@,
                        input.body.payload matches Payload::ServerReadOk { value: v2 } && v2
                            == value,
                        forall|j: int|
                            0 <= j < i ==> (#[trigger] self.node_values.deep_view()[j]).0
                                != peer@,
                    decreases n - i,
                {
                    if str_eq(&self.node_values[i].0, &peer) {
                        let ghost dv = self.node_values.deep_view();
                        self.node_values.set(i, (peer, value));
                        proof {
                            assert(self.node_values.deep_view() =~~= dv.update(
                                i as int,
                                (input.src@, value),
                            ));
                            assert(dv == old(self).node_values.deep_view());
                            assert((dv[i as int]).0 == input.src@);
                            let ndv = self.node_values.deep_view();
                            assert forall|k: int| 0 <= k < ndv.len() implies (#[trigger] ndv[k]).0
                                == dv[k].0 by {
                                if k == i as int {
                                    assert(dv[i as int].0 == input.src@);
                                }
                            }
                            assert forall|a: int, b: int|
                                0 <= a < b < ndv.len() implies (#[trigger] ndv[a]).0 != (
                            #[trigger] ndv[b]).0 by {
                                assert(dv[a].0 != dv[b].0);
                            }
                        }
                        return Ok(out);
                    }
                    i = i + 1;
                }
                let ghost dv = self.node_values.deep_view();
                self.node_values.push((peer, value));
                proof {
                    assert(self.node_values.deep_view() =~~= dv.push((input.src@, value)));
                    assert(forall|k: int|
                        0 <= k < dv.len() ==> (#[trigger] dv[k]).0 != input.src@);
                    let ndv = self.node_values.deep_view();
                    assert forall|a: int, b: int|
                        0 <= a < b < ndv.len() implies (#[trigger] ndv[a]).0 != (
                    #[trigger] ndv[b]).0 by {
                        if b == ndv.len() - 1 {
                            assert(ndv[a] == dv[a]);
                            assert(dv[a].0 != input.src@);
                        } else {
                            assert(ndv[a] == dv[a]);
                            assert(ndv[b] == dv[b]);
                            assert(dv[a].0 != dv[b].0);
                        }
                    }
                }
                Ok(out)
            },
            _ => Err(NodeError::UnexpectedPayload),
        }
    }
}

/// The running prefix sums of the peer values never exceed the full sum.
proof fn lemma_sum_values_prefix_bound(v: Seq<(Seq<char>, usize)>, i: int)
    requires
        0 <= i <= v.len(),
    ensures
        sum_values(v.take(i)) <= sum_values(v),
    decreases v.len() - i,
{
    if i < v.len() {
        lemma_sum_values_prefix_bound(v, i + 1);
        assert(v.take(i + 1).drop_last() =~= v.take(i));
        assert(v.take(i + 1).last().1 >= 0);
    } else {
        assert(v.take(i) =~= v);
    }
}

impl Node for GrowOnlyCounter {
    open spec fn inv(&self) -> bool {
        self.wf()
    }

    fn from_init(init: Init) -> (r: Result<Self, NodeError>) {
        Ok(GrowOnlyCounter::from_init(init))
    }

    fn step(&mut self, input: Message) -> (r: Result<Vec<Message>, NodeError>) {
        if self.id == usize::MAX {
            return Err(NodeError::UnexpectedPayload);
        }
        let fits = match &input.body.payload {
            Payload::Add { delta } => *delta <= usize::MAX - self.count,
            Payload::Read => {
                let mut total: u128 = self.count as u128;
                let mut i: usize = 0;
                let ghost dv = self.node_values.deep_view();
                proof {
                    assert(dv.take(0) =~= Seq::<(Seq<char>, usize)>::empty());
                }
                let n = self.node_values.len();
                let mut ok = true;
                while i < n && ok
                    invariant
                        0 <= i <= n,
                        n == self.node_values@.len(),
                        dv == self.node_values.deep_view(),
                        ok ==> total == self.count + sum_values(dv.take(i as int)) && total <= (
                        usize::MAX as u128),
                    decreases n - i, if ok { 1int } else { 0int },
                {
                    proof {
                        assert(dv.take(i + 1).drop_last() =~= dv.take(i as int));
                        assert(dv.take(i + 1).last() == dv[i as int]);
                        assert(dv[i as int].1 == self.node_values@[i as int].1);
                    }
                    total = total + (self.node_values[i].1 as u128);
                    if total > (usize::MAX as u128) {
                        ok = false;
                    } else {
                        i = i + 1;
                    }
                }
                proof {
                    if ok && i == n {
                        assert(dv.take(n as int) =~= dv);
                    }
                }
                ok && i == n
            },
            _ => true,
        };
        if !fits {
            return Err(NodeError::UnexpectedPayload);
        }
        GrowOnlyCounter::step(self, input)
    }
}

} // verus!
