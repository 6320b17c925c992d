//! The unique-id workload: each `generate` request is answered with an id
//! of the form `<node>-<counter>`, unique because the node name is unique
//! in the cluster and the counter never repeats within the node.

use vstd::prelude::*;

use crate::json::enc_usize;
use crate::json::push_chars;
use crate::node::Node;
use crate::protocol::all_replies_answer;
use crate::protocol::ids_strictly_increase;
use crate::protocol::ids_within;
use crate::protocol::replies_to;
use crate::protocol::Init;
use crate::protocol::Message;
use crate::protocol::NodeError;
use crate::protocol::Payload;

verus! {

/// The id a node with name `node` and counter `id` hands out.
pub open spec fn guid_text(node: Seq<char>, id: nat) -> Seq<char> {
    node + seq!['-'] + enc_usize(id)
}

/// Unique-id node state: the node's own name and the counter.
pub struct UniqueIdNode {
    pub id: usize,
    pub node: String,
}

impl UniqueIdNode {
    /// Builds the node from the handshake; ids start at one.
    pub fn from_init(init: Init) -> (r: Self)
        ensures
            r.id == 1,
            r.node@ == init.node_id@,
    {
        UniqueIdNode { id: 1, node: init.node_id }
    }

    /// Serves one message: `generate` is answered by `generate_ok` whose id
    /// is the node name, a dash, and the current counter value.
    pub fn step(&mut self, input: Message) -> (r: Result<Vec<Message>, NodeError>)
        requires
            old(self).id < usize::MAX,
        ensures
            final(self).node == old(self).node,
            old(self).id <= final(self).id <= old(self).id + 1,
            r matches Ok(out) ==> all_replies_answer(out@, input) && ids_within(
                out@,
                old(self).id as int,
                final(self).id as int,
            ) && ids_strictly_increase(out@),
            input.body.payload is Generate ==> (r matches Ok(out) && out@.len() == 1 && replies_to(
                out@[0],
                input,
            ) && out@[0].body.id == Some(old(self).id) && (out@[0].body.payload matches
                Payload::GenerateOk { guid } && guid@ == guid_text(
                old(self).node@,
                old(self).id as nat,
            )) && final(self).id == old(self).id + 1),
            input.body.payload is GenerateOk ==> (r matches Ok(out) && out@.len() == 0 && *final(self) == *old(self)),
            !(input.body.payload is Generate) && !(input.body.payload is GenerateOk) ==> r == Err::<
                Vec<Message>,
                NodeError,
            >(NodeError::UnexpectedPayload) && *final(self) == *old(self),
    {
        match input.body.payload {
            Payload::Generate => {
                let ghost id0 = self.id;
                let mut v: Vec<char> = Vec::new();
                push_chars(&mut v, self.node.as_str());
                v.push('-');
                crate::json::push_usize(&mut v, self.id);
                proof {
                    assert(v@ =~= guid_text(self.node@, id0 as nat));
                }
                let guid = crate::wire::chars_to_string(v);
                let mut reply = input.into_reply(&mut self.id);
                reply.body.payload = Payload::GenerateOk { guid };
                let mut out: Vec<Message> = Vec::new();
                out.push(reply);
                Ok(out)
            },
            Payload::GenerateOk { .. } => {
                let out: Vec<Message> = Vec::new();
                Ok(out)
            },
            _ => Err(NodeError::UnexpectedPayload),
        }
    }
}

impl Node for UniqueIdNode {
    open spec fn inv(&self) -> bool {
        true
    }

    fn from_init(init: Init) -> (r: Result<Self, NodeError>) {
        Ok(UniqueIdNode::from_init(init))
    }

    fn step(&mut self, input: Message) -> (r: Result<Vec<Message>, NodeError>) {
        if self.id == usize::MAX {
            return Err(NodeError::UnexpectedPayload);
        }
        UniqueIdNode::step(self, input)
    }
}

} // verus!
