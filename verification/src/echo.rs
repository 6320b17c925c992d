//! The echo workload: every `echo` request is answered by `echo_ok`
//! carrying the same text back.

use vstd::prelude::*;

use crate::node::Node;
use crate::protocol::all_replies_answer;
use crate::protocol::ids_strictly_increase;
use crate::protocol::ids_within;
use crate::protocol::replies_to;
use crate::protocol::Init;
use crate::protocol::Message;
use crate::protocol::NodeError;
use crate::protocol::Payload;

verus! {

/// Echo node state: only the counter the next outbound `msg_id` is drawn
/// from.
pub struct EchoNode {
    pub id: usize,
}

impl EchoNode {
    /// Builds the node; the first reply takes `msg_id` one.
    pub fn from_init(_init: Init) -> (r: Self)
        ensures
            r.id == 1,
    {
        EchoNode { id: 1 }
    }

    /// Serves one message: `echo` is answered by `echo_ok` with the same
    /// text; a stray `echo_ok` is ignored; anything else is refused.
    pub fn step(&mut self, input: Message) -> (r: Result<Vec<Message>, NodeError>)
        requires
            old(self).id < usize::MAX,
        ensures
            old(self).id <= final(self).id <= old(self).id + 1,
            r matches Ok(out) ==> all_replies_answer(out@, input) && ids_within(
                out@,
                old(self).id as int,
                final(self).id as int,
            ) && ids_strictly_increase(out@),
            input.body.payload matches Payload::Echo { echo } ==> (r matches Ok(out) && out@.len()
                == 1 && replies_to(out@[0], input) && out@[0].body.id == Some(old(self).id)
                && (out@[0].body.payload matches Payload::EchoOk { echo: e } && e@ == echo@)
                && final(self).id == old(self).id + 1),
            input.body.payload is EchoOk ==> (r matches Ok(out) && out@.len() == 0 && *final(self)
                == *old(self)),
            !(input.body.payload is Echo) && !(input.body.payload is EchoOk) ==> r == Err::<
                Vec<Message>,
                NodeError,
            >(NodeError::UnexpectedPayload) && *final(self) == *old(self),
    {
        match input.body.payload {
            Payload::Echo { .. } => {
                let mut reply = input.into_reply(&mut self.id);
                let out_payload = match reply.body.payload {
                    Payload::Echo { echo } => Payload::EchoOk { echo },
                    _ => Payload::InitOk,
                };
                reply.body.payload = out_payload;
                let mut out: Vec<Message> = Vec::new();
                out.push(reply);
                Ok(out)
            },
            Payload::EchoOk { .. } => {
                let out: Vec<Message> = Vec::new();
                Ok(out)
            },
            _ => Err(NodeError::UnexpectedPayload),
        }
    }
}

impl Node for EchoNode {
    open spec fn inv(&self) -> bool {
        true
    }

    fn from_init(init: Init) -> (r: Result<Self, NodeError>) {
        Ok(EchoNode::from_init(init))
    }

    fn step(&mut self, input: Message) -> (r: Result<Vec<Message>, NodeError>) {
        if self.id == usize::MAX {
            return Err(NodeError::UnexpectedPayload);
        }
        EchoNode::step(self, input)
    }
}

} // verus!
