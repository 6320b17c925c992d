//! The workload interface: a node is built once from the `init` message and
//! then consumes one message per step, returning the messages it emits.
//!
//! The runtime around the library reads lines, hands each decoded message
//! either to an RPC waiter or to the workload, and writes the returned
//! messages out; `route_reply` is that demultiplexing decision.

use vstd::prelude::*;

use crate::protocol::Init;
use crate::protocol::Message;
use crate::protocol::NodeError;

verus! {

/// A workload state machine. The full contracts live on each
/// implementation's own inherent methods; the trait carries the shape the
/// runtime drives and the one promise every workload keeps: its internal
/// invariant holds from construction on.
pub trait Node: Sized {
    /// The workload's internal invariant.
    spec fn inv(&self) -> bool;

    /// Builds the node from the init handshake.
    fn from_init(init: Init) -> (r: Result<Self, NodeError>)
        ensures
            r matches Ok(n) ==> n.inv(),
    ;

    /// Consumes one inbound message and returns the messages to send.
    fn step(&mut self, input: Message) -> (r: Result<Vec<Message>, NodeError>)
        requires
            old(self).inv(),
        ensures
            final(self).inv(),
    ;
}

/// True when the runtime must divert this message to an RPC waiter instead
/// of the workload: it answers an outstanding request id.
pub open spec fn is_rpc_reply(m: Message, outstanding: Seq<usize>) -> bool {
    match m.body.in_reply_to {
        Some(id) => outstanding.contains(id),
        None => false,
    }
}

/// The demultiplexing decision of the runtime: `Some(i)` names the
/// outstanding request this message answers (the waiter at index `i`
/// receives it and the workload never sees it); `None` sends the message to
/// the workload.
pub fn route_reply(m: &Message, outstanding: &Vec<usize>) -> (r: Option<usize>)
    ensures
        r matches Some(i) ==> i < outstanding@.len() && m.body.in_reply_to == Some(
            outstanding@[i as int],
        ),
        r is None ==> !is_rpc_reply(*m, outstanding@),
{
    match m.body.in_reply_to {
        None => None,
        Some(id) => {
            let mut i: usize = 0;
            while i < outstanding.len()
                invariant
                    0 <= i <= outstanding@.len(),
                    forall|k: int| 0 <= k < i ==> outstanding@[k] != id,
                    m.body.in_reply_to == Some(id),
                decreases outstanding@.len() - i,
            {
                if outstanding[i] == id {
                    return Some(i);
                }
                i = i + 1;
            }
            None
        },
    }
}

/// The reply that answers the init handshake: `init_ok` with `msg_id` zero,
/// addressed back to the sender.
pub fn init_reply(input: Message) -> (r: Message)
    ensures
        r.src@ == input.dst@,
        r.dst@ == input.src@,
        r.body.id == Some(0usize),
        r.body.in_reply_to == input.body.id,
        r.body.payload is InitOk,
        crate::protocol::replies_to(r, input),
{
    Message {
        src: input.dst,
        dst: input.src,
        body: crate::protocol::Body {
            id: Some(0),
            in_reply_to: input.body.id,
            payload: crate::protocol::Payload::InitOk,
        },
    }
}

} // verus!
