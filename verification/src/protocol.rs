//! The message envelope and the payload variants of the wire protocol.
//!
//! Every line on the wire is one `Message`: a source node id, a destination
//! node id, and a `Body` holding an optional sender-assigned `msg_id`, an
//! optional `in_reply_to` echoing the request's `msg_id`, and one `Payload`
//! variant selected by the `type` tag.

use vstd::prelude::*;

verus! {

/// The cluster membership carried by the `init` message: this node's id and
/// the ids of every node in the cluster.
#[derive(Debug, Clone, PartialEq, Eq)]
pub struct Init {
    pub node_id: String,
    pub node_ids: Vec<String>,
}

/// One payload per message, discriminated on the wire by the `type` field.
#[derive(Debug, Clone, PartialEq, Eq)]
pub enum Payload {
    Init(Init),
    InitOk,
    Echo { echo: String },
    EchoOk { echo: String },
    Generate,
    GenerateOk { guid: String },
    Broadcast { message: usize },
    BroadcastOk,
    BroadcastUnAcked,
    Read,
    ReadOk { value: usize },
    ReadOkMessages { messages: Vec<usize> },
    Topology { topology: Vec<(String, Vec<String>)> },
    TopologyOk,
    Add { delta: usize },
    AddOk,
    ServerRead,
    ServerReadOk { value: usize },
    Send { key: String, msg: usize },
    SendOk { offset: usize },
    Poll { offsets: Vec<(String, usize)> },
    PollOk { msgs: Vec<(String, Vec<(usize, usize)>)> },
    CommitOffsets { offsets: Vec<(String, usize)> },
    CommitOffsetsOk,
    ListCommittedOffsets { keys: Vec<String> },
    ListCommittedOffsetsOk { offsets: Vec<(String, usize)> },
    KvRead { key: String },
    Write { key: String, value: usize },
    WriteOk,
    Cas { key: String, from: usize, to: usize, put: bool },
    CasOk,
    Error { code: usize, text: String },
}

/// The body of a message: optional `msg_id`, optional `in_reply_to`, and the
/// payload whose fields are flattened beside them on the wire.
#[derive(Debug, Clone, PartialEq, Eq)]
pub struct Body {
    pub id: Option<usize>,
    pub in_reply_to: Option<usize>,
    pub payload: Payload,
}

/// The envelope of one wire line. `dst` is written as `dest` on the wire.
#[derive(Debug, Clone, PartialEq, Eq)]
pub struct Message {
    pub src: String,
    pub dst: String,
    pub body: Body,
}

/// Mathematical image of `Init`: the strings as character sequences.
pub struct InitV {
    pub node_id: Seq<char>,
    pub node_ids: Seq<Seq<char>>,
}

/// Mathematical image of `Payload`.
pub enum PayloadV {
    Init(InitV),
    InitOk,
    Echo { echo: Seq<char> },
    EchoOk { echo: Seq<char> },
    Generate,
    GenerateOk { guid: Seq<char> },
    Broadcast { message: usize },
    BroadcastOk,
    BroadcastUnAcked,
    Read,
    ReadOk { value: usize },
    ReadOkMessages { messages: Seq<usize> },
    Topology { topology: Seq<(Seq<char>, Seq<Seq<char>>)> },
    TopologyOk,
    Add { delta: usize },
    AddOk,
    ServerRead,
    ServerReadOk { value: usize },
    Send { key: Seq<char>, msg: usize },
    SendOk { offset: usize },
    Poll { offsets: Seq<(Seq<char>, usize)> },
    PollOk { msgs: Seq<(Seq<char>, Seq<(usize, usize)>)> },
    CommitOffsets { offsets: Seq<(Seq<char>, usize)> },
    CommitOffsetsOk,
    ListCommittedOffsets { keys: Seq<Seq<char>> },
    ListCommittedOffsetsOk { offsets: Seq<(Seq<char>, usize)> },
    KvRead { key: Seq<char> },
    Write { key: Seq<char>, value: usize },
    WriteOk,
    Cas { key: Seq<char>, from: usize, to: usize, put: bool },
    CasOk,
    Error { code: usize, text: Seq<char> },
}

/// Mathematical image of `Body`.
pub struct BodyV {
    pub id: Option<usize>,
    pub in_reply_to: Option<usize>,
    pub payload: PayloadV,
}

/// Mathematical image of `Message`.
pub struct MessageV {
    pub src: Seq<char>,
    pub dst: Seq<char>,
    pub body: BodyV,
}

impl View for Init {
    type V = InitV;

    open spec fn view(&self) -> InitV {
        InitV { node_id: self.node_id@, node_ids: self.node_ids.deep_view() }
    }
}

impl View for Payload {
    type V = PayloadV;

    open spec fn view(&self) -> PayloadV {
        match self {
            Payload::Init(init) => PayloadV::Init(init@),
            Payload::InitOk => PayloadV::InitOk,
            Payload::Echo { echo } => PayloadV::Echo { echo: echo@ },
            Payload::EchoOk { echo } => PayloadV::EchoOk { echo: echo@ },
            Payload::Generate => PayloadV::Generate,
            Payload::GenerateOk { guid } => PayloadV::GenerateOk { guid: guid@ },
            Payload::Broadcast { message } => PayloadV::Broadcast { message: *message },
            Payload::BroadcastOk => PayloadV::BroadcastOk,
            Payload::BroadcastUnAcked => PayloadV::BroadcastUnAcked,
            Payload::Read => PayloadV::Read,
            Payload::ReadOk { value } => PayloadV::ReadOk { value: *value },
            Payload::ReadOkMessages { messages } => PayloadV::ReadOkMessages {
                messages: messages@,
            },
            Payload::Topology { topology } => PayloadV::Topology {
                topology: topology.deep_view(),
            },
            Payload::TopologyOk => PayloadV::TopologyOk,
            Payload::Add { delta } => PayloadV::Add { delta: *delta },
            Payload::AddOk => PayloadV::AddOk,
            Payload::ServerRead => PayloadV::ServerRead,
            Payload::ServerReadOk { value } => PayloadV::ServerReadOk { value: *value },
            Payload::Send { key, msg } => PayloadV::Send { key: key@, msg: *msg },
            Payload::SendOk { offset } => PayloadV::SendOk { offset: *offset },
            Payload::Poll { offsets } => PayloadV::Poll { offsets: offsets.deep_view() },
            Payload::PollOk { msgs } => PayloadV::PollOk { msgs: msgs.deep_view() },
            Payload::CommitOffsets { offsets } => PayloadV::CommitOffsets {
                offsets: offsets.deep_view(),
            },
            Payload::CommitOffsetsOk => PayloadV::CommitOffsetsOk,
            Payload::ListCommittedOffsets { keys } => PayloadV::ListCommittedOffsets {
                keys: keys.deep_view(),
            },
            Payload::ListCommittedOffsetsOk { offsets } => PayloadV::ListCommittedOffsetsOk {
                offsets: offsets.deep_view(),
            },
            Payload::KvRead { key } => PayloadV::KvRead { key: key@ },
            Payload::Write { key, value } => PayloadV::Write { key: key@, value: *value },
            Payload::WriteOk => PayloadV::WriteOk,
            Payload::Cas { key, from, to, put } => PayloadV::Cas {
                key: key@,
                from: *from,
                to: *to,
                put: *put,
            },
            Payload::CasOk => PayloadV::CasOk,
            Payload::Error { code, text } => PayloadV::Error { code: *code, text: text@ },
        }
    }
}

impl View for Body {
    type V = BodyV;

    open spec fn view(&self) -> BodyV {
        BodyV { id: self.id, in_reply_to: self.in_reply_to, payload: self.payload@ }
    }
}

impl View for Message {
    type V = MessageV;

    open spec fn view(&self) -> MessageV {
        MessageV { src: self.src@, dst: self.dst@, body: self.body@ }
    }
}

/// How a step may end without producing output: a payload this workload
/// does not serve (the message is dropped and the node lives on), or an
/// error the runtime must treat as fatal: a missing topology entry, or a
/// store answering a log write with an error.
#[derive(Debug, Clone, Copy, PartialEq, Eq)]
pub enum NodeError {
    UnexpectedPayload,
    MissingTopologyEntry,
    StoreWriteFailed,
}

/// True of a message that answers `req`: source and destination are swapped
/// and `in_reply_to` echoes the request's `msg_id`.
pub open spec fn replies_to(r: Message, req: Message) -> bool {
    &&& r.src@ == req.dst@
    &&& r.dst@ == req.src@
    &&& r.body.in_reply_to == req.body.id
}

/// True when every message of `out` that carries an `in_reply_to` answers
/// `req`; the rest are fresh requests of the node's own.
pub open spec fn all_replies_answer(out: Seq<Message>, req: Message) -> bool {
    forall|i: int|
        0 <= i < out.len() && out[i].body.in_reply_to is Some ==> replies_to(#[trigger] out[i], req)
}

/// True when every `msg_id` carried by a message of `out` lies in
/// `[lo, hi)`: the band of ids the sending node allocated for this step.
pub open spec fn ids_within(out: Seq<Message>, lo: int, hi: int) -> bool {
    forall|i: int|
        0 <= i < out.len() && out[i].body.id is Some ==> lo <= (#[trigger] out[i].body.id)->0 < hi
}

/// True when the `msg_id`s carried by messages of `out` strictly increase in
/// emission order.
pub open spec fn ids_strictly_increase(out: Seq<Message>) -> bool {
    forall|i: int, j: int|
        0 <= i < j < out.len() && out[i].body.id is Some && out[j].body.id is Some
            ==> (#[trigger] out[i].body.id)->0 < (#[trigger] out[j].body.id)->0
}

impl Message {
    /// Builds the envelope from its parts.
    pub fn new(src: String, dst: String, body: Body) -> (r: Self)
        ensures
            r.src == src,
            r.dst == dst,
            r.body == body,
    {
        Self { src, dst, body }
    }

    /// Turns a request into the frame of its reply: source and destination
    /// swap, `in_reply_to` takes the request's `msg_id`, the payload is kept,
    /// and the reply's own `msg_id` is drawn from the counter `id`, which
    /// advances by one.
    pub fn into_reply(self, id: &mut usize) -> (r: Self)
        requires
            *old(id) < usize::MAX,
        ensures
            r.src == self.dst,
            r.dst == self.src,
            r.body.id == Some(*old(id)),
            r.body.in_reply_to == self.body.id,
            r.body.payload == self.body.payload,
            *final(id) == *old(id) + 1,
            replies_to(r, self),
    {
        let mid = *id;
        *id = *id + 1;
        Self {
            src: self.dst,
            dst: self.src,
            body: Body { id: Some(mid), in_reply_to: self.body.id, payload: self.body.payload },
        }
    }
}

/// Concatenating a step's emissions after an earlier step's keeps the
/// `msg_id`s strictly increasing, provided the earlier ids stay below `mid`
/// and the later ids start at `mid`: one node's outbound ids form one
/// strictly increasing run across its whole lifetime.
pub proof fn lemma_ids_increase_across_steps(
    out1: Seq<Message>,
    out2: Seq<Message>,
    lo: int,
    mid: int,
    hi: int,
)
    requires
        lo <= mid <= hi,
        ids_within(out1, lo, mid),
        ids_within(out2, mid, hi),
        ids_strictly_increase(out1),
        ids_strictly_increase(out2),
    ensures
        ids_strictly_increase(out1 + out2),
        ids_within(out1 + out2, lo, hi),
{
    let all = out1 + out2;
    assert forall|i: int, j: int|
        0 <= i < j < all.len() && all[i].body.id is Some && all[j].body.id is Some implies (
    #[trigger] all[i].body.id)->0 < (#[trigger] all[j].body.id)->0 by {
        if j < out1.len() {
            assert(all[i] == out1[i]);
            assert(all[j] == out1[j]);
        } else if i >= out1.len() {
            assert(all[i] == out2[i - out1.len()]);
            assert(all[j] == out2[j - out1.len()]);
        } else {
            assert(all[i] == out1[i]);
            assert(all[j] == out2[j - out1.len()]);
        }
    }
    assert forall|i: int|
        0 <= i < all.len() && all[i].body.id is Some implies lo <= (
    #[trigger] all[i].body.id)->0 < hi by {
        if i < out1.len() {
            assert(all[i] == out1[i]);
        } else {
            assert(all[i] == out2[i - out1.len()]);
        }
    }
}

} // verus!
