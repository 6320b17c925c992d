//! The kafka-style log workload. The log itself lives in two external
//! key-value stores: `lin-kv` holds the authoritative next-offset counter
//! per key (allocated by compare-and-set, so offsets are unique), `seq-kv`
//! holds the entries and the committed read positions. The node is a state
//! machine: a client request starts a conversation with the stores, each
//! store reply advances it, and the final step answers the client.

use vstd::prelude::*;

use crate::broadcast::clone_string;
use crate::json::enc_usize;
use crate::json::push_chars;
use crate::node::Node;
use crate::protocol::Body;
use crate::protocol::Init;
use crate::protocol::Message;
use crate::protocol::NodeError;
use crate::protocol::Payload;
use crate::wire::chars_to_string;

verus! {

/// One record of the log, as the original data model carries it.
pub struct Log {
    pub value: usize,
}

impl Log {
    /// Wraps a plain value as a record.
    pub fn from(value: usize) -> (r: Self)
        ensures
            r.value == value,
    {
        Self { value }
    }
}

/// The store cell that holds the next-offset counter of `key`.
pub open spec fn latest_key(key: Seq<char>) -> Seq<char> {
    key + seq![':', 'l', 'a', 't', 'e', 's', 't']
}

/// The store cell that holds entry `offset` of `key`.
pub open spec fn entry_key(key: Seq<char>, offset: nat) -> Seq<char> {
    key + seq![':'] + enc_usize(offset)
}

/// The store cell that holds the committed offset of `key`.
pub open spec fn commit_key(key: Seq<char>) -> Seq<char> {
    seq!['c', 'o', 'm', 'm', 'i', 't', ':'] + key
}

/// A model of a key-value store: the map the cells form.
pub type StoreV = Map<Seq<char>, usize>;

/// What a poll returns for one key when the store is intact: consecutive
/// entries from `from` on, stopping at the first missing one or after
/// `limit` entries.
pub open spec fn poll_entries(store: StoreV, key: Seq<char>, from: nat, limit: nat) -> Seq<
    (usize, usize),
>
    decreases limit,
{
    if limit == 0 || !store.contains_key(entry_key(key, from)) || from > usize::MAX {
        Seq::empty()
    } else {
        seq![((from as usize), store[entry_key(key, from)])] + poll_entries(
            store,
            key,
            from + 1,
            (limit - 1) as nat,
        )
    }
}

/// A send that allocated offset `o` and wrote its message is visible to the
/// next poll: polling from `o` starts with exactly `[o, msg]`.
pub proof fn lemma_send_then_poll(store: StoreV, key: Seq<char>, o: usize, msg: usize, limit: nat)
    requires
        store.contains_key(entry_key(key, o as nat)),
        store[entry_key(key, o as nat)] == msg,
        limit > 0,
    ensures
        poll_entries(store, key, o as nat, limit).len() >= 1,
        poll_entries(store, key, o as nat, limit)[0] == (o, msg),
{
}

/// Applies a batch of writes to a store model, in order.
pub open spec fn apply_writes(store: StoreV, writes: Seq<(Seq<char>, usize)>) -> StoreV
    decreases writes.len(),
{
    if writes.len() == 0 {
        store
    } else {
        apply_writes(store.insert(writes[0].0, writes[0].1), writes.skip(1))
    }
}

/// The writes a `commit_offsets` request performs: one commit cell per key.
pub open spec fn commit_writes(offsets: Seq<(Seq<char>, usize)>) -> Seq<(Seq<char>, usize)> {
    offsets.map_values(|p: (Seq<char>, usize)| (commit_key(p.0), p.1))
}

proof fn lemma_apply_writes_agree(s1: StoreV, s2: StoreV, w: Seq<(Seq<char>, usize)>, k: Seq<char>)
    requires
        (exists|i: int| 0 <= i < w.len() && (#[trigger] w[i]).0 == k) || (s1.contains_key(k)
            == s2.contains_key(k) && (s1.contains_key(k) ==> s1[k] == s2[k])),
    ensures
        apply_writes(s1, w).contains_key(k) == apply_writes(s2, w).contains_key(k),
        apply_writes(s1, w).contains_key(k) ==> apply_writes(s1, w)[k] == apply_writes(s2, w)[k],
    decreases w.len(),
{
    if w.len() > 0 {
        let s1b = s1.insert(w[0].0, w[0].1);
        let s2b = s2.insert(w[0].0, w[0].1);
        if w[0].0 == k {
            lemma_apply_writes_agree(s1b, s2b, w.skip(1), k);
        } else if (exists|i: int| 0 <= i < w.len() && (#[trigger] w[i]).0 == k) {
            let i = choose|i: int| 0 <= i < w.len() && (#[trigger] w[i]).0 == k;
            assert(w.skip(1)[i - 1].0 == k);
            lemma_apply_writes_agree(s1b, s2b, w.skip(1), k);
        } else {
            lemma_apply_writes_agree(s1b, s2b, w.skip(1), k);
        }
    }
}

proof fn lemma_apply_writes_frame(s: StoreV, w: Seq<(Seq<char>, usize)>, k: Seq<char>)
    requires
        forall|i: int| 0 <= i < w.len() ==> (#[trigger] w[i]).0 != k,
    ensures
        apply_writes(s, w).contains_key(k) == s.contains_key(k),
        s.contains_key(k) ==> apply_writes(s, w)[k] == s[k],
    decreases w.len(),
{
    if w.len() > 0 {
        assert(w[0].0 != k);
        assert(forall|i: int| 0 <= i < w.skip(1).len() ==> (#[trigger] w.skip(1)[i]).0 != k) by {
            assert(forall|i: int| 0 <= i < w.skip(1).len() ==> w.skip(1)[i] == w[i + 1]);
        }
        lemma_apply_writes_frame(s.insert(w[0].0, w[0].1), w.skip(1), k);
    }
}

/// Replaying a batch of commit writes is a no-op: the store after applying
/// the batch twice equals the store after applying it once.
pub proof fn lemma_commit_replay(store: StoreV, offsets: Seq<(Seq<char>, usize)>)
    ensures
        apply_writes(apply_writes(store, commit_writes(offsets)), commit_writes(offsets))
            =~= apply_writes(store, commit_writes(offsets)),
{
    let w = commit_writes(offsets);
    let once = apply_writes(store, w);
    let twice = apply_writes(once, w);
    assert forall|k: Seq<char>|
        twice.contains_key(k) == once.contains_key(k) && (#[trigger] once.contains_key(k)
            ==> twice[k] == once[k]) by {
        if exists|i: int| 0 <= i < w.len() && (#[trigger] w[i]).0 == k {
            lemma_apply_writes_agree(store, once, w, k);
        } else {
            lemma_apply_writes_frame(once, w, k);
        }
    }
}

/// The conversation the node is in the middle of, if any. Each variant
/// remembers whom to answer and the request id of the store call in
/// flight.
pub enum Pending {
    Idle,
    SendRead { client: Message, key: String, msg: usize, rpc: usize },
    SendCas { client: Message, key: String, msg: usize, curr: usize, rpc: usize },
    SendWriteEntry { client: Message, key: String, msg: usize, offset: usize, rpc: usize },
    SendWriteLatest { client: Message, offset: usize, rpc: usize },
    CommitWrite { client: Message, remaining: Vec<(String, usize)>, rpc: usize },
    ListRead {
        client: Message,
        current: String,
        remaining: Vec<String>,
        acc: Vec<(String, usize)>,
        rpc: usize,
    },
    PollRead {
        client: Message,
        remaining: Vec<(String, usize)>,
        key: String,
        from: usize,
        left: usize,
        entries: Vec<(usize, usize)>,
        acc: Vec<(String, Vec<(usize, usize)>)>,
        rpc: usize,
    },
}

/// Kafka-log node state: the id counter, this node's name, the two store
/// names, the conversation in flight, and the client requests queued behind
/// it.
pub struct KafkaLog {
    pub id: usize,
    pub node: String,
    pub lin_store: String,
    pub seq_store: String,
    pub pending: Pending,
    pub backlog: Vec<Message>,
}

// ---------------------------------------------------------------------------
// The step transition relation: one clause per conversation state and event
// ---------------------------------------------------------------------------

/// A payload that opens a client conversation.
pub open spec fn is_client_request(p: Payload) -> bool {
    ||| p is Send
    ||| p is Poll
    ||| p is CommitOffsets
    ||| p is ListCommittedOffsets
}

/// A payload a store or a peer answers with; stray ones are dropped.
pub open spec fn is_store_reply(p: Payload) -> bool {
    ||| p is Error
    ||| p is ReadOk
    ||| p is WriteOk
    ||| p is CasOk
    ||| p is SendOk
    ||| p is PollOk
    ||| p is CommitOffsetsOk
    ||| p is ListCommittedOffsetsOk
}

/// A `read` request of cell `k`, sent from `node` to `store` under `id`.
pub open spec fn is_kv_read_req(
    m: Message,
    node: Seq<char>,
    store: Seq<char>,
    id: usize,
    k: Seq<char>,
) -> bool {
    &&& m.src@ == node
    &&& m.dst@ == store
    &&& m.body.id == Some(id)
    &&& m.body.in_reply_to is None
    &&& m.body.payload matches Payload::KvRead { key } && key@ == k
}

/// A `write` request of cell `k` to value `v`.
pub open spec fn is_kv_write_req(
    m: Message,
    node: Seq<char>,
    store: Seq<char>,
    id: usize,
    k: Seq<char>,
    v: usize,
) -> bool {
    &&& m.src@ == node
    &&& m.dst@ == store
    &&& m.body.id == Some(id)
    &&& m.body.in_reply_to is None
    &&& m.body.payload matches Payload::Write { key, value } && key@ == k && value == v
}

/// A creating `cas` request of cell `k` from `from` to `to`.
pub open spec fn is_kv_cas_req(
    m: Message,
    node: Seq<char>,
    store: Seq<char>,
    id: usize,
    k: Seq<char>,
    from: usize,
    to: usize,
) -> bool {
    &&& m.src@ == node
    &&& m.dst@ == store
    &&& m.body.id == Some(id)
    &&& m.body.in_reply_to is None
    &&& m.body.payload matches Payload::Cas { key, from: f, to: t, put } && key@ == k && f == from
        && t == to && put
}

/// A reply that answers `client` and carries the fresh id `id`.
pub open spec fn answers(m: Message, client: Message, id: usize) -> bool {
    &&& crate::protocol::replies_to(m, client)
    &&& m.body.id == Some(id)
}

/// The request id the conversation in flight is waiting on, if any.
pub open spec fn pending_rpc(p: Pending) -> Option<usize> {
    match p {
        Pending::Idle => None,
        Pending::SendRead { rpc, .. } => Some(rpc),
        Pending::SendCas { rpc, .. } => Some(rpc),
        Pending::SendWriteEntry { rpc, .. } => Some(rpc),
        Pending::SendWriteLatest { rpc, .. } => Some(rpc),
        Pending::CommitWrite { rpc, .. } => Some(rpc),
        Pending::ListRead { rpc, .. } => Some(rpc),
        Pending::PollRead { rpc, .. } => Some(rpc),
    }
}

/// True when the message answers the store call in flight.
pub open spec fn matches_pending(p: Pending, input: Message) -> bool {
    pending_rpc(p) is Some && input.body.in_reply_to == pending_rpc(p)
}

/// When a step succeeds: a reply matching the conversation always advances
/// it, except that a log write demands `write_ok` (any other answer is a
/// failed store write, a fatal error); everything else succeeds exactly for
/// client requests (served or queued) and stray store replies (dropped).
pub open spec fn step_ok_cond(pre: KafkaLog, input: Message) -> bool {
    if matches_pending(pre.pending, input) {
        match pre.pending {
            Pending::SendWriteEntry { .. } => input.body.payload is WriteOk,
            Pending::SendWriteLatest { .. } => input.body.payload is WriteOk,
            _ => true,
        }
    } else {
        is_client_request(input.body.payload) || is_store_reply(input.body.payload)
    }
}

/// The error a failing step reports: a failed log write is fatal, anything
/// else is a foreign payload to drop.
pub open spec fn step_err_of(pre: KafkaLog, input: Message) -> NodeError {
    if matches_pending(pre.pending, input) {
        NodeError::StoreWriteFailed
    } else {
        NodeError::UnexpectedPayload
    }
}

/// Every queued message is a client request.
pub open spec fn backlog_ok(bl: Seq<Message>) -> bool {
    forall|i: int| 0 <= i < bl.len() ==> is_client_request((#[trigger] bl[i]).body.payload)
}

impl KafkaLog {
    /// Internal invariant: only client requests are queued, and an idle
    /// node with id headroom has nothing queued (the queue drains whenever
    /// a conversation ends).
    pub open spec fn wf(&self) -> bool {
        &&& backlog_ok(self.backlog@)
        &&& (self.pending is Idle && self.id <= usize::MAX - 3 ==> self.backlog@.len() == 0)
    }
}

/// Drains the queue once the node is idle: each queued request is started
/// in turn (instantly answered requests are answered and the next one
/// taken), until a conversation is in flight, the queue is empty, or the
/// id counter runs out of headroom.
pub open spec fn resume_rel(
    node: Seq<char>,
    lin: Seq<char>,
    sq: Seq<char>,
    id: usize,
    bl: Seq<Message>,
    post: KafkaLog,
    out: Seq<Message>,
) -> bool
    decreases bl.len(), 0int,
{
    if bl.len() == 0 {
        &&& post.pending is Idle
        &&& post.id == id
        &&& post.backlog@.len() == 0
        &&& out.len() == 0
    } else if id > usize::MAX - 3 {
        &&& post.pending is Idle
        &&& post.id == id
        &&& post.backlog@ == bl
        &&& out.len() == 0
    } else {
        start_ctx_rel(node, lin, sq, id, bl.skip(1), bl[0], post, out)
    }
}

/// A client request starts its conversation from an idle node whose queue
/// holds `bl`: the first store call goes out, or a request with nothing to
/// do is answered at once and the queue drains on.
pub open spec fn start_ctx_rel(
    node: Seq<char>,
    lin: Seq<char>,
    sq: Seq<char>,
    id: usize,
    bl: Seq<Message>,
    input: Message,
    post: KafkaLog,
    out: Seq<Message>,
) -> bool
    decreases bl.len(), 2int,
{
    match input.body.payload {
        Payload::Send { key, msg } => {
            &&& post.backlog@ == bl
            &&& post.id == id + 1
            &&& out.len() == 1
            &&& is_kv_read_req(out[0], node, lin, id, latest_key(key@))
            &&& post.pending matches Pending::SendRead { client, key: k2, msg: m2, rpc } && client
                == input && k2@ == key@ && m2 == msg && rpc == id
        },
        Payload::CommitOffsets { offsets } => commit_adv_ctx_rel(
            node,
            lin,
            sq,
            id,
            bl,
            input,
            offsets.deep_view(),
            post,
            out,
        ),
        Payload::ListCommittedOffsets { keys } => list_adv_ctx_rel(
            node,
            lin,
            sq,
            id,
            bl,
            input,
            keys.deep_view(),
            Seq::empty(),
            post,
            out,
        ),
        Payload::Poll { offsets } => poll_adv_ctx_rel(
            node,
            lin,
            sq,
            id,
            bl,
            input,
            offsets.deep_view(),
            Seq::empty(),
            post,
            out,
        ),
        _ => false,
    }
}

/// One commit advancement: the next commit cell is written; with nothing
/// left, the client hears `commit_offsets_ok` and the queue drains.
pub open spec fn commit_adv_ctx_rel(
    node: Seq<char>,
    lin: Seq<char>,
    sq: Seq<char>,
    id: usize,
    bl: Seq<Message>,
    client: Message,
    rem: Seq<(Seq<char>, usize)>,
    post: KafkaLog,
    out: Seq<Message>,
) -> bool
    decreases bl.len(), 1int,
{
    if rem.len() == 0 {
        &&& out.len() >= 1
        &&& answers(out[0], client, id)
        &&& out[0].body.payload is CommitOffsetsOk
        &&& resume_rel(node, lin, sq, (id + 1) as usize, bl, post, out.skip(1))
    } else {
        &&& post.backlog@ == bl
        &&& post.id == id + 1
        &&& out.len() == 1
        &&& is_kv_write_req(out[0], node, sq, id, commit_key(rem[0].0), rem[0].1)
        &&& post.pending matches Pending::CommitWrite { client: c2, remaining, rpc } && c2 == client
            && remaining.deep_view() == rem.skip(1) && rpc == id
    }
}

/// One committed-offset lookup advancement: the next commit cell is read;
/// with nothing left, the collected pairs are handed back and the queue
/// drains.
pub open spec fn list_adv_ctx_rel(
    node: Seq<char>,
    lin: Seq<char>,
    sq: Seq<char>,
    id: usize,
    bl: Seq<Message>,
    client: Message,
    rem: Seq<Seq<char>>,
    acc: Seq<(Seq<char>, usize)>,
    post: KafkaLog,
    out: Seq<Message>,
) -> bool
    decreases bl.len(), 1int,
{
    if rem.len() == 0 {
        &&& out.len() >= 1
        &&& answers(out[0], client, id)
        &&& out[0].body.payload matches Payload::ListCommittedOffsetsOk { offsets }
            && offsets.deep_view() == acc
        &&& resume_rel(node, lin, sq, (id + 1) as usize, bl, post, out.skip(1))
    } else {
        &&& post.backlog@ == bl
        &&& post.id == id + 1
        &&& out.len() == 1
        &&& is_kv_read_req(out[0], node, sq, id, commit_key(rem[0]))
        &&& post.pending matches Pending::ListRead { client: c2, current, remaining, acc: a2, rpc }
            && c2 == client && current@ == rem[0] && remaining.deep_view() == rem.skip(1)
            && a2.deep_view() == acc && rpc == id
    }
}

/// One poll advancement: the first entry of the next key is read; with
/// nothing left, the collected runs are handed back and the queue drains.
pub open spec fn poll_adv_ctx_rel(
    node: Seq<char>,
    lin: Seq<char>,
    sq: Seq<char>,
    id: usize,
    bl: Seq<Message>,
    client: Message,
    rem: Seq<(Seq<char>, usize)>,
    acc: Seq<(Seq<char>, Seq<(usize, usize)>)>,
    post: KafkaLog,
    out: Seq<Message>,
) -> bool
    decreases bl.len(), 1int,
{
    if rem.len() == 0 {
        &&& out.len() >= 1
        &&& answers(out[0], client, id)
        &&& out[0].body.payload matches Payload::PollOk { msgs } && msgs.deep_view() == acc
        &&& resume_rel(node, lin, sq, (id + 1) as usize, bl, post, out.skip(1))
    } else {
        &&& post.backlog@ == bl
        &&& post.id == id + 1
        &&& out.len() == 1
        &&& is_kv_read_req(out[0], node, sq, id, entry_key(rem[0].0, rem[0].1 as nat))
        &&& post.pending matches Pending::PollRead {
            client: c2,
            remaining,
            key,
            from,
            left,
            entries,
            acc: a2,
            rpc,
        } && c2 == client && remaining.deep_view() == rem.skip(1) && key@ == rem[0].0 && from
            == rem[0].1 && left == 5 && entries@.len() == 0 && a2.deep_view() == acc && rpc == id
    }
}

/// The step-level view of the advancement relations: the context is the
/// node's own fields before the step.
pub open spec fn commit_adv_rel(
    pre: KafkaLog,
    client: Message,
    rem: Seq<(Seq<char>, usize)>,
    post: KafkaLog,
    out: Seq<Message>,
) -> bool {
    commit_adv_ctx_rel(
        pre.node@,
        pre.lin_store@,
        pre.seq_store@,
        pre.id,
        pre.backlog@,
        client,
        rem,
        post,
        out,
    )
}

pub open spec fn list_adv_rel(
    pre: KafkaLog,
    client: Message,
    rem: Seq<Seq<char>>,
    acc: Seq<(Seq<char>, usize)>,
    post: KafkaLog,
    out: Seq<Message>,
) -> bool {
    list_adv_ctx_rel(
        pre.node@,
        pre.lin_store@,
        pre.seq_store@,
        pre.id,
        pre.backlog@,
        client,
        rem,
        acc,
        post,
        out,
    )
}

pub open spec fn poll_adv_rel(
    pre: KafkaLog,
    client: Message,
    rem: Seq<(Seq<char>, usize)>,
    acc: Seq<(Seq<char>, Seq<(usize, usize)>)>,
    post: KafkaLog,
    out: Seq<Message>,
) -> bool {
    poll_adv_ctx_rel(
        pre.node@,
        pre.lin_store@,
        pre.seq_store@,
        pre.id,
        pre.backlog@,
        client,
        rem,
        acc,
        post,
        out,
    )
}

/// The conversation is abandoned (the offset counter cell is out of
/// range): the node goes idle and the queue drains.
pub open spec fn abandon_rel(pre: KafkaLog, post: KafkaLog, out: Seq<Message>) -> bool {
    resume_rel(pre.node@, pre.lin_store@, pre.seq_store@, pre.id, pre.backlog@, post, out)
}

/// The offset walk issues a creating `cas` of the counter cell from
/// `curr - 1` to `curr` and waits for its outcome.
pub open spec fn cas_issue_rel(
    pre: KafkaLog,
    client: Message,
    key: Seq<char>,
    msg: usize,
    curr: usize,
    post: KafkaLog,
    out: Seq<Message>,
) -> bool {
    &&& post.backlog == pre.backlog
    &&& post.id == pre.id + 1
    &&& out.len() == 1
    &&& is_kv_cas_req(
        out[0],
        pre.node@,
        pre.lin_store@,
        pre.id,
        latest_key(key),
        (curr - 1) as usize,
        curr,
    )
    &&& post.pending matches Pending::SendCas { client: c2, key: k2, msg: m2, curr: cu, rpc } && c2
        == client && k2@ == key && m2 == msg && cu == curr && rpc == pre.id
}

/// The counter read answered: a hit starts the walk at the read value, a
/// miss starts it at one; an out-of-range counter drops the request.
pub open spec fn send_read_rel(
    pre: KafkaLog,
    input: Message,
    client: Message,
    key: Seq<char>,
    msg: usize,
    post: KafkaLog,
    out: Seq<Message>,
) -> bool {
    match input.body.payload {
        Payload::ReadOk { value } => if 0 < value < usize::MAX {
            cas_issue_rel(pre, client, key, msg, value, post, out)
        } else {
            abandon_rel(pre, post, out)
        },
        _ => cas_issue_rel(pre, client, key, msg, 1, post, out),
    }
}

/// The `cas` answered: success writes the entry cell; a precondition
/// failure retries with the next candidate; counter exhaustion drops.
pub open spec fn send_cas_rel(
    pre: KafkaLog,
    input: Message,
    client: Message,
    key: Seq<char>,
    msg: usize,
    curr: usize,
    post: KafkaLog,
    out: Seq<Message>,
) -> bool {
    match input.body.payload {
        Payload::CasOk => if curr < usize::MAX {
            &&& post.backlog == pre.backlog
            &&& post.id == pre.id + 1
            &&& out.len() == 1
            &&& is_kv_write_req(
                out[0],
                pre.node@,
                pre.seq_store@,
                pre.id,
                entry_key(key, curr as nat),
                msg,
            )
            &&& post.pending matches Pending::SendWriteEntry {
                client: c2,
                key: k2,
                msg: m2,
                offset,
                rpc,
            } && c2 == client && k2@ == key && m2 == msg && offset == curr && rpc == pre.id
        } else {
            abandon_rel(pre, post, out)
        },
        _ => if curr < usize::MAX - 1 {
            cas_issue_rel(pre, client, key, msg, (curr + 1) as usize, post, out)
        } else {
            abandon_rel(pre, post, out)
        },
    }
}

/// The entry write acknowledged by `write_ok`: the counter mirror is
/// written with the allocated offset.
pub open spec fn send_write_entry_rel(
    pre: KafkaLog,
    client: Message,
    key: Seq<char>,
    offset: usize,
    post: KafkaLog,
    out: Seq<Message>,
) -> bool {
    &&& post.backlog == pre.backlog
    &&& post.id == pre.id + 1
    &&& out.len() == 1
    &&& is_kv_write_req(out[0], pre.node@, pre.seq_store@, pre.id, latest_key(key), offset)
    &&& post.pending matches Pending::SendWriteLatest { client: c2, offset: o2, rpc } && c2
        == client && o2 == offset && rpc == pre.id
}

/// The mirror write acknowledged by `write_ok`: the client hears `send_ok`
/// with the allocated offset, and the queue drains.
pub open spec fn send_write_latest_rel(
    pre: KafkaLog,
    client: Message,
    offset: usize,
    post: KafkaLog,
    out: Seq<Message>,
) -> bool {
    &&& out.len() >= 1
    &&& answers(out[0], client, pre.id)
    &&& out[0].body.payload matches Payload::SendOk { offset: o2 } && o2 == offset
    &&& resume_rel(
        pre.node@,
        pre.lin_store@,
        pre.seq_store@,
        (pre.id + 1) as usize,
        pre.backlog@,
        post,
        out.skip(1),
    )
}

/// A client request hitting an idle node starts its conversation; the
/// queue behind an idle node is empty.
pub open spec fn start_rel(pre: KafkaLog, input: Message, post: KafkaLog, out: Seq<Message>) -> bool {
    start_ctx_rel(
        pre.node@,
        pre.lin_store@,
        pre.seq_store@,
        pre.id,
        pre.backlog@,
        input,
        post,
        out,
    )
}

/// What happens to a message that does not advance the conversation in
/// flight: a client request is queued, a stray reply is dropped.
pub open spec fn other_input_rel(
    pre: KafkaLog,
    input: Message,
    post: KafkaLog,
    out: Seq<Message>,
) -> bool {
    if is_client_request(input.body.payload) {
        if pre.pending is Idle {
            start_rel(pre, input, post, out)
        } else {
            &&& out.len() == 0
            &&& post.backlog@ == pre.backlog@.push(input)
            &&& post.pending == pre.pending
            &&& post.id == pre.id
        }
    } else {
        &&& is_store_reply(input.body.payload)
        &&& post == pre
        &&& out.len() == 0
    }
}

/// The full transition relation of one step, by the conversation in flight
/// and the message received.
pub open spec fn kafka_step_rel(
    pre: KafkaLog,
    input: Message,
    post: KafkaLog,
    out: Seq<Message>,
) -> bool {
    &&& post.node == pre.node
    &&& post.lin_store == pre.lin_store
    &&& post.seq_store == pre.seq_store
    &&& match pre.pending {
        Pending::Idle => other_input_rel(pre, input, post, out),
        Pending::SendRead { client, key, msg, rpc } => if input.body.in_reply_to == Some(rpc) {
            send_read_rel(pre, input, client, key@, msg, post, out)
        } else {
            other_input_rel(pre, input, post, out)
        },
        Pending::SendCas { client, key, msg, curr, rpc } => if input.body.in_reply_to == Some(
            rpc,
        ) {
            send_cas_rel(pre, input, client, key@, msg, curr, post, out)
        } else {
            other_input_rel(pre, input, post, out)
        },
        Pending::SendWriteEntry { client, key, msg, offset, rpc } => if input.body.in_reply_to
            == Some(rpc) {
            send_write_entry_rel(pre, client, key@, offset, post, out)
        } else {
            other_input_rel(pre, input, post, out)
        },
        Pending::SendWriteLatest { client, offset, rpc } => if input.body.in_reply_to == Some(
            rpc,
        ) {
            send_write_latest_rel(pre, client, offset, post, out)
        } else {
            other_input_rel(pre, input, post, out)
        },
        Pending::CommitWrite { client, remaining, rpc } => if input.body.in_reply_to == Some(rpc) {
            commit_adv_rel(pre, client, remaining.deep_view(), post, out)
        } else {
            other_input_rel(pre, input, post, out)
        },
        Pending::ListRead { client, current, remaining, acc, rpc } => if input.body.in_reply_to
            == Some(rpc) {
            list_adv_rel(
                pre,
                client,
                remaining.deep_view(),
                acc.deep_view().push(
                    (
                        current@,
                        match input.body.payload {
                            Payload::ReadOk { value } => value,
                            _ => 0,
                        },
                    ),
                ),
                post,
                out,
            )
        } else {
            other_input_rel(pre, input, post, out)
        },
        Pending::PollRead { client, remaining, key, from, left, entries, acc, rpc } => if
        input.body.in_reply_to == Some(rpc) {
            match input.body.payload {
                Payload::ReadOk { value } => if left > 1 && from < usize::MAX {
                    &&& post.backlog == pre.backlog
                    &&& post.id == pre.id + 1
                    &&& out.len() == 1
                    &&& is_kv_read_req(
                        out[0],
                        pre.node@,
                        pre.seq_store@,
                        pre.id,
                        entry_key(key@, (from + 1) as nat),
                    )
                    &&& post.pending matches Pending::PollRead {
                        client: c2,
                        remaining: r2,
                        key: k2,
                        from: f2,
                        left: l2,
                        entries: e2,
                        acc: a2,
                        rpc: rpc2,
                    } && c2 == client && r2.deep_view() == remaining.deep_view() && k2@ == key@
                        && f2 == from + 1 && l2 == left - 1 && e2@ == entries@.push((from, value))
                        && a2.deep_view() == acc.deep_view() && rpc2 == pre.id
                } else {
                    poll_adv_rel(
                        pre,
                        client,
                        remaining.deep_view(),
                        acc.deep_view().push((key@, entries@.push((from, value)))),
                        post,
                        out,
                    )
                },
                _ => poll_adv_rel(
                    pre,
                    client,
                    remaining.deep_view(),
                    acc.deep_view().push((key@, entries@)),
                    post,
                    out,
                ),
            }
        } else {
            other_input_rel(pre, input, post, out)
        },
    }
}

impl KafkaLog {
    /// Builds the node: idle, empty backlog, ids start at one, stores named
    /// as the harness addresses them.
    pub fn from_init(init: Init) -> (r: Self)
        ensures
            r.wf(),
            r.id == 1,
            r.node@ == init.node_id@,
            r.pending is Idle,
            r.backlog@.len() == 0,
            r.lin_store@ == seq!['l', 'i', 'n', '-', 'k', 'v'],
            r.seq_store@ == seq!['s', 'e', 'q', '-', 'k', 'v'],
    {
        let lin_store = lit_string("lin-kv");
        let seq_store = lit_string("seq-kv");
        proof {
            reveal_strlit("lin-kv");
            reveal_strlit("seq-kv");
            assert(lin_store@ =~= seq!['l', 'i', 'n', '-', 'k', 'v']);
            assert(seq_store@ =~= seq!['s', 'e', 'q', '-', 'k', 'v']);
        }
        KafkaLog {
            id: 1,
            node: init.node_id,
            lin_store,
            seq_store,
            pending: Pending::Idle,
            backlog: Vec::new(),
        }
    }

    /// Builds one request to a store: a fresh id, addressed from this node.
    fn rpc_to(&mut self, store_is_lin: bool, payload: Payload) -> (r: Message)
        requires
            old(self).id < usize::MAX,
        ensures
            final(self).id == old(self).id + 1,
            final(self).node == old(self).node,
            final(self).lin_store == old(self).lin_store,
            final(self).seq_store == old(self).seq_store,
            final(self).pending == old(self).pending,
            final(self).backlog == old(self).backlog,
            r.src@ == old(self).node@,
            r.dst@ == (if store_is_lin {
                old(self).lin_store@
            } else {
                old(self).seq_store@
            }),
            r.body.id == Some(old(self).id),
            r.body.in_reply_to is None,
            r.body.payload == payload,
    {
        let mid = self.id;
        self.id = self.id + 1;
        let dst = if store_is_lin {
            clone_string(&self.lin_store)
        } else {
            clone_string(&self.seq_store)
        };
        Message {
            src: clone_string(&self.node),
            dst,
            body: Body { id: Some(mid), in_reply_to: None, payload },
        }
    }

    /// The text `<key>:latest`.
    fn make_latest_key(key: &String) -> (r: String)
        ensures
            r@ == latest_key(key@),
    {
        let mut v: Vec<char> = Vec::new();
        push_chars(&mut v, key.as_str());
        push_chars(&mut v, ":latest");
        proof {
            reveal_strlit(":latest");
            assert(v@ =~= latest_key(key@));
        }
        chars_to_string(v)
    }

    /// The text `<key>:<offset>`.
    fn make_entry_key(key: &String, offset: usize) -> (r: String)
        ensures
            r@ == entry_key(key@, offset as nat),
    {
        let mut v: Vec<char> = Vec::new();
        push_chars(&mut v, key.as_str());
        v.push(':');
        crate::json::push_usize(&mut v, offset);
        proof {
            assert(v@ =~= entry_key(key@, offset as nat));
        }
        chars_to_string(v)
    }

    /// The text `commit:<key>`.
    fn make_commit_key(key: &String) -> (r: String)
        ensures
            r@ == commit_key(key@),
    {
        let mut v: Vec<char> = Vec::new();
        push_chars(&mut v, "commit:");
        push_chars(&mut v, key.as_str());
        proof {
            reveal_strlit("commit:");
            assert(v@ =~= commit_key(key@));
        }
        chars_to_string(v)
    }
}

/// Copies a literal into an owned string.
fn lit_string(s: &str) -> (r: String)
    ensures
        r@ == s@,
{
    let mut v: Vec<char> = Vec::new();
    push_chars(&mut v, s);
    chars_to_string(v)
}

/// Hands back the conversation in place and leaves the node idle.
fn take_pending(p: &mut Pending) -> (r: Pending)
    ensures
        r == *old(p),
        *final(p) is Idle,
{
    let mut taken = Pending::Idle;
    core::mem::swap(&mut taken, p);
    taken
}

impl KafkaLog {
    /// Serves the queue of an idle node: each queued request is started in
    /// turn (an instantly answerable one is answered and the next taken),
    /// until a conversation is in flight, the queue is empty, or the id
    /// counter runs out of headroom.
    fn drain(&mut self) -> (out: Vec<Message>)
        requires
            old(self).pending is Idle,
            backlog_ok(old(self).backlog@),
        ensures
            final(self).node == old(self).node,
            final(self).lin_store == old(self).lin_store,
            final(self).seq_store == old(self).seq_store,
            backlog_ok(final(self).backlog@),
            final(self).pending is Idle ==> final(self).backlog@.len() == 0 || final(self).id
                > usize::MAX - 3,
            resume_rel(
                old(self).node@,
                old(self).lin_store@,
                old(self).seq_store@,
                old(self).id,
                old(self).backlog@,
                *final(self),
                out@,
            ),
        decreases self.backlog.len(), 0int,
    {
        if self.backlog.len() == 0 {
            return Vec::new();
        }
        if self.id > usize::MAX - 3 {
            return Vec::new();
        }
        let head = self.backlog.remove(0);
        proof {
            assert(is_client_request(old(self).backlog@[0].body.payload));
            assert(self.backlog@ =~= old(self).backlog@.skip(1));
            assert forall|i: int|
                0 <= i < self.backlog@.len() implies is_client_request(
                (#[trigger] self.backlog@[i]).body.payload,
            ) by {
                assert(self.backlog@[i] == old(self).backlog@[i + 1]);
            }
        }
        self.start_request(head)
    }

    /// Starts serving one client request: emits the first store call and
    /// remembers the conversation. The caller has checked the node is idle.
    fn start_request(&mut self, input: Message) -> (out: Vec<Message>)
        requires
            old(self).id <= usize::MAX - 3,
            old(self).pending is Idle,
            is_client_request(input.body.payload),
            backlog_ok(old(self).backlog@),
        ensures
            final(self).node == old(self).node,
            final(self).lin_store == old(self).lin_store,
            final(self).seq_store == old(self).seq_store,
            backlog_ok(final(self).backlog@),
            final(self).pending is Idle ==> final(self).backlog@.len() == 0 || final(self).id
                > usize::MAX - 3,
            start_rel(*old(self), input, *final(self), out@),
        decreases self.backlog.len(), 2int,
    {
        let payload_kind = match &input.body.payload {
            Payload::Send { .. } => 0usize,
            Payload::Poll { .. } => 1,
            Payload::CommitOffsets { .. } => 2,
            _ => 3,
        };
        match &input.body.payload {
            Payload::Send { key, msg } => {
                let key2 = clone_string(key);
                let msg2 = *msg;
                let rk = Self::make_latest_key(&key2);
                let rpc = self.id;
                let req = self.rpc_to(true, Payload::KvRead { key: rk });
                self.pending = Pending::SendRead { client: input, key: key2, msg: msg2, rpc };
                let mut out: Vec<Message> = Vec::new();
                out.push(req);
                out
            },
            Payload::Poll { offsets } => {
                let mut rem: Vec<(String, usize)> = Vec::new();
                let mut i: usize = 0;
                while i < offsets.len()
                    invariant
                        0 <= i <= offsets@.len(),
                        self == old(self),
                        rem.deep_view() == offsets.deep_view().take(i as int),
                    decreases offsets@.len() - i,
                {
                    let ghost prev = rem.deep_view();
                    rem.push((clone_string(&offsets[i].0), offsets[i].1));
                    proof {
                        assert(rem.deep_view() =~~= prev.push(
                            (offsets@[i as int].0@, offsets@[i as int].1),
                        ));
                        assert(offsets.deep_view().take(i + 1) =~~= prev.push(
                            (offsets@[i as int].0@, offsets@[i as int].1),
                        ));
                    }
                    i = i + 1;
                }
                let empty_acc: Vec<(String, Vec<(usize, usize)>)> = Vec::new();
                proof {
                    assert(rem.deep_view() =~~= offsets.deep_view());
                    assert(empty_acc.deep_view() =~~= Seq::<
                        (Seq<char>, Seq<(usize, usize)>),
                    >::empty());
                }
                self.advance_poll(input, rem, empty_acc)
            },
            Payload::CommitOffsets { offsets } => {
                let mut rem: Vec<(String, usize)> = Vec::new();
                let mut i: usize = 0;
                while i < offsets.len()
                    invariant
                        0 <= i <= offsets@.len(),
                        self == old(self),
                        rem.deep_view() == offsets.deep_view().take(i as int),
                    decreases offsets@.len() - i,
                {
                    let ghost prev = rem.deep_view();
                    rem.push((clone_string(&offsets[i].0), offsets[i].1));
                    proof {
                        assert(rem.deep_view() =~~= prev.push(
                            (offsets@[i as int].0@, offsets@[i as int].1),
                        ));
                        assert(offsets.deep_view().take(i + 1) =~~= prev.push(
                            (offsets@[i as int].0@, offsets@[i as int].1),
                        ));
                    }
                    i = i + 1;
                }
                proof {
                    assert(rem.deep_view() =~~= offsets.deep_view());
                }
                self.advance_commit(input, rem)
            },
            Payload::ListCommittedOffsets { keys } => {
                let mut rem: Vec<String> = Vec::new();
                let mut i: usize = 0;
                while i < keys.len()
                    invariant
                        0 <= i <= keys@.len(),
                        self == old(self),
                        rem.deep_view() == keys.deep_view().take(i as int),
                    decreases keys@.len() - i,
                {
                    let ghost prev = rem.deep_view();
                    rem.push(clone_string(&keys[i]));
                    proof {
                        assert(rem.deep_view() =~~= prev.push(keys@[i as int]@));
                        assert(keys.deep_view().take(i + 1) =~~= prev.push(keys@[i as int]@));
                    }
                    i = i + 1;
                }
                proof {
                    assert(rem.deep_view() =~~= keys.deep_view());
                }
                let empty_acc: Vec<(String, usize)> = Vec::new();
                proof {
                    assert(empty_acc.deep_view() =~~= Seq::<(Seq<char>, usize)>::empty());
                }
                self.advance_list(input, rem, empty_acc)
            },
            _ => Vec::new(),
        }
    }

    /// Either issues the next commit write or answers the client.
    fn advance_commit(&mut self, client: Message, remaining: Vec<(String, usize)>) -> (out: Vec<
        Message,
    >)
        requires
            old(self).id <= usize::MAX - 3,
            backlog_ok(old(self).backlog@),
        ensures
            final(self).node == old(self).node,
            final(self).lin_store == old(self).lin_store,
            final(self).seq_store == old(self).seq_store,
            backlog_ok(final(self).backlog@),
            final(self).pending is Idle ==> final(self).backlog@.len() == 0 || final(self).id
                > usize::MAX - 3,
            commit_adv_rel(*old(self), client, remaining.deep_view(), *final(self), out@),
        decreases self.backlog.len(), 1int,
    {
        let ghost rem_dv = remaining.deep_view();
        let mut remaining = remaining;
        if remaining.len() == 0 {
            let mut reply = client.into_reply(&mut self.id);
            reply.body.payload = Payload::CommitOffsetsOk;
            self.pending = Pending::Idle;
            let mut out: Vec<Message> = Vec::new();
            out.push(reply);
            let mut more = self.drain();
            let ghost more_v = more@;
            out.append(&mut more);
            proof {
                assert(out@.skip(1) =~= more_v);
            }
            out
        } else {
            let (key, off) = remaining.remove(0);
            let wk = Self::make_commit_key(&key);
            let rpc = self.id;
            let req = self.rpc_to(false, Payload::Write { key: wk, value: off });
            self.pending = Pending::CommitWrite { client, remaining, rpc };
            let mut out: Vec<Message> = Vec::new();
            out.push(req);
            proof {
                assert(rem_dv[0] == (key@, off));
                assert(self.pending->CommitWrite_remaining.deep_view() =~~= rem_dv.skip(1));
            }
            out
        }
    }

    /// Either issues the next committed-offset read or answers the client.
    fn advance_list(
        &mut self,
        client: Message,
        remaining: Vec<String>,
        acc: Vec<(String, usize)>,
    ) -> (out: Vec<Message>)
        requires
            old(self).id <= usize::MAX - 3,
            backlog_ok(old(self).backlog@),
        ensures
            final(self).node == old(self).node,
            final(self).lin_store == old(self).lin_store,
            final(self).seq_store == old(self).seq_store,
            backlog_ok(final(self).backlog@),
            final(self).pending is Idle ==> final(self).backlog@.len() == 0 || final(self).id
                > usize::MAX - 3,
            list_adv_rel(
                *old(self),
                client,
                remaining.deep_view(),
                acc.deep_view(),
                *final(self),
                out@,
            ),
        decreases self.backlog.len(), 1int,
    {
        let ghost rem_dv = remaining.deep_view();
        let ghost acc_dv = acc.deep_view();
        let mut remaining = remaining;
        if remaining.len() == 0 {
            let mut reply = client.into_reply(&mut self.id);
            reply.body.payload = Payload::ListCommittedOffsetsOk { offsets: acc };
            self.pending = Pending::Idle;
            let mut out: Vec<Message> = Vec::new();
            out.push(reply);
            let mut more = self.drain();
            let ghost more_v = more@;
            out.append(&mut more);
            proof {
                assert(out@.skip(1) =~= more_v);
            }
            out
        } else {
            let key = remaining.remove(0);
            let rk = Self::make_commit_key(&key);
            let rpc = self.id;
            let req = self.rpc_to(false, Payload::KvRead { key: rk });
            self.pending = Pending::ListRead { client, current: key, remaining, acc, rpc };
            let mut out: Vec<Message> = Vec::new();
            out.push(req);
            proof {
                assert(rem_dv[0] == self.pending->ListRead_current@);
                assert(self.pending->ListRead_remaining.deep_view() =~~= rem_dv.skip(1));
            }
            out
        }
    }

    /// Either starts reading the next polled key, or answers the client.
    fn advance_poll(
        &mut self,
        client: Message,
        remaining: Vec<(String, usize)>,
        acc: Vec<(String, Vec<(usize, usize)>)>,
    ) -> (out: Vec<Message>)
        requires
            old(self).id <= usize::MAX - 3,
            backlog_ok(old(self).backlog@),
        ensures
            final(self).node == old(self).node,
            final(self).lin_store == old(self).lin_store,
            final(self).seq_store == old(self).seq_store,
            backlog_ok(final(self).backlog@),
            final(self).pending is Idle ==> final(self).backlog@.len() == 0 || final(self).id
                > usize::MAX - 3,
            poll_adv_rel(
                *old(self),
                client,
                remaining.deep_view(),
                acc.deep_view(),
                *final(self),
                out@,
            ),
        decreases self.backlog.len(), 1int,
    {
        let ghost rem_dv = remaining.deep_view();
        let ghost acc_dv = acc.deep_view();
        let mut remaining = remaining;
        if remaining.len() == 0 {
            let mut reply = client.into_reply(&mut self.id);
            reply.body.payload = Payload::PollOk { msgs: acc };
            self.pending = Pending::Idle;
            let mut out: Vec<Message> = Vec::new();
            out.push(reply);
            let mut more = self.drain();
            let ghost more_v = more@;
            out.append(&mut more);
            proof {
                assert(out@.skip(1) =~= more_v);
            }
            out
        } else {
            let (key, from) = remaining.remove(0);
            let rk = Self::make_entry_key(&key, from);
            let rpc = self.id;
            let req = self.rpc_to(false, Payload::KvRead { key: rk });
            self.pending = Pending::PollRead {
                client,
                remaining,
                key,
                from,
                left: 5,
                entries: Vec::new(),
                acc,
                rpc,
            };
            let mut out: Vec<Message> = Vec::new();
            out.push(req);
            proof {
                assert(rem_dv[0] == (
                    self.pending->PollRead_key@,
                    self.pending->PollRead_from,
                ));
                assert(self.pending->PollRead_remaining.deep_view() =~~= rem_dv.skip(1));
                assert(self.pending->PollRead_entries@ =~= Seq::<(usize, usize)>::empty());
            }
            out
        }
    }

    /// Serves one message. A client request is served at once when the node
    /// is idle and queued otherwise; a store reply advances the conversation
    /// in flight; the final advancement answers the client and picks up the
    /// next queued request.
    pub fn step(&mut self, input: Message) -> (r: Result<Vec<Message>, NodeError>)
        requires
            old(self).wf(),
            old(self).id + 2 < usize::MAX,
        ensures
            final(self).wf(),
            final(self).node == old(self).node,
            final(self).lin_store == old(self).lin_store,
            final(self).seq_store == old(self).seq_store,
            (r is Ok) == step_ok_cond(*old(self), input),
            r matches Ok(out) ==> kafka_step_rel(*old(self), input, *final(self), out@),
            r is Err ==> *final(self) == *old(self) && r == Err::<Vec<Message>, NodeError>(
                step_err_of(*old(self), input),
            ),
    {
        // a store reply advances the conversation it belongs to
        let pend = take_pending(&mut self.pending);
        match pend {
            Pending::SendRead { client, key, msg, rpc } => {
                if input.body.in_reply_to == Some(rpc) {
                    let curr: usize = match &input.body.payload {
                        Payload::ReadOk { value } => *value,
                        _ => 1,
                    };
                    if curr == 0 || curr == usize::MAX {
                        // the counter cell is out of range; drop the request
                        self.pending = Pending::Idle;
                        let out = self.drain();
                        return Ok(out);
                    }
                    let ck = Self::make_latest_key(&key);
                    let rpc2 = self.id;
                    let req = self.rpc_to(
                        true,
                        Payload::Cas { key: ck, from: curr - 1, to: curr, put: true },
                    );
                    self.pending = Pending::SendCas { client, key, msg, curr, rpc: rpc2 };
                    let mut out: Vec<Message> = Vec::new();
                    out.push(req);
                    return Ok(out);
                } else {
                    self.pending = Pending::SendRead { client, key, msg, rpc };
                    return self.step_request(input);
                }
            },
            Pending::SendCas { client, key, msg, curr, rpc } => {
                if input.body.in_reply_to == Some(rpc) {
                    match &input.body.payload {
                        Payload::CasOk => {
                            if curr == usize::MAX {
                                self.pending = Pending::Idle;
                                let out = self.drain();
                                return Ok(out);
                            }
                            let wk = Self::make_entry_key(&key, curr);
                            let rpc2 = self.id;
                            let req = self.rpc_to(false, Payload::Write { key: wk, value: msg });
                            self.pending = Pending::SendWriteEntry {
                                client,
                                key,
                                msg,
                                offset: curr,
                                rpc: rpc2,
                            };
                            let mut out: Vec<Message> = Vec::new();
                            out.push(req);
                            return Ok(out);
                        },
                        _ => {
                            // precondition failed: try the next offset
                            if curr >= usize::MAX - 1 {
                                self.pending = Pending::Idle;
                                let out = self.drain();
                                return Ok(out);
                            }
                            let ck = Self::make_latest_key(&key);
                            let rpc2 = self.id;
                            let req = self.rpc_to(
                                true,
                                Payload::Cas { key: ck, from: curr, to: curr + 1, put: true },
                            );
                            self.pending = Pending::SendCas {
                                client,
                                key,
                                msg,
                                curr: curr + 1,
                                rpc: rpc2,
                            };
                            let mut out: Vec<Message> = Vec::new();
                            out.push(req);
                            return Ok(out);
                        },
                    }
                } else {
                    self.pending = Pending::SendCas { client, key, msg, curr, rpc };
                    return self.step_request(input);
                }
            },
            Pending::SendWriteEntry { client, key, msg, offset, rpc } => {
                if input.body.in_reply_to == Some(rpc) {
                    match &input.body.payload {
                        Payload::WriteOk => {},
                        _ => {
                            // the store refused the entry write: fatal
                            self.pending = Pending::SendWriteEntry {
                                client,
                                key,
                                msg,
                                offset,
                                rpc,
                            };
                            return Err(NodeError::StoreWriteFailed);
                        },
                    }
                    let wk = Self::make_latest_key(&key);
                    let rpc2 = self.id;
                    let req = self.rpc_to(false, Payload::Write { key: wk, value: offset });
                    self.pending = Pending::SendWriteLatest { client, offset, rpc: rpc2 };
                    let mut out: Vec<Message> = Vec::new();
                    out.push(req);
                    return Ok(out);
                } else {
                    self.pending = Pending::SendWriteEntry { client, key, msg, offset, rpc };
                    return self.step_request(input);
                }
            },
            Pending::SendWriteLatest { client, offset, rpc } => {
                if input.body.in_reply_to == Some(rpc) {
                    match &input.body.payload {
                        Payload::WriteOk => {},
                        _ => {
                            // the store refused the mirror write: fatal
                            self.pending = Pending::SendWriteLatest { client, offset, rpc };
                            return Err(NodeError::StoreWriteFailed);
                        },
                    }
                    let mut reply = client.into_reply(&mut self.id);
                    reply.body.payload = Payload::SendOk { offset };
                    self.pending = Pending::Idle;
                    let mut out: Vec<Message> = Vec::new();
                    out.push(reply);
                    let mut more = self.drain();
                    let ghost more_v = more@;
                    out.append(&mut more);
                    proof {
                        assert(out@.skip(1) =~= more_v);
                    }
                    return Ok(out);
                } else {
                    self.pending = Pending::SendWriteLatest { client, offset, rpc };
                    return self.step_request(input);
                }
            },
            Pending::CommitWrite { client, remaining, rpc } => {
                if input.body.in_reply_to == Some(rpc) {
                    let out = self.advance_commit(client, remaining);
                    return Ok(out);
                } else {
                    self.pending = Pending::CommitWrite { client, remaining, rpc };
                    return self.step_request(input);
                }
            },
            Pending::ListRead { client, current, remaining, acc, rpc } => {
                if input.body.in_reply_to == Some(rpc) {
                    let mut acc = acc;
                    let got: usize = match &input.body.payload {
                        Payload::ReadOk { value } => *value,
                        _ => 0,
                    };
                    let ghost acc_dv = acc.deep_view();
                    let ghost cur_v = current@;
                    acc.push((current, got));
                    proof {
                        assert(acc.deep_view() =~~= acc_dv.push((cur_v, got)));
                    }
                    let out = self.advance_list(client, remaining, acc);
                    return Ok(out);
                } else {
                    self.pending = Pending::ListRead { client, current, remaining, acc, rpc };
                    return self.step_request(input);
                }
            },
            Pending::PollRead { client, remaining, key, from, left, entries, acc, rpc } => {
                if input.body.in_reply_to == Some(rpc) {
                    let mut entries = entries;
                    let mut acc = acc;
                    let ghost entries_v = entries@;
                    let ghost acc_dv = acc.deep_view();
                    let ghost key_v = key@;
                    match &input.body.payload {
                        Payload::ReadOk { value } => {
                            entries.push((from, *value));
                            if left > 1 && from < usize::MAX {
                                let rk = Self::make_entry_key(&key, from + 1);
                                let rpc2 = self.id;
                                let req = self.rpc_to(false, Payload::KvRead { key: rk });
                                self.pending = Pending::PollRead {
                                    client,
                                    remaining,
                                    key,
                                    from: from + 1,
                                    left: left - 1,
                                    entries,
                                    acc,
                                    rpc: rpc2,
                                };
                                let mut out: Vec<Message> = Vec::new();
                                out.push(req);
                                proof {
                                    assert(self.pending->PollRead_entries@ =~= entries_v.push(
                                        (from, input.body.payload->ReadOk_value),
                                    ));
                                }
                                return Ok(out);
                            } else {
                                let ghost got = input.body.payload->ReadOk_value;
                                acc.push((key, entries));
                                proof {
                                    assert(acc.deep_view() =~~= acc_dv.push(
                                        (key_v, entries_v.push((from, got))),
                                    ));
                                }
                                let out = self.advance_poll(client, remaining, acc);
                                return Ok(out);
                            }
                        },
                        _ => {
                            // the first missing entry ends this key's run
                            acc.push((key, entries));
                            proof {
                                assert(acc.deep_view() =~~= acc_dv.push((key_v, entries_v)));
                            }
                            let out = self.advance_poll(client, remaining, acc);
                            return Ok(out);
                        },
                    }
                } else {
                    self.pending = Pending::PollRead {
                        client,
                        remaining,
                        key,
                        from,
                        left,
                        entries,
                        acc,
                        rpc,
                    };
                    return self.step_request(input);
                }
            },
            Pending::Idle => {
                return self.step_request(input);
            },
        }
    }

    /// Serves a client request when no conversation is in flight, queueing
    /// it otherwise.
    fn step_request(&mut self, input: Message) -> (r: Result<Vec<Message>, NodeError>)
        requires
            old(self).id + 2 < usize::MAX,
            backlog_ok(old(self).backlog@),
        ensures
            final(self).node == old(self).node,
            final(self).lin_store == old(self).lin_store,
            final(self).seq_store == old(self).seq_store,
            backlog_ok(final(self).backlog@),
            final(self).pending is Idle && !(old(self).pending is Idle) ==> final(self).backlog@.len()
                == 0 || final(self).id > usize::MAX - 3,
            (r is Ok) == (is_client_request(input.body.payload) || is_store_reply(
                input.body.payload,
            )),
            r matches Ok(out) ==> other_input_rel(*old(self), input, *final(self), out@),
            r is Err ==> *final(self) == *old(self) && r == Err::<Vec<Message>, NodeError>(
                NodeError::UnexpectedPayload,
            ),
    {
        let is_request = match &input.body.payload {
            Payload::Send { .. } => true,
            Payload::Poll { .. } => true,
            Payload::CommitOffsets { .. } => true,
            Payload::ListCommittedOffsets { .. } => true,
            _ => false,
        };
        if !is_request {
            // a stray reply or a foreign payload is dropped
            return match &input.body.payload {
                Payload::Error { .. } => Ok(Vec::new()),
                Payload::ReadOk { .. } => Ok(Vec::new()),
                Payload::WriteOk => Ok(Vec::new()),
                Payload::CasOk => Ok(Vec::new()),
                Payload::SendOk { .. } => Ok(Vec::new()),
                Payload::PollOk { .. } => Ok(Vec::new()),
                Payload::CommitOffsetsOk => Ok(Vec::new()),
                Payload::ListCommittedOffsetsOk { .. } => Ok(Vec::new()),
                _ => Err(NodeError::UnexpectedPayload),
            };
        }
        let idle = match &self.pending {
            Pending::Idle => true,
            _ => false,
        };
        if idle {
            let out = self.start_request(input);
            Ok(out)
        } else {
            let ghost bl = self.backlog@;
            self.backlog.push(input);
            proof {
                assert forall|i: int|
                    0 <= i < self.backlog@.len() implies is_client_request(
                    (#[trigger] self.backlog@[i]).body.payload,
                ) by {
                    if i < bl.len() {
                        assert(self.backlog@[i] == bl[i]);
                    }
                }
            }
            Ok(Vec::new())
        }
    }
}

impl Node for KafkaLog {
    open spec fn inv(&self) -> bool {
        self.wf()
    }

    fn from_init(init: Init) -> (r: Result<Self, NodeError>) {
        Ok(KafkaLog::from_init(init))
    }

    fn step(&mut self, input: Message) -> (r: Result<Vec<Message>, NodeError>) {
        if self.id >= usize::MAX - 3 {
            return Err(NodeError::UnexpectedPayload);
        }
        KafkaLog::step(self, input)
    }
}

} // verus!