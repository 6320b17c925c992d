//! The wire codec, specification side: what the canonical JSON text of a
//! message is, and what the parser makes of a line of text.
//!
//! A message is one JSON object `{"src":...,"dest":...,"body":{...}}`; the
//! body carries `type`, optional `msg_id` and `in_reply_to`, and the fields
//! of the payload variant named by `type`. The parser takes the members of
//! an object in any order and skips members it does not know. The main
//! result is `lemma_dec_enc_message`: decoding the canonical encoding of
//! any message yields the message back.

use vstd::prelude::*;

use crate::json::enc_bool;
use crate::json::enc_string;
use crate::json::enc_usize;
use crate::json::has_at;
use crate::json::is_digit;
use crate::json::lemma_has_at_index;
use crate::json::lemma_has_at_split;
use crate::json::lemma_parse_bool_enc;
use crate::json::lemma_parse_string_enc;
use crate::json::lemma_parse_usize_enc;
use crate::json::parse_bool;
use crate::json::parse_string;
use crate::json::parse_usize;
use crate::json_coll::enc_arr_string;
use crate::json_coll::enc_arr_usize;
use crate::json_coll::enc_obj_arr_pairs;
use crate::json_coll::enc_obj_arr_string;
use crate::json_coll::enc_obj_usize;
use crate::json_coll::lemma_parse_arr_string_enc;
use crate::json_coll::lemma_parse_arr_usize_enc;
use crate::json_coll::lemma_parse_obj_arr_pairs_enc;
use crate::json_coll::lemma_parse_obj_arr_string_enc;
use crate::json_coll::lemma_parse_obj_usize_enc;
use crate::json_coll::parse_arr_string;
use crate::json_coll::parse_arr_usize;
use crate::json_coll::parse_obj_arr_pairs;
use crate::json_coll::parse_obj_arr_string;
use crate::json_coll::parse_obj_usize;
use crate::json_coll::skip_value;
use crate::protocol::BodyV;
use crate::protocol::InitV;
use crate::protocol::MessageV;
use crate::protocol::PayloadV;

verus! {

// ---------------------------------------------------------------------------
// Field names and type tags, as character sequences
// ---------------------------------------------------------------------------

pub open spec fn k_src() -> Seq<char> {
    seq!['s', 'r', 'c']
}

pub open spec fn k_dest() -> Seq<char> {
    seq!['d', 'e', 's', 't']
}

pub open spec fn k_body() -> Seq<char> {
    seq!['b', 'o', 'd', 'y']
}

pub open spec fn k_type() -> Seq<char> {
    seq!['t', 'y', 'p', 'e']
}

pub open spec fn k_msg_id() -> Seq<char> {
    seq!['m', 's', 'g', '_', 'i', 'd']
}

pub open spec fn k_in_reply_to() -> Seq<char> {
    seq!['i', 'n', '_', 'r', 'e', 'p', 'l', 'y', '_', 't', 'o']
}

pub open spec fn k_echo() -> Seq<char> {
    seq!['e', 'c', 'h', 'o']
}

pub open spec fn k_node_id() -> Seq<char> {
    seq!['n', 'o', 'd', 'e', '_', 'i', 'd']
}

pub open spec fn k_node_ids() -> Seq<char> {
    seq!['n', 'o', 'd', 'e', '_', 'i', 'd', 's']
}

pub open spec fn k_id() -> Seq<char> {
    seq!['i', 'd']
}

pub open spec fn k_key() -> Seq<char> {
    seq!['k', 'e', 'y']
}

pub open spec fn k_text() -> Seq<char> {
    seq!['t', 'e', 'x', 't']
}

pub open spec fn k_keys() -> Seq<char> {
    seq!['k', 'e', 'y', 's']
}

pub open spec fn k_message() -> Seq<char> {
    seq!['m', 'e', 's', 's', 'a', 'g', 'e']
}

pub open spec fn k_messages() -> Seq<char> {
    seq!['m', 'e', 's', 's', 'a', 'g', 'e', 's']
}

pub open spec fn k_topology() -> Seq<char> {
    seq!['t', 'o', 'p', 'o', 'l', 'o', 'g', 'y']
}

pub open spec fn k_delta() -> Seq<char> {
    seq!['d', 'e', 'l', 't', 'a']
}

pub open spec fn k_value() -> Seq<char> {
    seq!['v', 'a', 'l', 'u', 'e']
}

pub open spec fn k_msg() -> Seq<char> {
    seq!['m', 's', 'g']
}

pub open spec fn k_offset() -> Seq<char> {
    seq!['o', 'f', 'f', 's', 'e', 't']
}

pub open spec fn k_offsets() -> Seq<char> {
    seq!['o', 'f', 'f', 's', 'e', 't', 's']
}

pub open spec fn k_msgs() -> Seq<char> {
    seq!['m', 's', 'g', 's']
}

pub open spec fn k_from() -> Seq<char> {
    seq!['f', 'r', 'o', 'm']
}

pub open spec fn k_to() -> Seq<char> {
    seq!['t', 'o']
}

pub open spec fn k_put() -> Seq<char> {
    seq!['c', 'r', 'e', 'a', 't', 'e', '_', 'i', 'f', '_', 'n', 'o', 't', '_', 'e', 'x', 'i', 's',
        't', 's']
}

pub open spec fn k_code() -> Seq<char> {
    seq!['c', 'o', 'd', 'e']
}

/// The `type` tag of each payload variant, in snake case.
pub open spec fn tag_of(p: PayloadV) -> Seq<char> {
    match p {
        PayloadV::Init(_) => seq!['i', 'n', 'i', 't'],
        PayloadV::InitOk => seq!['i', 'n', 'i', 't', '_', 'o', 'k'],
        PayloadV::Echo { .. } => seq!['e', 'c', 'h', 'o'],
        PayloadV::EchoOk { .. } => seq!['e', 'c', 'h', 'o', '_', 'o', 'k'],
        PayloadV::Generate => seq!['g', 'e', 'n', 'e', 'r', 'a', 't', 'e'],
        PayloadV::GenerateOk { .. } => seq!['g', 'e', 'n', 'e', 'r', 'a', 't', 'e', '_', 'o', 'k'],
        PayloadV::Broadcast { .. } => seq!['b', 'r', 'o', 'a', 'd', 'c', 'a', 's', 't'],
        PayloadV::BroadcastOk => seq!['b', 'r', 'o', 'a', 'd', 'c', 'a', 's', 't', '_', 'o', 'k'],
        PayloadV::BroadcastUnAcked => seq![
            'b',
            'r',
            'o',
            'a',
            'd',
            'c',
            'a',
            's',
            't',
            '_',
            'u',
            'n',
            '_',
            'a',
            'c',
            'k',
            'e',
            'd',
        ],
        PayloadV::Read => seq!['r', 'e', 'a', 'd'],
        PayloadV::ReadOk { .. } => seq!['r', 'e', 'a', 'd', '_', 'o', 'k'],
        PayloadV::ReadOkMessages { .. } => seq!['r', 'e', 'a', 'd', '_', 'o', 'k'],
        PayloadV::Topology { .. } => seq!['t', 'o', 'p', 'o', 'l', 'o', 'g', 'y'],
        PayloadV::TopologyOk => seq!['t', 'o', 'p', 'o', 'l', 'o', 'g', 'y', '_', 'o', 'k'],
        PayloadV::Add { .. } => seq!['a', 'd', 'd'],
        PayloadV::AddOk => seq!['a', 'd', 'd', '_', 'o', 'k'],
        PayloadV::ServerRead => seq!['s', 'e', 'r', 'v', 'e', 'r', '_', 'r', 'e', 'a', 'd'],
        PayloadV::ServerReadOk { .. } => seq![
            's',
            'e',
            'r',
            'v',
            'e',
            'r',
            '_',
            'r',
            'e',
            'a',
            'd',
            '_',
            'o',
            'k',
        ],
        PayloadV::Send { .. } => seq!['s', 'e', 'n', 'd'],
        PayloadV::SendOk { .. } => seq!['s', 'e', 'n', 'd', '_', 'o', 'k'],
        PayloadV::Poll { .. } => seq!['p', 'o', 'l', 'l'],
        PayloadV::PollOk { .. } => seq!['p', 'o', 'l', 'l', '_', 'o', 'k'],
        PayloadV::CommitOffsets { .. } => seq![
            'c',
            'o',
            'm',
            'm',
            'i',
            't',
            '_',
            'o',
            'f',
            'f',
            's',
            'e',
            't',
            's',
        ],
        PayloadV::CommitOffsetsOk => seq![
            'c',
            'o',
            'm',
            'm',
            'i',
            't',
            '_',
            'o',
            'f',
            'f',
            's',
            'e',
            't',
            's',
            '_',
            'o',
            'k',
        ],
        PayloadV::ListCommittedOffsets { .. } => seq![
            'l',
            'i',
            's',
            't',
            '_',
            'c',
            'o',
            'm',
            'm',
            'i',
            't',
            't',
            'e',
            'd',
            '_',
            'o',
            'f',
            'f',
            's',
            'e',
            't',
            's',
        ],
        PayloadV::ListCommittedOffsetsOk { .. } => seq![
            'l',
            'i',
            's',
            't',
            '_',
            'c',
            'o',
            'm',
            'm',
            'i',
            't',
            't',
            'e',
            'd',
            '_',
            'o',
            'f',
            'f',
            's',
            'e',
            't',
            's',
            '_',
            'o',
            'k',
        ],
        PayloadV::KvRead { .. } => seq!['r', 'e', 'a', 'd'],
        PayloadV::Write { .. } => seq!['w', 'r', 'i', 't', 'e'],
        PayloadV::WriteOk => seq!['w', 'r', 'i', 't', 'e', '_', 'o', 'k'],
        PayloadV::Cas { .. } => seq!['c', 'a', 's'],
        PayloadV::CasOk => seq!['c', 'a', 's', '_', 'o', 'k'],
        PayloadV::Error { .. } => seq!['e', 'r', 'r', 'o', 'r'],
    }
}

// ---------------------------------------------------------------------------
// The raw fields a body object can carry, before validation
// ---------------------------------------------------------------------------

/// Every body field the parser knows, each optional; the members of a body
/// object fill this record, in any order.
pub struct RawV {
    pub typ: Option<Seq<char>>,
    pub msg_id: Option<usize>,
    pub in_reply_to: Option<usize>,
    pub echo: Option<Seq<char>>,
    pub node_id: Option<Seq<char>>,
    pub id_str: Option<Seq<char>>,
    pub key: Option<Seq<char>>,
    pub text: Option<Seq<char>>,
    pub node_ids: Option<Seq<Seq<char>>>,
    pub keys: Option<Seq<Seq<char>>>,
    pub message: Option<usize>,
    pub delta: Option<usize>,
    pub value: Option<usize>,
    pub msg: Option<usize>,
    pub offset: Option<usize>,
    pub from_v: Option<usize>,
    pub to_v: Option<usize>,
    pub code: Option<usize>,
    pub messages: Option<Seq<usize>>,
    pub topology: Option<Seq<(Seq<char>, Seq<Seq<char>>)>>,
    pub offsets: Option<Seq<(Seq<char>, usize)>>,
    pub msgs: Option<Seq<(Seq<char>, Seq<(usize, usize)>)>>,
    pub put: Option<bool>,
}

pub open spec fn raw_empty() -> RawV {
    RawV {
        typ: None,
        msg_id: None,
        in_reply_to: None,
        echo: None,
        node_id: None,
        id_str: None,
        key: None,
        text: None,
        node_ids: None,
        keys: None,
        message: None,
        delta: None,
        value: None,
        msg: None,
        offset: None,
        from_v: None,
        to_v: None,
        code: None,
        messages: None,
        topology: None,
        offsets: None,
        msgs: None,
        put: None,
    }
}

// ---------------------------------------------------------------------------
// Members: one key and one typed value
// ---------------------------------------------------------------------------

/// One `"key":value` member of a body object, by value shape.
pub enum MemberV {
    MStr(Seq<char>, Seq<char>),
    MNum(Seq<char>, usize),
    MBool(Seq<char>, bool),
    MArrNum(Seq<char>, Seq<usize>),
    MArrStr(Seq<char>, Seq<Seq<char>>),
    MObjNum(Seq<char>, Seq<(Seq<char>, usize)>),
    MObjArrStr(Seq<char>, Seq<(Seq<char>, Seq<Seq<char>>)>),
    MObjArrPairs(Seq<char>, Seq<(Seq<char>, Seq<(usize, usize)>)>),
}

pub open spec fn member_key(m: MemberV) -> Seq<char> {
    match m {
        MemberV::MStr(k, _) => k,
        MemberV::MNum(k, _) => k,
        MemberV::MBool(k, _) => k,
        MemberV::MArrNum(k, _) => k,
        MemberV::MArrStr(k, _) => k,
        MemberV::MObjNum(k, _) => k,
        MemberV::MObjArrStr(k, _) => k,
        MemberV::MObjArrPairs(k, _) => k,
    }
}

/// The canonical text of a member's value.
pub open spec fn enc_member_val(m: MemberV) -> Seq<char> {
    match m {
        MemberV::MStr(_, v) => enc_string(v),
        MemberV::MNum(_, v) => enc_usize(v as nat),
        MemberV::MBool(_, v) => enc_bool(v),
        MemberV::MArrNum(_, v) => enc_arr_usize(v),
        MemberV::MArrStr(_, v) => enc_arr_string(v),
        MemberV::MObjNum(_, v) => enc_obj_usize(v),
        MemberV::MObjArrStr(_, v) => enc_obj_arr_string(v),
        MemberV::MObjArrPairs(_, v) => enc_obj_arr_pairs(v),
    }
}

/// The canonical text of a member.
pub open spec fn enc_member(m: MemberV) -> Seq<char> {
    enc_string(member_key(m)) + seq![':'] + enc_member_val(m)
}

/// The member's value shape is the one the parser expects of its key.
pub open spec fn member_ok(m: MemberV) -> bool {
    match m {
        MemberV::MStr(k, _) => k == k_type() || k == k_echo() || k == k_node_id() || k == k_id()
            || k == k_key() || k == k_text(),
        MemberV::MNum(k, _) => k == k_msg_id() || k == k_in_reply_to() || k == k_message() || k
            == k_delta() || k == k_value() || k == k_msg() || k == k_offset() || k == k_from() || k
            == k_to() || k == k_code(),
        MemberV::MBool(k, _) => k == k_put(),
        MemberV::MArrNum(k, _) => k == k_messages(),
        MemberV::MArrStr(k, _) => k == k_node_ids() || k == k_keys(),
        MemberV::MObjNum(k, _) => k == k_offsets(),
        MemberV::MObjArrStr(k, _) => k == k_topology(),
        MemberV::MObjArrPairs(k, _) => k == k_msgs(),
    }
}

/// What the parser stores in `acc` for this member.
pub open spec fn apply_member(acc: RawV, m: MemberV) -> RawV {
    match m {
        MemberV::MStr(k, v) => if k == k_type() {
            RawV { typ: Some(v), ..acc }
        } else if k == k_echo() {
            RawV { echo: Some(v), ..acc }
        } else if k == k_node_id() {
            RawV { node_id: Some(v), ..acc }
        } else if k == k_id() {
            RawV { id_str: Some(v), ..acc }
        } else if k == k_key() {
            RawV { key: Some(v), ..acc }
        } else if k == k_text() {
            RawV { text: Some(v), ..acc }
        } else {
            acc
        },
        MemberV::MNum(k, v) => if k == k_msg_id() {
            RawV { msg_id: Some(v), ..acc }
        } else if k == k_in_reply_to() {
            RawV { in_reply_to: Some(v), ..acc }
        } else if k == k_message() {
            RawV { message: Some(v), ..acc }
        } else if k == k_delta() {
            RawV { delta: Some(v), ..acc }
        } else if k == k_value() {
            RawV { value: Some(v), ..acc }
        } else if k == k_msg() {
            RawV { msg: Some(v), ..acc }
        } else if k == k_offset() {
            RawV { offset: Some(v), ..acc }
        } else if k == k_from() {
            RawV { from_v: Some(v), ..acc }
        } else if k == k_to() {
            RawV { to_v: Some(v), ..acc }
        } else if k == k_code() {
            RawV { code: Some(v), ..acc }
        } else {
            acc
        },
        MemberV::MBool(k, v) => if k == k_put() {
            RawV { put: Some(v), ..acc }
        } else {
            acc
        },
        MemberV::MArrNum(k, v) => if k == k_messages() {
            RawV { messages: Some(v), ..acc }
        } else {
            acc
        },
        MemberV::MArrStr(k, v) => if k == k_node_ids() {
            RawV { node_ids: Some(v), ..acc }
        } else if k == k_keys() {
            RawV { keys: Some(v), ..acc }
        } else {
            acc
        },
        MemberV::MObjNum(k, v) => if k == k_offsets() {
            RawV { offsets: Some(v), ..acc }
        } else {
            acc
        },
        MemberV::MObjArrStr(k, v) => if k == k_topology() {
            RawV { topology: Some(v), ..acc }
        } else {
            acc
        },
        MemberV::MObjArrPairs(k, v) => if k == k_msgs() {
            RawV { msgs: Some(v), ..acc }
        } else {
            acc
        },
    }
}

pub open spec fn apply_members(acc: RawV, l: Seq<MemberV>) -> RawV
    decreases l.len(),
{
    if l.len() == 0 {
        acc
    } else {
        apply_members(apply_member(acc, l[0]), l.skip(1))
    }
}

// ---------------------------------------------------------------------------
// Parsing a body object
// ---------------------------------------------------------------------------

/// Parses the value of the member named `k` and stores it; an unknown name
/// has its value skipped.
pub open spec fn parse_member_value(s: Seq<char>, i: int, acc: RawV, k: Seq<char>) -> Option<
    (RawV, int),
> {
    if k == k_type() || k == k_echo() || k == k_node_id() || k == k_id() || k == k_key() || k
        == k_text() {
        match parse_string(s, i) {
            Some((v, j)) => Some((apply_member(acc, MemberV::MStr(k, v)), j)),
            None => None,
        }
    } else if k == k_msg_id() || k == k_in_reply_to() || k == k_message() || k == k_delta() || k
        == k_value() || k == k_msg() || k == k_offset() || k == k_from() || k == k_to() || k
        == k_code() {
        match parse_usize(s, i) {
            Some((v, j)) => Some((apply_member(acc, MemberV::MNum(k, v)), j)),
            None => None,
        }
    } else if k == k_put() {
        match parse_bool(s, i) {
            Some((v, j)) => Some((apply_member(acc, MemberV::MBool(k, v)), j)),
            None => None,
        }
    } else if k == k_messages() {
        match parse_arr_usize(s, i) {
            Some((v, j)) => Some((apply_member(acc, MemberV::MArrNum(k, v)), j)),
            None => None,
        }
    } else if k == k_node_ids() || k == k_keys() {
        match parse_arr_string(s, i) {
            Some((v, j)) => Some((apply_member(acc, MemberV::MArrStr(k, v)), j)),
            None => None,
        }
    } else if k == k_offsets() {
        match parse_obj_usize(s, i) {
            Some((v, j)) => Some((apply_member(acc, MemberV::MObjNum(k, v)), j)),
            None => None,
        }
    } else if k == k_topology() {
        match parse_obj_arr_string(s, i) {
            Some((v, j)) => Some((apply_member(acc, MemberV::MObjArrStr(k, v)), j)),
            None => None,
        }
    } else if k == k_msgs() {
        match parse_obj_arr_pairs(s, i) {
            Some((v, j)) => Some((apply_member(acc, MemberV::MObjArrPairs(k, v)), j)),
            None => None,
        }
    } else {
        match skip_value(s, i) {
            Some(j) => Some((acc, j)),
            None => None,
        }
    }
}

/// Parses the members of a body object from the first key up to and
/// including the closing brace.
pub open spec fn parse_body_fields(s: Seq<char>, i: int, acc: RawV) -> Option<(RawV, int)>
    decreases s.len() - i,
{
    if i < 0 || i >= s.len() {
        None
    } else {
        match parse_string(s, i) {
            Some((k, j)) => if i < j < s.len() && s[j] == ':' {
                match parse_member_value(s, j + 1, acc, k) {
                    Some((acc2, m)) => if j + 1 <= m && m < s.len() {
                        if s[m] == ',' {
                            parse_body_fields(s, m + 1, acc2)
                        } else if s[m] == '}' {
                            Some((acc2, m + 1))
                        } else {
                            None
                        }
                    } else {
                        None
                    },
                    None => None,
                }
            } else {
                None
            },
            None => None,
        }
    }
}

/// Parses one body object starting at `i`.
pub open spec fn parse_body(s: Seq<char>, i: int) -> Option<(RawV, int)> {
    if 0 <= i < s.len() && s[i] == '{' {
        if i + 1 < s.len() && s[i + 1] == '}' {
            Some((raw_empty(), i + 2))
        } else {
            parse_body_fields(s, i + 1, raw_empty())
        }
    } else {
        None
    }
}

// ---------------------------------------------------------------------------
// Validation: raw fields to a payload
// ---------------------------------------------------------------------------

/// Builds the payload the raw fields describe: the `type` tag picks the
/// variant and the variant's fields must be present. Extra fields are
/// ignored; a missing field or an unknown tag refuses the body.
pub open spec fn raw_to_payload(r: RawV) -> Option<PayloadV> {
    match r.typ {
        None => None,
        Some(t) => {
            if t == tag_of(PayloadV::InitOk) {
                Some(PayloadV::InitOk)
            } else if t == tag_of(PayloadV::Init(InitV { node_id: seq![], node_ids: seq![] })) {
                match (r.node_id, r.node_ids) {
                    (Some(nid), Some(nids)) => Some(
                        PayloadV::Init(InitV { node_id: nid, node_ids: nids }),
                    ),
                    _ => None,
                }
            } else if t == tag_of(PayloadV::EchoOk { echo: seq![] }) {
                match r.echo {
                    Some(e) => Some(PayloadV::EchoOk { echo: e }),
                    None => None,
                }
            } else if t == tag_of(PayloadV::Echo { echo: seq![] }) {
                match r.echo {
                    Some(e) => Some(PayloadV::Echo { echo: e }),
                    None => None,
                }
            } else if t == tag_of(PayloadV::Generate) {
                Some(PayloadV::Generate)
            } else if t == tag_of(PayloadV::GenerateOk { guid: seq![] }) {
                match r.id_str {
                    Some(g) => Some(PayloadV::GenerateOk { guid: g }),
                    None => None,
                }
            } else if t == tag_of(PayloadV::BroadcastOk) {
                Some(PayloadV::BroadcastOk)
            } else if t == tag_of(PayloadV::BroadcastUnAcked) {
                Some(PayloadV::BroadcastUnAcked)
            } else if t == tag_of(PayloadV::Broadcast { message: 0 }) {
                match r.message {
                    Some(v) => Some(PayloadV::Broadcast { message: v }),
                    None => None,
                }
            } else if t == tag_of(PayloadV::Read) {
                match r.key {
                    Some(k) => Some(PayloadV::KvRead { key: k }),
                    None => Some(PayloadV::Read),
                }
            } else if t == tag_of(PayloadV::ReadOk { value: 0 }) {
                match (r.messages, r.value) {
                    (Some(ms), _) => Some(PayloadV::ReadOkMessages { messages: ms }),
                    (None, Some(v)) => Some(PayloadV::ReadOk { value: v }),
                    _ => None,
                }
            } else if t == tag_of(PayloadV::TopologyOk) {
                Some(PayloadV::TopologyOk)
            } else if t == tag_of(PayloadV::Topology { topology: seq![] }) {
                match r.topology {
                    Some(tp) => Some(PayloadV::Topology { topology: tp }),
                    None => None,
                }
            } else if t == tag_of(PayloadV::AddOk) {
                Some(PayloadV::AddOk)
            } else if t == tag_of(PayloadV::Add { delta: 0 }) {
                match r.delta {
                    Some(d) => Some(PayloadV::Add { delta: d }),
                    None => None,
                }
            } else if t == tag_of(PayloadV::ServerReadOk { value: 0 }) {
                match r.value {
                    Some(v) => Some(PayloadV::ServerReadOk { value: v }),
                    None => None,
                }
            } else if t == tag_of(PayloadV::ServerRead) {
                Some(PayloadV::ServerRead)
            } else if t == tag_of(PayloadV::SendOk { offset: 0 }) {
                match r.offset {
                    Some(o) => Some(PayloadV::SendOk { offset: o }),
                    None => None,
                }
            } else if t == tag_of(PayloadV::Send { key: seq![], msg: 0 }) {
                match (r.key, r.msg) {
                    (Some(k), Some(v)) => Some(PayloadV::Send { key: k, msg: v }),
                    _ => None,
                }
            } else if t == tag_of(PayloadV::PollOk { msgs: seq![] }) {
                match r.msgs {
                    Some(ms) => Some(PayloadV::PollOk { msgs: ms }),
                    None => None,
                }
            } else if t == tag_of(PayloadV::Poll { offsets: seq![] }) {
                match r.offsets {
                    Some(o) => Some(PayloadV::Poll { offsets: o }),
                    None => None,
                }
            } else if t == tag_of(PayloadV::CommitOffsetsOk) {
                Some(PayloadV::CommitOffsetsOk)
            } else if t == tag_of(PayloadV::CommitOffsets { offsets: seq![] }) {
                match r.offsets {
                    Some(o) => Some(PayloadV::CommitOffsets { offsets: o }),
                    None => None,
                }
            } else if t == tag_of(PayloadV::ListCommittedOffsetsOk { offsets: seq![] }) {
                match r.offsets {
                    Some(o) => Some(PayloadV::ListCommittedOffsetsOk { offsets: o }),
                    None => None,
                }
            } else if t == tag_of(PayloadV::ListCommittedOffsets { keys: seq![] }) {
                match r.keys {
                    Some(ks) => Some(PayloadV::ListCommittedOffsets { keys: ks }),
                    None => None,
                }
            } else if t == tag_of(PayloadV::WriteOk) {
                Some(PayloadV::WriteOk)
            } else if t == tag_of(PayloadV::Write { key: seq![], value: 0 }) {
                match (r.key, r.value) {
                    (Some(k), Some(v)) => Some(PayloadV::Write { key: k, value: v }),
                    _ => None,
                }
            } else if t == tag_of(PayloadV::CasOk) {
                Some(PayloadV::CasOk)
            } else if t == tag_of(PayloadV::Cas { key: seq![], from: 0, to: 0, put: false }) {
                match (r.key, r.from_v, r.to_v, r.put) {
                    (Some(k), Some(f), Some(o), Some(p)) => Some(
                        PayloadV::Cas { key: k, from: f, to: o, put: p },
                    ),
                    _ => None,
                }
            } else if t == tag_of(PayloadV::Error { code: 0, text: seq![] }) {
                match (r.code, r.text) {
                    (Some(c), Some(x)) => Some(PayloadV::Error { code: c, text: x }),
                    _ => None,
                }
            } else {
                None
            }
        },
    }
}

// ---------------------------------------------------------------------------
// The canonical encoding of a body and of a whole message
// ---------------------------------------------------------------------------

/// The members a payload contributes to its body object.
pub open spec fn members_of_payload(p: PayloadV) -> Seq<MemberV> {
    match p {
        PayloadV::Init(i) => seq![
            MemberV::MStr(k_node_id(), i.node_id),
            MemberV::MArrStr(k_node_ids(), i.node_ids),
        ],
        PayloadV::InitOk => seq![],
        PayloadV::Echo { echo } => seq![MemberV::MStr(k_echo(), echo)],
        PayloadV::EchoOk { echo } => seq![MemberV::MStr(k_echo(), echo)],
        PayloadV::Generate => seq![],
        PayloadV::GenerateOk { guid } => seq![MemberV::MStr(k_id(), guid)],
        PayloadV::Broadcast { message } => seq![MemberV::MNum(k_message(), message)],
        PayloadV::BroadcastOk => seq![],
        PayloadV::BroadcastUnAcked => seq![],
        PayloadV::Read => seq![],
        PayloadV::ReadOk { value } => seq![MemberV::MNum(k_value(), value)],
        PayloadV::ReadOkMessages { messages } => seq![MemberV::MArrNum(k_messages(), messages)],
        PayloadV::Topology { topology } => seq![MemberV::MObjArrStr(k_topology(), topology)],
        PayloadV::TopologyOk => seq![],
        PayloadV::Add { delta } => seq![MemberV::MNum(k_delta(), delta)],
        PayloadV::AddOk => seq![],
        PayloadV::ServerRead => seq![],
        PayloadV::ServerReadOk { value } => seq![MemberV::MNum(k_value(), value)],
        PayloadV::Send { key, msg } => seq![
            MemberV::MStr(k_key(), key),
            MemberV::MNum(k_msg(), msg),
        ],
        PayloadV::SendOk { offset } => seq![MemberV::MNum(k_offset(), offset)],
        PayloadV::Poll { offsets } => seq![MemberV::MObjNum(k_offsets(), offsets)],
        PayloadV::PollOk { msgs } => seq![MemberV::MObjArrPairs(k_msgs(), msgs)],
        PayloadV::CommitOffsets { offsets } => seq![MemberV::MObjNum(k_offsets(), offsets)],
        PayloadV::CommitOffsetsOk => seq![],
        PayloadV::ListCommittedOffsets { keys } => seq![MemberV::MArrStr(k_keys(), keys)],
        PayloadV::ListCommittedOffsetsOk { offsets } => seq![
            MemberV::MObjNum(k_offsets(), offsets),
        ],
        PayloadV::KvRead { key } => seq![MemberV::MStr(k_key(), key)],
        PayloadV::Write { key, value } => seq![
            MemberV::MStr(k_key(), key),
            MemberV::MNum(k_value(), value),
        ],
        PayloadV::WriteOk => seq![],
        PayloadV::Cas { key, from, to, put } => seq![
            MemberV::MStr(k_key(), key),
            MemberV::MNum(k_from(), from),
            MemberV::MNum(k_to(), to),
            MemberV::MBool(k_put(), put),
        ],
        PayloadV::CasOk => seq![],
        PayloadV::Error { code, text } => seq![
            MemberV::MNum(k_code(), code),
            MemberV::MStr(k_text(), text),
        ],
    }
}

pub open spec fn opt_num_members(k: Seq<char>, v: Option<usize>) -> Seq<MemberV> {
    match v {
        Some(n) => seq![MemberV::MNum(k, n)],
        None => seq![],
    }
}

/// All members of a body object: `type` first, then `msg_id` and
/// `in_reply_to` when present, then the payload's own fields.
pub open spec fn members_of_body(b: BodyV) -> Seq<MemberV> {
    seq![MemberV::MStr(k_type(), tag_of(b.payload))] + opt_num_members(k_msg_id(), b.id)
        + opt_num_members(k_in_reply_to(), b.in_reply_to) + members_of_payload(b.payload)
}

/// Members after the first, each preceded by a comma.
pub open spec fn enc_members_rest(l: Seq<MemberV>) -> Seq<char>
    decreases l.len(),
{
    if l.len() == 0 {
        Seq::empty()
    } else {
        seq![','] + enc_member(l[0]) + enc_members_rest(l.skip(1))
    }
}

/// The canonical text of a body object.
pub open spec fn enc_body(b: BodyV) -> Seq<char> {
    let l = members_of_body(b);
    seq!['{'] + enc_member(l[0]) + enc_members_rest(l.skip(1)) + seq!['}']
}

/// The canonical text of a whole message: one line of the wire protocol.
pub open spec fn enc_message(m: MessageV) -> Seq<char> {
    seq!['{'] + enc_string(k_src()) + seq![':'] + enc_string(m.src) + seq![','] + enc_string(
        k_dest(),
    ) + seq![':'] + enc_string(m.dst) + seq![','] + enc_string(k_body()) + seq![':'] + enc_body(
        m.body,
    ) + seq!['}']
}

// ---------------------------------------------------------------------------
// Parsing a whole message
// ---------------------------------------------------------------------------

/// Parses the members of the envelope object from the first key up to and
/// including the closing brace; `src`, `dest` and `body` fill the result,
/// other members are skipped.
pub open spec fn parse_env_fields(
    s: Seq<char>,
    i: int,
    src: Option<Seq<char>>,
    dst: Option<Seq<char>>,
    body: Option<RawV>,
) -> Option<((Option<Seq<char>>, Option<Seq<char>>, Option<RawV>), int)>
    decreases s.len() - i,
{
    if i < 0 || i >= s.len() {
        None
    } else {
        match parse_string(s, i) {
            Some((k, j)) => if i < j < s.len() && s[j] == ':' {
                let step: Option<((Option<Seq<char>>, Option<Seq<char>>, Option<RawV>), int)> = if k
                    == k_src() {
                    match parse_string(s, j + 1) {
                        Some((v, m)) => Some(((Some(v), dst, body), m)),
                        None => None,
                    }
                } else if k == k_dest() {
                    match parse_string(s, j + 1) {
                        Some((v, m)) => Some(((src, Some(v), body), m)),
                        None => None,
                    }
                } else if k == k_body() {
                    match parse_body(s, j + 1) {
                        Some((v, m)) => Some(((src, dst, Some(v)), m)),
                        None => None,
                    }
                } else {
                    match skip_value(s, j + 1) {
                        Some(m) => Some(((src, dst, body), m)),
                        None => None,
                    }
                };
                match step {
                    Some((acc2, m)) => if j + 1 <= m && m < s.len() {
                        if s[m] == ',' {
                            parse_env_fields(s, m + 1, acc2.0, acc2.1, acc2.2)
                        } else if s[m] == '}' {
                            Some((acc2, m + 1))
                        } else {
                            None
                        }
                    } else {
                        None
                    },
                    None => None,
                }
            } else {
                None
            },
            None => None,
        }
    }
}

/// Decodes one line of text as a message: the envelope object must span the
/// whole text and carry `src`, `dest` and a valid body.
pub open spec fn dec_message(s: Seq<char>) -> Option<MessageV> {
    if s.len() >= 2 && s[0] == '{' && s[1] != '}' {
        match parse_env_fields(s, 1, None, None, None) {
            Some(((Some(src), Some(dst), Some(raw)), j)) => if j == s.len() {
                match raw_to_payload(raw) {
                    Some(p) => Some(
                        MessageV {
                            src,
                            dst,
                            body: BodyV { id: raw.msg_id, in_reply_to: raw.in_reply_to, payload: p },
                        },
                    ),
                    None => None,
                }
            } else {
                None
            },
            _ => None,
        }
    } else {
        None
    }
}

// ---------------------------------------------------------------------------
// Round trip: parsing the canonical text of a message restores it
// ---------------------------------------------------------------------------

proof fn lemma_apply_members_concat(acc: RawV, l1: Seq<MemberV>, l2: Seq<MemberV>)
    ensures
        apply_members(acc, l1 + l2) == apply_members(apply_members(acc, l1), l2),
    decreases l1.len(),
{
    if l1.len() == 0 {
        assert(l1 + l2 =~= l2);
    } else {
        assert((l1 + l2).skip(1) =~= l1.skip(1) + l2);
        assert((l1 + l2)[0] == l1[0]);
        lemma_apply_members_concat(apply_member(acc, l1[0]), l1.skip(1), l2);
    }
}

proof fn lemma_apply_one(acc: RawV, a: MemberV)
    ensures
        apply_members(acc, seq![a]) == apply_member(acc, a),
{
    reveal_with_fuel(apply_members, 2);
    assert(seq![a].skip(1) =~= Seq::<MemberV>::empty());
}

proof fn lemma_apply_two(acc: RawV, a: MemberV, b: MemberV)
    ensures
        apply_members(acc, seq![a, b]) == apply_member(apply_member(acc, a), b),
{
    assert(seq![a, b].skip(1) =~= seq![b]);
    lemma_apply_one(apply_member(acc, a), b);
}

proof fn lemma_apply_four(acc: RawV, a: MemberV, b: MemberV, c: MemberV, d: MemberV)
    ensures
        apply_members(acc, seq![a, b, c, d]) == apply_member(
            apply_member(apply_member(apply_member(acc, a), b), c),
            d,
        ),
{
    reveal_with_fuel(apply_members, 5);
    assert(seq![a, b, c, d].skip(1) =~= seq![b, c, d]);
    assert(seq![b, c, d].skip(1) =~= seq![c, d]);
    assert(seq![c, d].skip(1) =~= seq![d]);
    lemma_apply_one(apply_member(apply_member(apply_member(acc, a), b), c), d);
}

proof fn lemma_apply_opt_num(acc: RawV, k: Seq<char>, v: Option<usize>)
    ensures
        apply_members(acc, opt_num_members(k, v)) == match v {
            Some(n) => apply_member(acc, MemberV::MNum(k, n)),
            None => acc,
        },
{
    match v {
        Some(n) => {
            lemma_apply_one(acc, MemberV::MNum(k, n));
        },
        None => {
        },
    }
}

/// The length and first character of every field name: what tells the
/// names apart when the parser dispatches on a key.
pub proof fn lemma_key_facts()
    ensures
        k_src().len() == 3,
        k_src()[0] == 's',
        k_dest().len() == 4,
        k_dest()[0] == 'd',
        k_body().len() == 4,
        k_body()[0] == 'b',
        k_type().len() == 4,
        k_type()[0] == 't',
        k_msg_id().len() == 6,
        k_msg_id()[0] == 'm',
        k_in_reply_to().len() == 11,
        k_in_reply_to()[0] == 'i',
        k_echo().len() == 4,
        k_echo()[0] == 'e',
        k_node_id().len() == 7,
        k_node_id()[0] == 'n',
        k_node_ids().len() == 8,
        k_node_ids()[0] == 'n',
        k_id().len() == 2,
        k_id()[0] == 'i',
        k_key().len() == 3,
        k_key()[0] == 'k',
        k_text().len() == 4,
        k_text()[0] == 't',
        k_keys().len() == 4,
        k_keys()[0] == 'k',
        k_message().len() == 7,
        k_message()[0] == 'm',
        k_messages().len() == 8,
        k_messages()[0] == 'm',
        k_topology().len() == 8,
        k_topology()[0] == 't',
        k_delta().len() == 5,
        k_delta()[0] == 'd',
        k_value().len() == 5,
        k_value()[0] == 'v',
        k_msg().len() == 3,
        k_msg()[0] == 'm',
        k_offset().len() == 6,
        k_offset()[0] == 'o',
        k_offsets().len() == 7,
        k_offsets()[0] == 'o',
        k_msgs().len() == 4,
        k_msgs()[0] == 'm',
        k_from().len() == 4,
        k_from()[0] == 'f',
        k_to().len() == 2,
        k_to()[0] == 't',
        k_put().len() == 20,
        k_put()[0] == 'c',
        k_code().len() == 4,
        k_code()[0] == 'c',
{
}

/// The length and first character of every type tag: what tells the tags
/// apart when a body is validated.
pub proof fn lemma_tag_facts()
    ensures
        tag_of(PayloadV::InitOk).len() == 7,
        tag_of(PayloadV::InitOk)[0] == 'i',
        tag_of(PayloadV::Init(InitV { node_id: seq![], node_ids: seq![] })).len() == 4,
        tag_of(PayloadV::Init(InitV { node_id: seq![], node_ids: seq![] }))[0] == 'i',
        tag_of(PayloadV::EchoOk { echo: seq![] }).len() == 7,
        tag_of(PayloadV::EchoOk { echo: seq![] })[0] == 'e',
        tag_of(PayloadV::Echo { echo: seq![] }).len() == 4,
        tag_of(PayloadV::Echo { echo: seq![] })[0] == 'e',
        tag_of(PayloadV::Generate).len() == 8,
        tag_of(PayloadV::Generate)[0] == 'g',
        tag_of(PayloadV::GenerateOk { guid: seq![] }).len() == 11,
        tag_of(PayloadV::GenerateOk { guid: seq![] })[0] == 'g',
        tag_of(PayloadV::BroadcastOk).len() == 12,
        tag_of(PayloadV::BroadcastOk)[0] == 'b',
        tag_of(PayloadV::BroadcastUnAcked).len() == 18,
        tag_of(PayloadV::BroadcastUnAcked)[0] == 'b',
        tag_of(PayloadV::Broadcast { message: 0 }).len() == 9,
        tag_of(PayloadV::Broadcast { message: 0 })[0] == 'b',
        tag_of(PayloadV::Read).len() == 4,
        tag_of(PayloadV::Read)[0] == 'r',
        tag_of(PayloadV::ReadOk { value: 0 }).len() == 7,
        tag_of(PayloadV::ReadOk { value: 0 })[0] == 'r',
        tag_of(PayloadV::ReadOkMessages { messages: seq![] }).len() == 7,
        tag_of(PayloadV::ReadOkMessages { messages: seq![] })[0] == 'r',
        tag_of(PayloadV::TopologyOk).len() == 11,
        tag_of(PayloadV::TopologyOk)[0] == 't',
        tag_of(PayloadV::Topology { topology: seq![] }).len() == 8,
        tag_of(PayloadV::Topology { topology: seq![] })[0] == 't',
        tag_of(PayloadV::AddOk).len() == 6,
        tag_of(PayloadV::AddOk)[0] == 'a',
        tag_of(PayloadV::Add { delta: 0 }).len() == 3,
        tag_of(PayloadV::Add { delta: 0 })[0] == 'a',
        tag_of(PayloadV::ServerReadOk { value: 0 }).len() == 14,
        tag_of(PayloadV::ServerReadOk { value: 0 })[0] == 's',
        tag_of(PayloadV::ServerRead).len() == 11,
        tag_of(PayloadV::ServerRead)[0] == 's',
        tag_of(PayloadV::SendOk { offset: 0 }).len() == 7,
        tag_of(PayloadV::SendOk { offset: 0 })[0] == 's',
        tag_of(PayloadV::Send { key: seq![], msg: 0 }).len() == 4,
        tag_of(PayloadV::Send { key: seq![], msg: 0 })[0] == 's',
        tag_of(PayloadV::PollOk { msgs: seq![] }).len() == 7,
        tag_of(PayloadV::PollOk { msgs: seq![] })[0] == 'p',
        tag_of(PayloadV::Poll { offsets: seq![] }).len() == 4,
        tag_of(PayloadV::Poll { offsets: seq![] })[0] == 'p',
        tag_of(PayloadV::CommitOffsetsOk).len() == 17,
        tag_of(PayloadV::CommitOffsetsOk)[0] == 'c',
        tag_of(PayloadV::CommitOffsets { offsets: seq![] }).len() == 14,
        tag_of(PayloadV::CommitOffsets { offsets: seq![] })[0] == 'c',
        tag_of(PayloadV::ListCommittedOffsetsOk { offsets: seq![] }).len() == 25,
        tag_of(PayloadV::ListCommittedOffsetsOk { offsets: seq![] })[0] == 'l',
        tag_of(PayloadV::ListCommittedOffsets { keys: seq![] }).len() == 22,
        tag_of(PayloadV::ListCommittedOffsets { keys: seq![] })[0] == 'l',
        tag_of(PayloadV::WriteOk).len() == 8,
        tag_of(PayloadV::WriteOk)[0] == 'w',
        tag_of(PayloadV::Write { key: seq![], value: 0 }).len() == 5,
        tag_of(PayloadV::Write { key: seq![], value: 0 })[0] == 'w',
        tag_of(PayloadV::CasOk).len() == 6,
        tag_of(PayloadV::CasOk)[0] == 'c',
        tag_of(PayloadV::Cas { key: seq![], from: 0, to: 0, put: false }).len() == 3,
        tag_of(PayloadV::Cas { key: seq![], from: 0, to: 0, put: false })[0] == 'c',
        tag_of(PayloadV::Error { code: 0, text: seq![] }).len() == 5,
        tag_of(PayloadV::Error { code: 0, text: seq![] })[0] == 'e',
{
}

/// Parsing the canonical text of one member's value stores the member.
proof fn lemma_parse_member_value_enc(s: Seq<char>, i: int, m: MemberV, acc: RawV)
    requires
        member_ok(m),
        has_at(s, i, enc_member_val(m)),
        m is MNum ==> i + enc_member_val(m).len() == s.len() || !is_digit(
            s[i + enc_member_val(m).len()],
        ),
    ensures
        parse_member_value(s, i, acc, member_key(m)) == Some(
            (apply_member(acc, m), i + enc_member_val(m).len()),
        ),
{
    match m {
        MemberV::MStr(k, v) => {
            lemma_mv_str(s, i, k, v, acc);
        },
        MemberV::MNum(k, v) => {
            lemma_mv_num(s, i, k, v, acc);
        },
        MemberV::MBool(k, v) => {
            lemma_mv_bool(s, i, k, v, acc);
        },
        MemberV::MArrNum(k, v) => {
            lemma_mv_arr_num(s, i, k, v, acc);
        },
        MemberV::MArrStr(k, v) => {
            lemma_mv_arr_str(s, i, k, v, acc);
        },
        MemberV::MObjNum(k, v) => {
            lemma_mv_obj_num(s, i, k, v, acc);
        },
        MemberV::MObjArrStr(k, v) => {
            lemma_mv_obj_arr_str(s, i, k, v, acc);
        },
        MemberV::MObjArrPairs(k, v) => {
            lemma_mv_obj_arr_pairs(s, i, k, v, acc);
        },
    }
}

proof fn lemma_mv_str(s: Seq<char>, i: int, k: Seq<char>, v: Seq<char>, acc: RawV)
    requires
        member_ok(MemberV::MStr(k, v)),
        has_at(s, i, enc_string(v)),
    ensures
        parse_member_value(s, i, acc, k) == Some(
            (apply_member(acc, MemberV::MStr(k, v)), i + enc_string(v).len()),
        ),
{
    lemma_key_facts();
    lemma_parse_string_enc(s, i, v);
}

proof fn lemma_mv_num(s: Seq<char>, i: int, k: Seq<char>, v: usize, acc: RawV)
    requires
        member_ok(MemberV::MNum(k, v)),
        has_at(s, i, enc_usize(v as nat)),
        i + enc_usize(v as nat).len() == s.len() || !is_digit(s[i + enc_usize(v as nat).len()]),
    ensures
        parse_member_value(s, i, acc, k) == Some(
            (apply_member(acc, MemberV::MNum(k, v)), i + enc_usize(v as nat).len()),
        ),
{
    lemma_key_facts();
    lemma_parse_usize_enc(s, i, v);
}

proof fn lemma_mv_bool(s: Seq<char>, i: int, k: Seq<char>, v: bool, acc: RawV)
    requires
        member_ok(MemberV::MBool(k, v)),
        has_at(s, i, enc_bool(v)),
    ensures
        parse_member_value(s, i, acc, k) == Some(
            (apply_member(acc, MemberV::MBool(k, v)), i + enc_bool(v).len()),
        ),
{
    lemma_key_facts();
    lemma_parse_bool_enc(s, i, v);
}

proof fn lemma_mv_arr_num(s: Seq<char>, i: int, k: Seq<char>, v: Seq<usize>, acc: RawV)
    requires
        member_ok(MemberV::MArrNum(k, v)),
        has_at(s, i, enc_arr_usize(v)),
    ensures
        parse_member_value(s, i, acc, k) == Some(
            (apply_member(acc, MemberV::MArrNum(k, v)), i + enc_arr_usize(v).len()),
        ),
{
    lemma_key_facts();
    lemma_parse_arr_usize_enc(s, i, v);
    assert(k == k_messages());
    assert(k != k_type());
    assert(k != k_echo());
    assert(k != k_node_id());
    assert(k != k_id());
    assert(k != k_key());
    assert(k != k_text());
    assert(k != k_msg_id());
    assert(k != k_in_reply_to());
    assert(k != k_message());
    assert(k != k_delta());
    assert(k != k_value());
    assert(k != k_msg());
    assert(k != k_offset());
    assert(k != k_from());
    assert(k != k_to());
    assert(k != k_code());
    assert(k != k_put());
    assert(parse_arr_usize(s, i) == Some((v, i + enc_arr_usize(v).len())));
}

proof fn lemma_mv_arr_str(s: Seq<char>, i: int, k: Seq<char>, v: Seq<Seq<char>>, acc: RawV)
    requires
        member_ok(MemberV::MArrStr(k, v)),
        has_at(s, i, enc_arr_string(v)),
    ensures
        parse_member_value(s, i, acc, k) == Some(
            (apply_member(acc, MemberV::MArrStr(k, v)), i + enc_arr_string(v).len()),
        ),
{
    lemma_key_facts();
    lemma_parse_arr_string_enc(s, i, v);
    assert(k == k_node_ids() || k == k_keys());
    assert(k != k_type());
    assert(k != k_echo());
    assert(k != k_node_id());
    assert(k != k_id());
    assert(k != k_key());
    assert(k != k_text());
    assert(k != k_msg_id());
    assert(k != k_in_reply_to());
    assert(k != k_message());
    assert(k != k_delta());
    assert(k != k_value());
    assert(k != k_msg());
    assert(k != k_offset());
    assert(k != k_from());
    assert(k != k_to());
    assert(k != k_code());
    assert(k != k_put());
    assert(k != k_messages());
    assert(parse_arr_string(s, i) == Some((v, i + enc_arr_string(v).len())));
}

proof fn lemma_mv_obj_num(s: Seq<char>, i: int, k: Seq<char>, v: Seq<(Seq<char>, usize)>, acc: RawV)
    requires
        member_ok(MemberV::MObjNum(k, v)),
        has_at(s, i, enc_obj_usize(v)),
    ensures
        parse_member_value(s, i, acc, k) == Some(
            (apply_member(acc, MemberV::MObjNum(k, v)), i + enc_obj_usize(v).len()),
        ),
{
    lemma_key_facts();
    lemma_parse_obj_usize_enc(s, i, v);
    assert(k == k_offsets());
    assert(k != k_type());
    assert(k != k_echo());
    assert(k != k_node_id());
    assert(k != k_id());
    assert(k != k_key());
    assert(k != k_text());
    assert(k != k_msg_id());
    assert(k != k_in_reply_to());
    assert(k != k_message());
    assert(k != k_delta());
    assert(k != k_value());
    assert(k != k_msg());
    assert(k != k_offset());
    assert(k != k_from());
    assert(k != k_to());
    assert(k != k_code());
    assert(k != k_put());
    assert(k != k_messages() && k != k_node_ids() && k != k_keys());
    assert(parse_obj_usize(s, i) == Some((v, i + enc_obj_usize(v).len())));
}

proof fn lemma_mv_obj_arr_str(
    s: Seq<char>,
    i: int,
    k: Seq<char>,
    v: Seq<(Seq<char>, Seq<Seq<char>>)>,
    acc: RawV,
)
    requires
        member_ok(MemberV::MObjArrStr(k, v)),
        has_at(s, i, enc_obj_arr_string(v)),
    ensures
        parse_member_value(s, i, acc, k) == Some(
            (apply_member(acc, MemberV::MObjArrStr(k, v)), i + enc_obj_arr_string(v).len()),
        ),
{
    lemma_key_facts();
    lemma_parse_obj_arr_string_enc(s, i, v);
    assert(k == k_topology());
    assert(k != k_type());
    assert(k != k_echo());
    assert(k != k_node_id());
    assert(k != k_id());
    assert(k != k_key());
    assert(k != k_text());
    assert(k != k_msg_id());
    assert(k != k_in_reply_to());
    assert(k != k_message());
    assert(k != k_delta());
    assert(k != k_value());
    assert(k != k_msg());
    assert(k != k_offset());
    assert(k != k_from());
    assert(k != k_to());
    assert(k != k_code());
    assert(k != k_put());
    assert(k != k_messages() && k != k_node_ids() && k != k_keys() && k != k_offsets());
    assert(parse_obj_arr_string(s, i) == Some((v, i + enc_obj_arr_string(v).len())));
}

proof fn lemma_mv_obj_arr_pairs(
    s: Seq<char>,
    i: int,
    k: Seq<char>,
    v: Seq<(Seq<char>, Seq<(usize, usize)>)>,
    acc: RawV,
)
    requires
        member_ok(MemberV::MObjArrPairs(k, v)),
        has_at(s, i, enc_obj_arr_pairs(v)),
    ensures
        parse_member_value(s, i, acc, k) == Some(
            (apply_member(acc, MemberV::MObjArrPairs(k, v)), i + enc_obj_arr_pairs(v).len()),
        ),
{
    lemma_key_facts();
    lemma_parse_obj_arr_pairs_enc(s, i, v);
    assert(k == k_msgs());
    assert(k != k_type());
    assert(k != k_echo());
    assert(k != k_node_id());
    assert(k != k_id());
    assert(k != k_key());
    assert(k != k_text());
    assert(k != k_msg_id());
    assert(k != k_in_reply_to());
    assert(k != k_message());
    assert(k != k_delta());
    assert(k != k_value());
    assert(k != k_msg());
    assert(k != k_offset());
    assert(k != k_from());
    assert(k != k_to());
    assert(k != k_code());
    assert(k != k_put());
    assert(k != k_messages() && k != k_node_ids() && k != k_keys() && k != k_offsets() && k
        != k_topology());
    assert(parse_obj_arr_pairs(s, i) == Some((v, i + enc_obj_arr_pairs(v).len())));
}

/// Folding the payload's own members over a record that holds only the tag
/// (and the two ids) yields a record that validates back to the payload.
#[verifier::rlimit(100)]
#[verifier::spinoff_prover]
proof fn lemma_raw_payload_members(p: PayloadV, r3: RawV)
    requires
        r3.typ == Some(tag_of(p)),
        r3.echo is None,
        r3.node_id is None,
        r3.id_str is None,
        r3.key is None,
        r3.text is None,
        r3.node_ids is None,
        r3.keys is None,
        r3.message is None,
        r3.delta is None,
        r3.value is None,
        r3.msg is None,
        r3.offset is None,
        r3.from_v is None,
        r3.to_v is None,
        r3.code is None,
        r3.messages is None,
        r3.topology is None,
        r3.offsets is None,
        r3.msgs is None,
        r3.put is None,
    ensures
        ({
            let raw = apply_members(r3, members_of_payload(p));
            &&& raw.typ == r3.typ
            &&& raw.msg_id == r3.msg_id
            &&& raw.in_reply_to == r3.in_reply_to
            &&& raw_to_payload(raw) == Some(p)
        }),
{
    lemma_key_facts();
    lemma_tag_facts();
    match p {
        PayloadV::Init(i) => {
            lemma_apply_two(
                r3,
                MemberV::MStr(k_node_id(), i.node_id),
                MemberV::MArrStr(k_node_ids(), i.node_ids),
            );
        },
        PayloadV::Echo { echo } => {
            lemma_apply_one(r3, MemberV::MStr(k_echo(), echo));
        },
        PayloadV::EchoOk { echo } => {
            lemma_apply_one(r3, MemberV::MStr(k_echo(), echo));
        },
        PayloadV::GenerateOk { guid } => {
            lemma_apply_one(r3, MemberV::MStr(k_id(), guid));
        },
        PayloadV::Broadcast { message } => {
            lemma_apply_one(r3, MemberV::MNum(k_message(), message));
        },
        PayloadV::ReadOk { value } => {
            lemma_apply_one(r3, MemberV::MNum(k_value(), value));
        },
        PayloadV::ReadOkMessages { messages } => {
            lemma_apply_one(r3, MemberV::MArrNum(k_messages(), messages));
        },
        PayloadV::Topology { topology } => {
            lemma_apply_one(r3, MemberV::MObjArrStr(k_topology(), topology));
        },
        PayloadV::Add { delta } => {
            lemma_apply_one(r3, MemberV::MNum(k_delta(), delta));
        },
        PayloadV::ServerReadOk { value } => {
            lemma_apply_one(r3, MemberV::MNum(k_value(), value));
        },
        PayloadV::Send { key, msg } => {
            lemma_apply_two(r3, MemberV::MStr(k_key(), key), MemberV::MNum(k_msg(), msg));
        },
        PayloadV::SendOk { offset } => {
            lemma_apply_one(r3, MemberV::MNum(k_offset(), offset));
        },
        PayloadV::Poll { offsets } => {
            lemma_apply_one(r3, MemberV::MObjNum(k_offsets(), offsets));
        },
        PayloadV::PollOk { msgs } => {
            lemma_apply_one(r3, MemberV::MObjArrPairs(k_msgs(), msgs));
        },
        PayloadV::CommitOffsets { offsets } => {
            lemma_apply_one(r3, MemberV::MObjNum(k_offsets(), offsets));
        },
        PayloadV::ListCommittedOffsets { keys } => {
            lemma_apply_one(r3, MemberV::MArrStr(k_keys(), keys));
        },
        PayloadV::ListCommittedOffsetsOk { offsets } => {
            lemma_apply_one(r3, MemberV::MObjNum(k_offsets(), offsets));
        },
        PayloadV::KvRead { key } => {
            lemma_apply_one(r3, MemberV::MStr(k_key(), key));
        },
        PayloadV::Write { key, value } => {
            lemma_apply_two(r3, MemberV::MStr(k_key(), key), MemberV::MNum(k_value(), value));
        },
        PayloadV::Cas { key, from, to, put } => {
            lemma_apply_four(
                r3,
                MemberV::MStr(k_key(), key),
                MemberV::MNum(k_from(), from),
                MemberV::MNum(k_to(), to),
                MemberV::MBool(k_put(), put),
            );
        },
        PayloadV::Error { code, text } => {
            lemma_apply_two(r3, MemberV::MNum(k_code(), code), MemberV::MStr(k_text(), text));
        },
        _ => {
        },
    }
}

/// Folding every member of a body over the empty record yields the body's
/// ids and a record that validates back to the body's payload.
proof fn lemma_raw_of_body(b: BodyV)
    ensures
        ({
            let raw = apply_members(raw_empty(), members_of_body(b));
            &&& raw.msg_id == b.id
            &&& raw.in_reply_to == b.in_reply_to
            &&& raw_to_payload(raw) == Some(b.payload)
        }),
{
    lemma_key_facts();
    let l1 = seq![MemberV::MStr(k_type(), tag_of(b.payload))];
    let l2 = opt_num_members(k_msg_id(), b.id);
    let l3 = opt_num_members(k_in_reply_to(), b.in_reply_to);
    let l4 = members_of_payload(b.payload);
    lemma_apply_members_concat(raw_empty(), l1 + l2 + l3, l4);
    lemma_apply_members_concat(raw_empty(), l1 + l2, l3);
    lemma_apply_members_concat(raw_empty(), l1, l2);
    lemma_apply_one(raw_empty(), MemberV::MStr(k_type(), tag_of(b.payload)));
    let r1 = apply_member(raw_empty(), MemberV::MStr(k_type(), tag_of(b.payload)));
    lemma_apply_opt_num(r1, k_msg_id(), b.id);
    let r2 = apply_members(r1, l2);
    lemma_apply_opt_num(r2, k_in_reply_to(), b.in_reply_to);
    let r3 = apply_members(r2, l3);
    assert(r3.typ == Some(tag_of(b.payload)));
    assert(r3.msg_id == b.id);
    assert(r3.in_reply_to == b.in_reply_to);
    lemma_raw_payload_members(b.payload, r3);
}

/// Parsing the canonical text of a member list, closed by `}`, folds every
/// member into the record.
#[verifier::rlimit(60)]
proof fn lemma_parse_body_fields_enc(s: Seq<char>, i: int, l: Seq<MemberV>, acc: RawV)
    requires
        l.len() > 0,
        forall|k: int| 0 <= k < l.len() ==> member_ok(#[trigger] l[k]),
        has_at(s, i, enc_member(l[0]) + enc_members_rest(l.skip(1)) + seq!['}']),
    ensures
        parse_body_fields(s, i, acc) == Some(
            (
                apply_members(acc, l),
                i + (enc_member(l[0]) + enc_members_rest(l.skip(1))).len() + 1,
            ),
        ),
    decreases l.len(),
{
    let m0 = l[0];
    assert(member_ok(l[0]));
    let rest = l.skip(1);
    assert(forall|k: int| 0 <= k < rest.len() ==> rest[k] == l[k + 1]);
    let tail = enc_members_rest(rest) + seq!['}'];
    let key = member_key(m0);
    assert(enc_member(l[0]) + enc_members_rest(rest) + seq!['}'] =~= enc_string(key) + (seq![':']
        + (enc_member_val(m0) + tail)));
    lemma_has_at_split(s, i, enc_string(key), seq![':'] + (enc_member_val(m0) + tail));
    lemma_parse_string_enc(s, i, key);
    let j = i + enc_string(key).len();
    lemma_has_at_split(s, j, seq![':'], enc_member_val(m0) + tail);
    lemma_has_at_index(s, j, seq![':']);
    assert(s[j + 0] == seq![':'][0]);
    lemma_has_at_split(s, j + 1, enc_member_val(m0), tail);
    let v_end = j + 1 + enc_member_val(m0).len();
    lemma_has_at_index(s, v_end, tail);
    assert(s[v_end + 0] == tail[0]);
    assert(tail[0] == ',' || tail[0] == '}') by {
        if rest.len() == 0 {
            assert(tail[0] == '}');
        } else {
            assert(tail[0] == (seq![','] + enc_member(rest[0]) + enc_members_rest(
                rest.skip(1),
            ))[0]);
        }
    }
    lemma_parse_member_value_enc(s, j + 1, m0, acc);
    let acc2 = apply_member(acc, m0);
    if rest.len() == 0 {
        assert(s[v_end] == '}');
        assert(apply_members(acc, l) == apply_members(acc2, rest));
    } else {
        assert(tail =~= seq![','] + (enc_member(rest[0]) + enc_members_rest(rest.skip(1))
            + seq!['}']));
        lemma_has_at_split(s, v_end, seq![','], enc_member(rest[0]) + enc_members_rest(rest.skip(1))
            + seq!['}']);
        lemma_has_at_index(s, v_end, seq![',']);
        lemma_parse_body_fields_enc(s, v_end + 1, rest, acc2);
        assert(apply_members(acc, l) == apply_members(acc2, rest));
    }
}

/// Parsing the canonical text of a body yields the fold of its members.
proof fn lemma_parse_body_enc(s: Seq<char>, i: int, b: BodyV)
    requires
        has_at(s, i, enc_body(b)),
    ensures
        parse_body(s, i) == Some(
            (apply_members(raw_empty(), members_of_body(b)), i + enc_body(b).len()),
        ),
{
    let l = members_of_body(b);
    lemma_members_of_body_ok(b);
    assert(enc_body(b) =~= seq!['{'] + (enc_member(l[0]) + enc_members_rest(l.skip(1))
        + seq!['}']));
    lemma_has_at_split(s, i, seq!['{'], enc_member(l[0]) + enc_members_rest(l.skip(1)) + seq!['}']);
    lemma_has_at_index(s, i, seq!['{']);
    assert(s[i + 0] == seq!['{'][0]);
    lemma_parse_body_fields_enc(s, i + 1, l, raw_empty());
    assert(l[0] == MemberV::MStr(k_type(), tag_of(b.payload)));
    assert(enc_member(l[0])[0] == '"') by {
        assert(enc_member(l[0]) == enc_string(member_key(l[0])) + seq![':'] + enc_member_val(
            l[0],
        ));
    }
    lemma_has_at_index(s, i + 1, enc_member(l[0]) + enc_members_rest(l.skip(1)) + seq!['}']);
    assert(s[i + 1 + 0] == (enc_member(l[0]) + enc_members_rest(l.skip(1)) + seq!['}'])[0]);
    assert(s[i + 1] == '"');
}

/// Every member a body contributes has the value shape its key demands.
proof fn lemma_members_of_body_ok(b: BodyV)
    ensures
        forall|k: int|
            0 <= k < members_of_body(b).len() ==> member_ok(#[trigger] members_of_body(b)[k]),
{
    let l = members_of_body(b);
    let l1 = seq![MemberV::MStr(k_type(), tag_of(b.payload))];
    let l2 = opt_num_members(k_msg_id(), b.id);
    let l3 = opt_num_members(k_in_reply_to(), b.in_reply_to);
    let l4 = members_of_payload(b.payload);
    assert(member_ok(l1[0]));
    assert(forall|k: int| 0 <= k < l2.len() ==> member_ok(#[trigger] l2[k]));
    assert(forall|k: int| 0 <= k < l3.len() ==> member_ok(#[trigger] l3[k]));
    lemma_members_of_payload_ok(b.payload);
    assert forall|k: int| 0 <= k < l.len() implies member_ok(#[trigger] l[k]) by {
        if k < l1.len() {
            assert(l[k] == l1[k]);
        } else if k < l1.len() + l2.len() {
            assert(l[k] == l2[k - l1.len()]);
        } else if k < l1.len() + l2.len() + l3.len() {
            assert(l[k] == l3[k - l1.len() - l2.len()]);
        } else {
            assert(l[k] == l4[k - l1.len() - l2.len() - l3.len()]);
        }
    }
}

proof fn lemma_members_of_payload_ok(p: PayloadV)
    ensures
        forall|k: int|
            0 <= k < members_of_payload(p).len() ==> member_ok(
                #[trigger] members_of_payload(p)[k],
            ),
{
    let l = members_of_payload(p);
    assert forall|k: int| 0 <= k < l.len() implies member_ok(#[trigger] l[k]) by {
        match p {
            PayloadV::Init(i) => {
                assert(l[0] == MemberV::MStr(k_node_id(), i.node_id));
                assert(l[1] == MemberV::MArrStr(k_node_ids(), i.node_ids));
            },
            PayloadV::Send { key, msg } => {
                assert(l[0] == MemberV::MStr(k_key(), key));
                assert(l[1] == MemberV::MNum(k_msg(), msg));
            },
            PayloadV::Write { key, value } => {
                assert(l[0] == MemberV::MStr(k_key(), key));
                assert(l[1] == MemberV::MNum(k_value(), value));
            },
            PayloadV::Cas { key, from, to, put } => {
                assert(l[0] == MemberV::MStr(k_key(), key));
                assert(l[1] == MemberV::MNum(k_from(), from));
                assert(l[2] == MemberV::MNum(k_to(), to));
                assert(l[3] == MemberV::MBool(k_put(), put));
            },
            PayloadV::Error { code, text } => {
                assert(l[0] == MemberV::MNum(k_code(), code));
                assert(l[1] == MemberV::MStr(k_text(), text));
            },
            _ => {
            },
        }
    }
}

/// The body member text for `b`, closed by the final brace.
spec fn env_txt_body(b: BodyV) -> Seq<char> {
    enc_string(k_body()) + (seq![':'] + (enc_body(b) + seq!['}']))
}

/// The dest member text followed by the body member.
spec fn env_txt_dst(dst: Seq<char>, b: BodyV) -> Seq<char> {
    enc_string(k_dest()) + (seq![':'] + (enc_string(dst) + (seq![','] + env_txt_body(b))))
}

/// The src member text followed by the rest of the envelope.
spec fn env_txt_src(src: Seq<char>, dst: Seq<char>, b: BodyV) -> Seq<char> {
    enc_string(k_src()) + (seq![':'] + (enc_string(src) + (seq![','] + env_txt_dst(dst, b))))
}

proof fn lemma_env_body_member(
    s: Seq<char>,
    i: int,
    b: BodyV,
    src: Option<Seq<char>>,
    dst: Option<Seq<char>>,
)
    requires
        has_at(s, i, env_txt_body(b)),
        i + env_txt_body(b).len() == s.len(),
    ensures
        parse_env_fields(s, i, src, dst, None) == Some(
            ((src, dst, Some(apply_members(raw_empty(), members_of_body(b)))), s.len() as int),
        ),
{
    lemma_key_facts();
    lemma_has_at_split(s, i, enc_string(k_body()), seq![':'] + (enc_body(b) + seq!['}']));
    lemma_parse_string_enc(s, i, k_body());
    let j: int = i + enc_string(k_body()).len() as int;
    lemma_has_at_split(s, j, seq![':'], enc_body(b) + seq!['}']);
    lemma_has_at_index(s, j, seq![':']);
    assert(s[j + 0] == seq![':'][0]);
    lemma_has_at_split(s, j + 1, enc_body(b), seq!['}']);
    lemma_parse_body_enc(s, j + 1, b);
    let j2: int = j + 1 + enc_body(b).len() as int;
    lemma_has_at_index(s, j2, seq!['}']);
    assert(s[j2 + 0] == seq!['}'][0]);
    assert(j2 + 1 == s.len());
}

proof fn lemma_env_dst_member(s: Seq<char>, i: int, dst: Seq<char>, b: BodyV, src: Option<Seq<char>>)
    requires
        has_at(s, i, env_txt_dst(dst, b)),
        i + env_txt_dst(dst, b).len() == s.len(),
    ensures
        parse_env_fields(s, i, src, None, None) == Some(
            ((src, Some(dst), Some(apply_members(raw_empty(), members_of_body(b)))), s.len() as int),
        ),
{
    lemma_key_facts();
    lemma_has_at_split(s, i, enc_string(k_dest()), seq![':'] + (enc_string(dst) + (seq![',']
        + env_txt_body(b))));
    lemma_parse_string_enc(s, i, k_dest());
    let j: int = i + enc_string(k_dest()).len() as int;
    lemma_has_at_split(s, j, seq![':'], enc_string(dst) + (seq![','] + env_txt_body(b)));
    lemma_has_at_index(s, j, seq![':']);
    assert(s[j + 0] == seq![':'][0]);
    lemma_has_at_split(s, j + 1, enc_string(dst), seq![','] + env_txt_body(b));
    lemma_parse_string_enc(s, j + 1, dst);
    let j2: int = j + 1 + enc_string(dst).len() as int;
    lemma_has_at_split(s, j2, seq![','], env_txt_body(b));
    lemma_has_at_index(s, j2, seq![',']);
    assert(s[j2 + 0] == seq![','][0]);
    lemma_env_body_member(s, j2 + 1, b, src, Some(dst));
}

proof fn lemma_env_src_member(s: Seq<char>, i: int, src: Seq<char>, dst: Seq<char>, b: BodyV)
    requires
        has_at(s, i, env_txt_src(src, dst, b)),
        i + env_txt_src(src, dst, b).len() == s.len(),
    ensures
        parse_env_fields(s, i, None, None, None) == Some(
            (
                (Some(src), Some(dst), Some(apply_members(raw_empty(), members_of_body(b)))),
                s.len() as int,
            ),
        ),
{
    lemma_key_facts();
    lemma_has_at_split(s, i, enc_string(k_src()), seq![':'] + (enc_string(src) + (seq![',']
        + env_txt_dst(dst, b))));
    lemma_parse_string_enc(s, i, k_src());
    let j: int = i + enc_string(k_src()).len() as int;
    lemma_has_at_split(s, j, seq![':'], enc_string(src) + (seq![','] + env_txt_dst(dst, b)));
    lemma_has_at_index(s, j, seq![':']);
    assert(s[j + 0] == seq![':'][0]);
    lemma_has_at_split(s, j + 1, enc_string(src), seq![','] + env_txt_dst(dst, b));
    lemma_parse_string_enc(s, j + 1, src);
    let j2: int = j + 1 + enc_string(src).len() as int;
    lemma_has_at_split(s, j2, seq![','], env_txt_dst(dst, b));
    lemma_has_at_index(s, j2, seq![',']);
    assert(s[j2 + 0] == seq![','][0]);
    lemma_env_dst_member(s, j2 + 1, dst, b, Some(src));
}

/// Round trip: decoding the canonical encoding of any message yields the
/// original message.
pub proof fn lemma_dec_enc_message(m: MessageV)
    ensures
        dec_message(enc_message(m)) == Some(m),
{
    lemma_key_facts();
    let s = enc_message(m);
    assert(s =~= seq!['{'] + env_txt_src(m.src, m.dst, m.body));
    assert(has_at(s, 0, s)) by {
        assert(s.subrange(0, s.len() as int) =~= s);
    }
    lemma_has_at_split(s, 0, seq!['{'], env_txt_src(m.src, m.dst, m.body));
    lemma_has_at_index(s, 0, seq!['{']);
    assert(s[0] == seq!['{'][0]);
    lemma_env_src_member(s, 1, m.src, m.dst, m.body);
    lemma_raw_of_body(m.body);
    assert(s[1] == '"') by {
        lemma_has_at_split(s, 1, enc_string(k_src()), seq![':'] + (enc_string(m.src) + (seq![',']
            + env_txt_dst(m.dst, m.body))));
        lemma_has_at_index(s, 1, enc_string(k_src()));
        assert(s[1 as int + 0] == enc_string(k_src())[0]);
    }
    assert(dec_message(s) == Some(
        MessageV {
            src: m.src,
            dst: m.dst,
            body: BodyV {
                id: m.body.id,
                in_reply_to: m.body.in_reply_to,
                payload: m.body.payload,
            },
        },
    ));
    assert(BodyV { id: m.body.id, in_reply_to: m.body.in_reply_to, payload: m.body.payload }
        == m.body);
    assert(MessageV { src: m.src, dst: m.dst, body: m.body } == m);
}

} // verus!