//! The wire codec, executable side: one line of text from a message and a
//! message from one line of text, each proved equal to the specification
//! codec, so that the round-trip law carries over to the running code.

use vstd::prelude::*;

use crate::codec::apply_member;
use crate::codec::dec_message;
use crate::codec::parse_body;
use crate::codec::parse_body_fields;
use crate::codec::parse_env_fields;
use crate::codec::parse_member_value;
use crate::codec::raw_empty;
use crate::codec::raw_to_payload;
use crate::codec::RawV;
use crate::codec::enc_body;
use crate::codec::enc_member;
use crate::codec::enc_member_val;
use crate::codec::enc_members_rest;
use crate::codec::enc_message;
use crate::codec::k_body;
use crate::codec::k_code;
use crate::codec::k_delta;
use crate::codec::k_dest;
use crate::codec::k_echo;
use crate::codec::k_from;
use crate::codec::k_id;
use crate::codec::k_in_reply_to;
use crate::codec::k_key;
use crate::codec::k_keys;
use crate::codec::k_message;
use crate::codec::k_messages;
use crate::codec::k_msg;
use crate::codec::k_msg_id;
use crate::codec::k_msgs;
use crate::codec::k_node_id;
use crate::codec::k_node_ids;
use crate::codec::k_offset;
use crate::codec::k_offsets;
use crate::codec::k_put;
use crate::codec::k_src;
use crate::codec::k_text;
use crate::codec::k_to;
use crate::codec::k_topology;
use crate::codec::k_type;
use crate::codec::k_value;
use crate::codec::members_of_body;
use crate::codec::members_of_payload;
use crate::codec::opt_num_members;
use crate::codec::tag_of;
use crate::codec::lemma_key_facts;
use crate::codec::lemma_tag_facts;
use crate::codec::MemberV;
use crate::json::enc_string;
use crate::json::push_bool;
use crate::json::push_string;
use crate::json::parse_string_exec;
use crate::json::parse_usize_exec;
use crate::json::parse_bool_exec;
use crate::json::push_usize;
use crate::json_coll::push_arr_pairs;
use crate::json_coll::push_arr_string;
use crate::json_coll::push_arr_usize;
use crate::json_coll::push_obj_arr_pairs;
use crate::json_coll::push_obj_arr_string;
use crate::json_coll::parse_arr_string_exec;
use crate::json_coll::parse_arr_usize_exec;
use crate::json_coll::parse_obj_arr_pairs_exec;
use crate::json_coll::parse_obj_arr_string_exec;
use crate::json_coll::parse_obj_usize_exec;
use crate::json_coll::skip_value_exec;
use crate::json_coll::push_obj_usize;
use crate::protocol::Body;
use crate::protocol::InitV;
use crate::protocol::PayloadV;
use crate::protocol::Message;
use crate::protocol::Payload;

verus! {

/// Relies on `String: FromIterator<char>`: collecting characters yields the
/// string of exactly those characters in order.
#[verifier::external_body]
pub fn chars_to_string(v: Vec<char>) -> (r: String)
    ensures
        r@ == v@,
{
    v.into_iter().collect()
}

proof fn lemma_enc_members_rest_concat(l1: Seq<MemberV>, l2: Seq<MemberV>)
    ensures
        enc_members_rest(l1 + l2) == enc_members_rest(l1) + enc_members_rest(l2),
    decreases l1.len(),
{
    if l1.len() == 0 {
        assert(l1 + l2 =~= l2);
        assert(enc_members_rest(l1) + enc_members_rest(l2) =~= enc_members_rest(l2));
    } else {
        assert((l1 + l2).skip(1) =~= l1.skip(1) + l2);
        assert((l1 + l2)[0] == l1[0]);
        lemma_enc_members_rest_concat(l1.skip(1), l2);
        assert(seq![','] + enc_member(l1[0]) + (enc_members_rest(l1.skip(1)) + enc_members_rest(
            l2,
        )) =~= (seq![','] + enc_member(l1[0]) + enc_members_rest(l1.skip(1))) + enc_members_rest(
            l2,
        ));
    }
}

proof fn lemma_enc_members_rest_one(m: MemberV)
    ensures
        enc_members_rest(seq![m]) == seq![','] + enc_member(m),
{
    reveal_with_fuel(enc_members_rest, 2);
    assert(seq![m].skip(1) =~= Seq::<MemberV>::empty());
    assert(seq![','] + enc_member(m) + Seq::<char>::empty() =~= seq![','] + enc_member(m));
}

proof fn lemma_enc_members_rest_two(a: MemberV, b: MemberV)
    ensures
        enc_members_rest(seq![a, b]) == seq![','] + enc_member(a) + (seq![','] + enc_member(b)),
{
    assert(seq![a, b].skip(1) =~= seq![b]);
    lemma_enc_members_rest_one(b);
}

proof fn lemma_enc_members_rest_four(a: MemberV, b: MemberV, c: MemberV, d: MemberV)
    ensures
        enc_members_rest(seq![a, b, c, d]) == seq![','] + enc_member(a) + (seq![','] + enc_member(
            b,
        ) + (seq![','] + enc_member(c) + (seq![','] + enc_member(d)))),
{
    reveal_with_fuel(enc_members_rest, 5);
    assert(seq![a, b, c, d].skip(1) =~= seq![b, c, d]);
    assert(seq![b, c, d].skip(1) =~= seq![c, d]);
    assert(seq![c, d].skip(1) =~= seq![d]);
    lemma_enc_members_rest_one(d);
    assert(enc_members_rest(seq![a, b, c, d]) =~= seq![','] + enc_member(a) + (seq![',']
        + enc_member(b) + (seq![','] + enc_member(c) + (seq![','] + enc_member(d)))));
}

/// Appends the canonical JSON string of the payload's type tag.
fn push_tag(out: &mut Vec<char>, p: &Payload)
    ensures
        final(out)@ == old(out)@ + enc_string(tag_of(p@)),
{
    match p {
        Payload::Init(..) => {
            push_string(out, "init");
            proof {
                reveal_strlit("init");
                assert("init"@ =~= tag_of(p@));
            }
        },
        Payload::InitOk => {
            push_string(out, "init_ok");
            proof {
                reveal_strlit("init_ok");
                assert("init_ok"@ =~= tag_of(p@));
            }
        },
        Payload::Echo { .. } => {
            push_string(out, "echo");
            proof {
                reveal_strlit("echo");
                assert("echo"@ =~= tag_of(p@));
            }
        },
        Payload::EchoOk { .. } => {
            push_string(out, "echo_ok");
            proof {
                reveal_strlit("echo_ok");
                assert("echo_ok"@ =~= tag_of(p@));
            }
        },
        Payload::Generate => {
            push_string(out, "generate");
            proof {
                reveal_strlit("generate");
                assert("generate"@ =~= tag_of(p@));
            }
        },
        Payload::GenerateOk { .. } => {
            push_string(out, "generate_ok");
            proof {
                reveal_strlit("generate_ok");
                assert("generate_ok"@ =~= tag_of(p@));
            }
        },
        Payload::Broadcast { .. } => {
            push_string(out, "broadcast");
            proof {
                reveal_strlit("broadcast");
                assert("broadcast"@ =~= tag_of(p@));
            }
        },
        Payload::BroadcastOk => {
            push_string(out, "broadcast_ok");
            proof {
                reveal_strlit("broadcast_ok");
                assert("broadcast_ok"@ =~= tag_of(p@));
            }
        },
        Payload::BroadcastUnAcked => {
            push_string(out, "broadcast_un_acked");
            proof {
                reveal_strlit("broadcast_un_acked");
                assert("broadcast_un_acked"@ =~= tag_of(p@));
            }
        },
        Payload::Read => {
            push_string(out, "read");
            proof {
                reveal_strlit("read");
                assert("read"@ =~= tag_of(p@));
            }
        },
        Payload::ReadOk { .. } => {
            push_string(out, "read_ok");
            proof {
                reveal_strlit("read_ok");
                assert("read_ok"@ =~= tag_of(p@));
            }
        },
        Payload::ReadOkMessages { .. } => {
            push_string(out, "read_ok");
            proof {
                reveal_strlit("read_ok");
                assert("read_ok"@ =~= tag_of(p@));
            }
        },
        Payload::Topology { .. } => {
            push_string(out, "topology");
            proof {
                reveal_strlit("topology");
                assert("topology"@ =~= tag_of(p@));
            }
        },
        Payload::TopologyOk => {
            push_string(out, "topology_ok");
            proof {
                reveal_strlit("topology_ok");
                assert("topology_ok"@ =~= tag_of(p@));
            }
        },
        Payload::Add { .. } => {
            push_string(out, "add");
            proof {
                reveal_strlit("add");
                assert("add"@ =~= tag_of(p@));
            }
        },
        Payload::AddOk => {
            push_string(out, "add_ok");
            proof {
                reveal_strlit("add_ok");
                assert("add_ok"@ =~= tag_of(p@));
            }
        },
        Payload::ServerRead => {
            push_string(out, "server_read");
            proof {
                reveal_strlit("server_read");
                assert("server_read"@ =~= tag_of(p@));
            }
        },
        Payload::ServerReadOk { .. } => {
            push_string(out, "server_read_ok");
            proof {
                reveal_strlit("server_read_ok");
                assert("server_read_ok"@ =~= tag_of(p@));
            }
        },
        Payload::Send { .. } => {
            push_string(out, "send");
            proof {
                reveal_strlit("send");
                assert("send"@ =~= tag_of(p@));
            }
        },
        Payload::SendOk { .. } => {
            push_string(out, "send_ok");
            proof {
                reveal_strlit("send_ok");
                assert("send_ok"@ =~= tag_of(p@));
            }
        },
        Payload::Poll { .. } => {
            push_string(out, "poll");
            proof {
                reveal_strlit("poll");
                assert("poll"@ =~= tag_of(p@));
            }
        },
        Payload::PollOk { .. } => {
            push_string(out, "poll_ok");
            proof {
                reveal_strlit("poll_ok");
                assert("poll_ok"@ =~= tag_of(p@));
            }
        },
        Payload::CommitOffsets { .. } => {
            push_string(out, "commit_offsets");
            proof {
                reveal_strlit("commit_offsets");
                assert("commit_offsets"@ =~= tag_of(p@));
            }
        },
        Payload::CommitOffsetsOk => {
            push_string(out, "commit_offsets_ok");
            proof {
                reveal_strlit("commit_offsets_ok");
                assert("commit_offsets_ok"@ =~= tag_of(p@));
            }
        },
        Payload::ListCommittedOffsets { .. } => {
            push_string(out, "list_committed_offsets");
            proof {
                reveal_strlit("list_committed_offsets");
                assert("list_committed_offsets"@ =~= tag_of(p@));
            }
        },
        Payload::ListCommittedOffsetsOk { .. } => {
            push_string(out, "list_committed_offsets_ok");
            proof {
                reveal_strlit("list_committed_offsets_ok");
                assert("list_committed_offsets_ok"@ =~= tag_of(p@));
            }
        },
        Payload::KvRead { .. } => {
            push_string(out, "read");
            proof {
                reveal_strlit("read");
                assert("read"@ =~= tag_of(p@));
            }
        },
        Payload::Write { .. } => {
            push_string(out, "write");
            proof {
                reveal_strlit("write");
                assert("write"@ =~= tag_of(p@));
            }
        },
        Payload::WriteOk => {
            push_string(out, "write_ok");
            proof {
                reveal_strlit("write_ok");
                assert("write_ok"@ =~= tag_of(p@));
            }
        },
        Payload::Cas { .. } => {
            push_string(out, "cas");
            proof {
                reveal_strlit("cas");
                assert("cas"@ =~= tag_of(p@));
            }
        },
        Payload::CasOk => {
            push_string(out, "cas_ok");
            proof {
                reveal_strlit("cas_ok");
                assert("cas_ok"@ =~= tag_of(p@));
            }
        },
        Payload::Error { .. } => {
            push_string(out, "error");
            proof {
                reveal_strlit("error");
                assert("error"@ =~= tag_of(p@));
            }
        },
    }
}

/// Appends one `,"key":` piece for a known field name.
fn push_field_key(out: &mut Vec<char>, lit: &str, Ghost(k): Ghost<Seq<char>>)
    requires
        lit@ == k,
    ensures
        final(out)@ == old(out)@ + seq![','] + enc_string(k) + seq![':'],
{
    out.push(',');
    push_string(out, lit);
    out.push(':');
    assert(final(out)@ =~= old(out)@ + seq![','] + enc_string(k) + seq![':']);
}

/// Appends one `,"key":string` member and states it as a member list.
fn push_m_str(out: &mut Vec<char>, lit: &str, Ghost(k): Ghost<Seq<char>>, s: &String)
    requires
        lit@ == k,
    ensures
        final(out)@ == old(out)@ + enc_members_rest(seq![MemberV::MStr(k, s@)]),
{
    push_field_key(out, lit, Ghost(k));
    push_string(out, s.as_str());
    proof {
        lemma_enc_members_rest_one(MemberV::MStr(k, s@));
        assert(final(out)@ =~= old(out)@ + enc_members_rest(seq![MemberV::MStr(k, s@)]));
    }
}

/// Appends one `,"key":number` member and states it as a member list.
fn push_m_num(out: &mut Vec<char>, lit: &str, Ghost(k): Ghost<Seq<char>>, n: usize)
    requires
        lit@ == k,
    ensures
        final(out)@ == old(out)@ + enc_members_rest(seq![MemberV::MNum(k, n)]),
{
    push_field_key(out, lit, Ghost(k));
    push_usize(out, n);
    proof {
        lemma_enc_members_rest_one(MemberV::MNum(k, n));
        assert(final(out)@ =~= old(out)@ + enc_members_rest(seq![MemberV::MNum(k, n)]));
    }
}

fn push_m_str_num(
    out: &mut Vec<char>,
    lit1: &str,
    Ghost(k1): Ghost<Seq<char>>,
    s: &String,
    lit2: &str,
    Ghost(k2): Ghost<Seq<char>>,
    n: usize,
)
    requires
        lit1@ == k1,
        lit2@ == k2,
    ensures
        final(out)@ == old(out)@ + enc_members_rest(
            seq![MemberV::MStr(k1, s@), MemberV::MNum(k2, n)],
        ),
{
    push_field_key(out, lit1, Ghost(k1));
    push_string(out, s.as_str());
    push_field_key(out, lit2, Ghost(k2));
    push_usize(out, n);
    proof {
        lemma_enc_members_rest_two(MemberV::MStr(k1, s@), MemberV::MNum(k2, n));
        assert(final(out)@ =~= old(out)@ + enc_members_rest(
            seq![MemberV::MStr(k1, s@), MemberV::MNum(k2, n)],
        ));
    }
}

fn push_m_num_str(
    out: &mut Vec<char>,
    lit1: &str,
    Ghost(k1): Ghost<Seq<char>>,
    n: usize,
    lit2: &str,
    Ghost(k2): Ghost<Seq<char>>,
    s: &String,
)
    requires
        lit1@ == k1,
        lit2@ == k2,
    ensures
        final(out)@ == old(out)@ + enc_members_rest(
            seq![MemberV::MNum(k1, n), MemberV::MStr(k2, s@)],
        ),
{
    push_field_key(out, lit1, Ghost(k1));
    push_usize(out, n);
    push_field_key(out, lit2, Ghost(k2));
    push_string(out, s.as_str());
    proof {
        lemma_enc_members_rest_two(MemberV::MNum(k1, n), MemberV::MStr(k2, s@));
        assert(final(out)@ =~= old(out)@ + enc_members_rest(
            seq![MemberV::MNum(k1, n), MemberV::MStr(k2, s@)],
        ));
    }
}

fn push_m_init(out: &mut Vec<char>, node_id: &String, node_ids: &Vec<String>)
    ensures
        final(out)@ == old(out)@ + enc_members_rest(
            seq![
                MemberV::MStr(k_node_id(), node_id@),
                MemberV::MArrStr(k_node_ids(), node_ids.deep_view()),
            ],
        ),
{
    proof {
        reveal_strlit("node_id");
        assert("node_id"@ =~= k_node_id());
        reveal_strlit("node_ids");
        assert("node_ids"@ =~= k_node_ids());
    }
    push_field_key(out, "node_id", Ghost(k_node_id()));
    push_string(out, node_id.as_str());
    push_field_key(out, "node_ids", Ghost(k_node_ids()));
    push_arr_string(out, node_ids);
    proof {
        let a = MemberV::MStr(k_node_id(), node_id@);
        let b = MemberV::MArrStr(k_node_ids(), node_ids.deep_view());
        lemma_enc_members_rest_two(a, b);
        assert(final(out)@ =~= old(out)@ + enc_members_rest(seq![a, b]));
    }
}

fn push_m_arr_num(out: &mut Vec<char>, lit: &str, Ghost(k): Ghost<Seq<char>>, v: &Vec<usize>)
    requires
        lit@ == k,
    ensures
        final(out)@ == old(out)@ + enc_members_rest(seq![MemberV::MArrNum(k, v@)]),
{
    push_field_key(out, lit, Ghost(k));
    push_arr_usize(out, v);
    proof {
        lemma_enc_members_rest_one(MemberV::MArrNum(k, v@));
        assert(final(out)@ =~= old(out)@ + enc_members_rest(seq![MemberV::MArrNum(k, v@)]));
    }
}

fn push_m_arr_str(out: &mut Vec<char>, lit: &str, Ghost(k): Ghost<Seq<char>>, v: &Vec<String>)
    requires
        lit@ == k,
    ensures
        final(out)@ == old(out)@ + enc_members_rest(seq![MemberV::MArrStr(k, v.deep_view())]),
{
    push_field_key(out, lit, Ghost(k));
    push_arr_string(out, v);
    proof {
        lemma_enc_members_rest_one(MemberV::MArrStr(k, v.deep_view()));
        assert(final(out)@ =~= old(out)@ + enc_members_rest(
            seq![MemberV::MArrStr(k, v.deep_view())],
        ));
    }
}

fn push_m_obj_num(
    out: &mut Vec<char>,
    lit: &str,
    Ghost(k): Ghost<Seq<char>>,
    v: &Vec<(String, usize)>,
)
    requires
        lit@ == k,
    ensures
        final(out)@ == old(out)@ + enc_members_rest(seq![MemberV::MObjNum(k, v.deep_view())]),
{
    push_field_key(out, lit, Ghost(k));
    push_obj_usize(out, v);
    proof {
        lemma_enc_members_rest_one(MemberV::MObjNum(k, v.deep_view()));
        assert(final(out)@ =~= old(out)@ + enc_members_rest(
            seq![MemberV::MObjNum(k, v.deep_view())],
        ));
    }
}

fn push_m_obj_arr_str(out: &mut Vec<char>, v: &Vec<(String, Vec<String>)>)
    ensures
        final(out)@ == old(out)@ + enc_members_rest(
            seq![MemberV::MObjArrStr(k_topology(), v.deep_view())],
        ),
{
    proof {
        reveal_strlit("topology");
        assert("topology"@ =~= k_topology());
    }
    push_field_key(out, "topology", Ghost(k_topology()));
    push_obj_arr_string(out, v);
    proof {
        lemma_enc_members_rest_one(MemberV::MObjArrStr(k_topology(), v.deep_view()));
        assert(final(out)@ =~= old(out)@ + enc_members_rest(
            seq![MemberV::MObjArrStr(k_topology(), v.deep_view())],
        ));
    }
}

fn push_m_obj_arr_pairs(out: &mut Vec<char>, v: &Vec<(String, Vec<(usize, usize)>)>)
    ensures
        final(out)@ == old(out)@ + enc_members_rest(
            seq![MemberV::MObjArrPairs(k_msgs(), v.deep_view())],
        ),
{
    proof {
        reveal_strlit("msgs");
        assert("msgs"@ =~= k_msgs());
    }
    push_field_key(out, "msgs", Ghost(k_msgs()));
    push_obj_arr_pairs(out, v);
    proof {
        lemma_enc_members_rest_one(MemberV::MObjArrPairs(k_msgs(), v.deep_view()));
        assert(final(out)@ =~= old(out)@ + enc_members_rest(
            seq![MemberV::MObjArrPairs(k_msgs(), v.deep_view())],
        ));
    }
}

#[verifier::rlimit(100)]
#[verifier::spinoff_prover]
fn push_m_cas(out: &mut Vec<char>, key: &String, from: usize, to: usize, put: bool)
    ensures
        final(out)@ == old(out)@ + enc_members_rest(
            seq![
                MemberV::MStr(k_key(), key@),
                MemberV::MNum(k_from(), from),
                MemberV::MNum(k_to(), to),
                MemberV::MBool(k_put(), put),
            ],
        ),
{
    proof {
        reveal_strlit("key");
        assert("key"@ =~= k_key());
        reveal_strlit("from");
        assert("from"@ =~= k_from());
        reveal_strlit("to");
        assert("to"@ =~= k_to());
        reveal_strlit("create_if_not_exists");
        assert("create_if_not_exists"@ =~= k_put());
    }
    push_field_key(out, "key", Ghost(k_key()));
    push_string(out, key.as_str());
    push_field_key(out, "from", Ghost(k_from()));
    push_usize(out, from);
    push_field_key(out, "to", Ghost(k_to()));
    push_usize(out, to);
    push_field_key(out, "create_if_not_exists", Ghost(k_put()));
    push_bool(out, put);
    proof {
        lemma_enc_members_rest_four(
            MemberV::MStr(k_key(), key@),
            MemberV::MNum(k_from(), from),
            MemberV::MNum(k_to(), to),
            MemberV::MBool(k_put(), put),
        );
        assert(final(out)@ =~= old(out)@ + enc_members_rest(
            seq![
                MemberV::MStr(k_key(), key@),
                MemberV::MNum(k_from(), from),
                MemberV::MNum(k_to(), to),
                MemberV::MBool(k_put(), put),
            ],
        ));
    }
}

/// Appends the payload's own members, each with its leading comma.
#[verifier::rlimit(100)]
#[verifier::spinoff_prover]
fn push_payload_fields(out: &mut Vec<char>, p: &Payload)
    ensures
        final(out)@ == old(out)@ + enc_members_rest(members_of_payload(p@)),
{
    proof {
        reveal_strlit("echo");
        assert("echo"@ =~= k_echo());
        reveal_strlit("id");
        assert("id"@ =~= k_id());
        reveal_strlit("message");
        assert("message"@ =~= k_message());
        reveal_strlit("messages");
        assert("messages"@ =~= k_messages());
        reveal_strlit("value");
        assert("value"@ =~= k_value());
        reveal_strlit("delta");
        assert("delta"@ =~= k_delta());
        reveal_strlit("key");
        assert("key"@ =~= k_key());
        reveal_strlit("msg");
        assert("msg"@ =~= k_msg());
        reveal_strlit("offset");
        assert("offset"@ =~= k_offset());
        reveal_strlit("offsets");
        assert("offsets"@ =~= k_offsets());
        reveal_strlit("keys");
        assert("keys"@ =~= k_keys());
        reveal_strlit("code");
        assert("code"@ =~= k_code());
        reveal_strlit("text");
        assert("text"@ =~= k_text());
    }
    match p {
        Payload::Init(init) => {
            push_m_init(out, &init.node_id, &init.node_ids);
        },
        Payload::Echo { echo } => {
            push_m_str(out, "echo", Ghost(k_echo()), echo);
        },
        Payload::EchoOk { echo } => {
            push_m_str(out, "echo", Ghost(k_echo()), echo);
        },
        Payload::GenerateOk { guid } => {
            push_m_str(out, "id", Ghost(k_id()), guid);
        },
        Payload::Broadcast { message } => {
            push_m_num(out, "message", Ghost(k_message()), *message);
        },
        Payload::ReadOk { value } => {
            push_m_num(out, "value", Ghost(k_value()), *value);
        },
        Payload::ReadOkMessages { messages } => {
            push_m_arr_num(out, "messages", Ghost(k_messages()), messages);
        },
        Payload::Topology { topology } => {
            push_m_obj_arr_str(out, topology);
        },
        Payload::Add { delta } => {
            push_m_num(out, "delta", Ghost(k_delta()), *delta);
        },
        Payload::ServerReadOk { value } => {
            push_m_num(out, "value", Ghost(k_value()), *value);
        },
        Payload::Send { key, msg } => {
            push_m_str_num(out, "key", Ghost(k_key()), key, "msg", Ghost(k_msg()), *msg);
        },
        Payload::SendOk { offset } => {
            push_m_num(out, "offset", Ghost(k_offset()), *offset);
        },
        Payload::Poll { offsets } => {
            push_m_obj_num(out, "offsets", Ghost(k_offsets()), offsets);
        },
        Payload::PollOk { msgs } => {
            push_m_obj_arr_pairs(out, msgs);
        },
        Payload::CommitOffsets { offsets } => {
            push_m_obj_num(out, "offsets", Ghost(k_offsets()), offsets);
        },
        Payload::ListCommittedOffsets { keys } => {
            push_m_arr_str(out, "keys", Ghost(k_keys()), keys);
        },
        Payload::ListCommittedOffsetsOk { offsets } => {
            push_m_obj_num(out, "offsets", Ghost(k_offsets()), offsets);
        },
        Payload::KvRead { key } => {
            push_m_str(out, "key", Ghost(k_key()), key);
        },
        Payload::Write { key, value } => {
            push_m_str_num(out, "key", Ghost(k_key()), key, "value", Ghost(k_value()), *value);
        },
        Payload::Cas { key, from, to, put } => {
            push_m_cas(out, key, *from, *to, *put);
        },
        Payload::Error { code, text } => {
            push_m_num_str(out, "code", Ghost(k_code()), *code, "text", Ghost(k_text()), text);
        },
        _ => {
            proof {
                assert(members_of_payload(p@) =~= Seq::<MemberV>::empty());
                assert(final(out)@ =~= old(out)@ + enc_members_rest(members_of_payload(p@)));
            }
        },
    }
}

/// Appends the canonical text of a body object.
#[verifier::rlimit(100)]
#[verifier::spinoff_prover]
fn push_body(out: &mut Vec<char>, b: &Body)
    ensures
        final(out)@ == old(out)@ + enc_body(b@),
{
    proof {
        reveal_strlit("type");
        assert("type"@ =~= k_type());
        reveal_strlit("msg_id");
        assert("msg_id"@ =~= k_msg_id());
        reveal_strlit("in_reply_to");
        assert("in_reply_to"@ =~= k_in_reply_to());
    }
    out.push('{');
    push_string(out, "type");
    out.push(':');
    push_tag(out, &b.payload);
    match &b.id {
        Some(n) => {
            push_field_key(out, "msg_id", Ghost(k_msg_id()));
            push_usize(out, *n);
        },
        None => {
        },
    }
    match &b.in_reply_to {
        Some(n) => {
            push_field_key(out, "in_reply_to", Ghost(k_in_reply_to()));
            push_usize(out, *n);
        },
        None => {
        },
    }
    push_payload_fields(out, &b.payload);
    out.push('}');
    proof {
        let l1 = seq![MemberV::MStr(k_type(), tag_of(b.payload@))];
        let l2 = opt_num_members(k_msg_id(), b.id);
        let l3 = opt_num_members(k_in_reply_to(), b.in_reply_to);
        let l4 = members_of_payload(b.payload@);
        let l = members_of_body(b@);
        assert(l == l1 + l2 + l3 + l4);
        assert(l.len() > 0);
        assert(l[0] == l1[0]);
        assert(l.skip(1) =~= l2 + l3 + l4);
        lemma_enc_members_rest_concat(l2 + l3, l4);
        lemma_enc_members_rest_concat(l2, l3);
        match b.id {
            Some(n) => {
                lemma_enc_members_rest_one(MemberV::MNum(k_msg_id(), n));
            },
            None => {
            },
        }
        match b.in_reply_to {
            Some(n) => {
                lemma_enc_members_rest_one(MemberV::MNum(k_in_reply_to(), n));
            },
            None => {
            },
        }
        assert(final(out)@ =~= old(out)@ + enc_body(b@));
    }
}

/// Encodes a message as its canonical wire line: one JSON object, no
/// surrounding whitespace, members in canonical order.
pub fn encode_message(m: &Message) -> (out: String)
    ensures
        out@ == enc_message(m@),
{
    let mut v: Vec<char> = Vec::new();
    v.push('{');
    push_string(&mut v, "src");
    proof {
        reveal_strlit("src");
        assert("src"@ =~= k_src());
    }
    v.push(':');
    push_string(&mut v, m.src.as_str());
    v.push(',');
    push_string(&mut v, "dest");
    proof {
        reveal_strlit("dest");
        assert("dest"@ =~= k_dest());
    }
    v.push(':');
    push_string(&mut v, m.dst.as_str());
    v.push(',');
    push_string(&mut v, "body");
    proof {
        reveal_strlit("body");
        assert("body"@ =~= k_body());
    }
    v.push(':');
    push_body(&mut v, &m.body);
    v.push('}');
    proof {
        assert(v@ =~= enc_message(m@));
    }
    chars_to_string(v)
}

// ---------------------------------------------------------------------------
// The executable decoder, proved equal to the specification decoder
// ---------------------------------------------------------------------------

/// Compares collected characters against a literal.
fn chars_eq_lit(v: &Vec<char>, s: &str) -> (r: bool)
    ensures
        r == (v@ == s@),
{
    let n = s.unicode_len();
    if v.len() != n {
        proof {
            if v@ == s@ {
                assert(v@.len() == s@.len());
            }
        }
        return false;
    }
    let mut i: usize = 0;
    while i < n
        invariant
            0 <= i <= n,
            n == s@.len(),
            v@.len() == n,
            forall|k: int| 0 <= k < i ==> v@[k] == s@[k],
        decreases n - i,
    {
        if v[i] != s.get_char(i) {
            proof {
                if v@ == s@ {
                    assert(v@[i as int] == s@[i as int]);
                }
            }
            return false;
        }
        i = i + 1;
    }
    proof {
        assert(v@ =~= s@);
    }
    true
}

/// The executable image of the raw body fields; `raw_x_view` ties it to
/// the specification record.
struct RawX {
    typ: Option<Vec<char>>,
    msg_id: Option<usize>,
    in_reply_to: Option<usize>,
    echo: Option<Vec<char>>,
    node_id: Option<Vec<char>>,
    id_str: Option<Vec<char>>,
    key: Option<Vec<char>>,
    text: Option<Vec<char>>,
    node_ids: Option<Vec<Vec<char>>>,
    keys: Option<Vec<Vec<char>>>,
    message: Option<usize>,
    delta: Option<usize>,
    value: Option<usize>,
    msg: Option<usize>,
    offset: Option<usize>,
    from_v: Option<usize>,
    to_v: Option<usize>,
    code: Option<usize>,
    messages: Option<Vec<usize>>,
    topology: Option<Vec<(Vec<char>, Vec<Vec<char>>)>>,
    offsets: Option<Vec<(Vec<char>, usize)>>,
    msgs: Option<Vec<(Vec<char>, Vec<(usize, usize)>)>>,
    put: Option<bool>,
}

spec fn ov_chars(o: Option<Vec<char>>) -> Option<Seq<char>> {
    match o {
        Some(v) => Some(v@),
        None => None,
    }
}

spec fn ov_strs(o: Option<Vec<Vec<char>>>) -> Option<Seq<Seq<char>>> {
    match o {
        Some(v) => Some(v.deep_view()),
        None => None,
    }
}

spec fn ov_nums(o: Option<Vec<usize>>) -> Option<Seq<usize>> {
    match o {
        Some(v) => Some(v@),
        None => None,
    }
}

spec fn ov_obj_nums(o: Option<Vec<(Vec<char>, usize)>>) -> Option<Seq<(Seq<char>, usize)>> {
    match o {
        Some(v) => Some(v.deep_view()),
        None => None,
    }
}

spec fn ov_topology(o: Option<Vec<(Vec<char>, Vec<Vec<char>>)>>) -> Option<
    Seq<(Seq<char>, Seq<Seq<char>>)>,
> {
    match o {
        Some(v) => Some(v.deep_view()),
        None => None,
    }
}

spec fn ov_msgs(o: Option<Vec<(Vec<char>, Vec<(usize, usize)>)>>) -> Option<
    Seq<(Seq<char>, Seq<(usize, usize)>)>,
> {
    match o {
        Some(v) => Some(v.deep_view()),
        None => None,
    }
}

spec fn raw_x_view(r: RawX) -> RawV {
    RawV {
        typ: ov_chars(r.typ),
        msg_id: r.msg_id,
        in_reply_to: r.in_reply_to,
        echo: ov_chars(r.echo),
        node_id: ov_chars(r.node_id),
        id_str: ov_chars(r.id_str),
        key: ov_chars(r.key),
        text: ov_chars(r.text),
        node_ids: ov_strs(r.node_ids),
        keys: ov_strs(r.keys),
        message: r.message,
        delta: r.delta,
        value: r.value,
        msg: r.msg,
        offset: r.offset,
        from_v: r.from_v,
        to_v: r.to_v,
        code: r.code,
        messages: ov_nums(r.messages),
        topology: ov_topology(r.topology),
        offsets: ov_obj_nums(r.offsets),
        msgs: ov_msgs(r.msgs),
        put: r.put,
    }
}

fn raw_x_empty() -> (r: RawX)
    ensures
        raw_x_view(r) == raw_empty(),
{
    RawX {
        typ: None,
        msg_id: None,
        in_reply_to: None,
        echo: None,
        node_id: None,
        id_str: None,
        key: None,
        text: None,
        node_ids: None,
        keys: None,
        message: None,
        delta: None,
        value: None,
        msg: None,
        offset: None,
        from_v: None,
        to_v: None,
        code: None,
        messages: None,
        topology: None,
        offsets: None,
        msgs: None,
        put: None,
    }
}

/// Stores a parsed string value under the string-valued key `k`.
#[verifier::rlimit(100)]
#[verifier::spinoff_prover]
fn store_str(raw: RawX, k: &Vec<char>, v: Vec<char>) -> (r: RawX)
    requires
        k@ == crate::codec::k_type() || k@ == crate::codec::k_echo() || k@
            == crate::codec::k_node_id() || k@ == crate::codec::k_id() || k@
            == crate::codec::k_key() || k@ == crate::codec::k_text(),
    ensures
        raw_x_view(r) == apply_member(raw_x_view(raw), MemberV::MStr(k@, v@)),
{
    proof {
        lemma_key_facts();
        reveal_strlit("type");
        reveal_strlit("echo");
        reveal_strlit("node_id");
        reveal_strlit("id");
        reveal_strlit("key");
        reveal_strlit("text");
        assert("type"@ =~= crate::codec::k_type());
        assert("echo"@ =~= crate::codec::k_echo());
        assert("node_id"@ =~= crate::codec::k_node_id());
        assert("id"@ =~= crate::codec::k_id());
        assert("key"@ =~= crate::codec::k_key());
        assert("text"@ =~= crate::codec::k_text());
    }
    if chars_eq_lit(k, "type") {
        RawX { typ: Some(v), ..raw }
    } else if chars_eq_lit(k, "echo") {
        RawX { echo: Some(v), ..raw }
    } else if chars_eq_lit(k, "node_id") {
        RawX { node_id: Some(v), ..raw }
    } else if chars_eq_lit(k, "id") {
        RawX { id_str: Some(v), ..raw }
    } else if chars_eq_lit(k, "key") {
        RawX { key: Some(v), ..raw }
    } else {
        RawX { text: Some(v), ..raw }
    }
}

/// Stores a parsed number under the number-valued key `k`.
#[verifier::rlimit(100)]
#[verifier::spinoff_prover]
fn store_num(raw: RawX, k: &Vec<char>, v: usize) -> (r: RawX)
    requires
        k@ == crate::codec::k_msg_id() || k@ == crate::codec::k_in_reply_to() || k@
            == crate::codec::k_message() || k@ == crate::codec::k_delta() || k@
            == crate::codec::k_value() || k@ == crate::codec::k_msg() || k@
            == crate::codec::k_offset() || k@ == crate::codec::k_from() || k@
            == crate::codec::k_to() || k@ == crate::codec::k_code(),
    ensures
        raw_x_view(r) == apply_member(raw_x_view(raw), MemberV::MNum(k@, v)),
{
    proof {
        lemma_key_facts();
        reveal_strlit("msg_id");
        reveal_strlit("in_reply_to");
        reveal_strlit("message");
        reveal_strlit("delta");
        reveal_strlit("value");
        reveal_strlit("msg");
        reveal_strlit("offset");
        reveal_strlit("from");
        reveal_strlit("to");
        reveal_strlit("code");
        assert("msg_id"@ =~= crate::codec::k_msg_id());
        assert("in_reply_to"@ =~= crate::codec::k_in_reply_to());
        assert("message"@ =~= crate::codec::k_message());
        assert("delta"@ =~= crate::codec::k_delta());
        assert("value"@ =~= crate::codec::k_value());
        assert("msg"@ =~= crate::codec::k_msg());
        assert("offset"@ =~= crate::codec::k_offset());
        assert("from"@ =~= crate::codec::k_from());
        assert("to"@ =~= crate::codec::k_to());
        assert("code"@ =~= crate::codec::k_code());
    }
    if chars_eq_lit(k, "msg_id") {
        RawX { msg_id: Some(v), ..raw }
    } else if chars_eq_lit(k, "in_reply_to") {
        RawX { in_reply_to: Some(v), ..raw }
    } else if chars_eq_lit(k, "message") {
        RawX { message: Some(v), ..raw }
    } else if chars_eq_lit(k, "delta") {
        RawX { delta: Some(v), ..raw }
    } else if chars_eq_lit(k, "value") {
        RawX { value: Some(v), ..raw }
    } else if chars_eq_lit(k, "msg") {
        RawX { msg: Some(v), ..raw }
    } else if chars_eq_lit(k, "offset") {
        RawX { offset: Some(v), ..raw }
    } else if chars_eq_lit(k, "from") {
        RawX { from_v: Some(v), ..raw }
    } else if chars_eq_lit(k, "to") {
        RawX { to_v: Some(v), ..raw }
    } else {
        RawX { code: Some(v), ..raw }
    }
}

/// Stores a parsed string array under `node_ids` or `keys`.
#[verifier::rlimit(100)]
#[verifier::spinoff_prover]
fn store_arr_str(raw: RawX, k: &Vec<char>, v: Vec<Vec<char>>) -> (r: RawX)
    requires
        k@ == crate::codec::k_node_ids() || k@ == crate::codec::k_keys(),
    ensures
        raw_x_view(r) == apply_member(raw_x_view(raw), MemberV::MArrStr(k@, v.deep_view())),
{
    proof {
        lemma_key_facts();
        reveal_strlit("node_ids");
        reveal_strlit("keys");
        assert("node_ids"@ =~= crate::codec::k_node_ids());
        assert("keys"@ =~= crate::codec::k_keys());
    }
    if chars_eq_lit(k, "node_ids") {
        RawX { node_ids: Some(v), ..raw }
    } else {
        RawX { keys: Some(v), ..raw }
    }
}

/// Reads the value of the member named `k` and stores it, mirroring
/// `parse_member_value`.
#[verifier::rlimit(100)]
#[verifier::spinoff_prover]
fn parse_member_value_exec(s: &Vec<char>, i: usize, raw: RawX, k: &Vec<char>) -> (r: Option<
    (RawX, usize),
>)
    requires
        i <= s@.len(),
    ensures
        r matches Some(p) ==> parse_member_value(s@, i as int, raw_x_view(raw), k@) == Some(
            (raw_x_view(p.0), p.1 as int),
        ) && i < p.1 <= s@.len(),
        r is None ==> parse_member_value(s@, i as int, raw_x_view(raw), k@) is None,
{
    proof {
        reveal_strlit("type");
        reveal_strlit("echo");
        reveal_strlit("node_id");
        reveal_strlit("id");
        reveal_strlit("key");
        reveal_strlit("text");
        reveal_strlit("msg_id");
        reveal_strlit("in_reply_to");
        reveal_strlit("message");
        reveal_strlit("delta");
        reveal_strlit("value");
        reveal_strlit("msg");
        reveal_strlit("offset");
        reveal_strlit("from");
        reveal_strlit("to");
        reveal_strlit("code");
        reveal_strlit("create_if_not_exists");
        reveal_strlit("messages");
        reveal_strlit("node_ids");
        reveal_strlit("keys");
        reveal_strlit("offsets");
        reveal_strlit("topology");
        reveal_strlit("msgs");
        assert("type"@ =~= crate::codec::k_type());
        assert("echo"@ =~= crate::codec::k_echo());
        assert("node_id"@ =~= crate::codec::k_node_id());
        assert("id"@ =~= crate::codec::k_id());
        assert("key"@ =~= crate::codec::k_key());
        assert("text"@ =~= crate::codec::k_text());
        assert("msg_id"@ =~= crate::codec::k_msg_id());
        assert("in_reply_to"@ =~= crate::codec::k_in_reply_to());
        assert("message"@ =~= crate::codec::k_message());
        assert("delta"@ =~= crate::codec::k_delta());
        assert("value"@ =~= crate::codec::k_value());
        assert("msg"@ =~= crate::codec::k_msg());
        assert("offset"@ =~= crate::codec::k_offset());
        assert("from"@ =~= crate::codec::k_from());
        assert("to"@ =~= crate::codec::k_to());
        assert("code"@ =~= crate::codec::k_code());
        assert("create_if_not_exists"@ =~= crate::codec::k_put());
        assert("messages"@ =~= crate::codec::k_messages());
        assert("node_ids"@ =~= crate::codec::k_node_ids());
        assert("keys"@ =~= crate::codec::k_keys());
        assert("offsets"@ =~= crate::codec::k_offsets());
        assert("topology"@ =~= crate::codec::k_topology());
        assert("msgs"@ =~= crate::codec::k_msgs());
    }
    if chars_eq_lit(k, "type") || chars_eq_lit(k, "echo") || chars_eq_lit(k, "node_id")
        || chars_eq_lit(k, "id") || chars_eq_lit(k, "key") || chars_eq_lit(k, "text") {
        match parse_string_exec(s, i) {
            Some((v, j)) => Some((store_str(raw, k, v), j)),
            None => None,
        }
    } else if chars_eq_lit(k, "msg_id") || chars_eq_lit(k, "in_reply_to") || chars_eq_lit(
        k,
        "message",
    ) || chars_eq_lit(k, "delta") || chars_eq_lit(k, "value") || chars_eq_lit(k, "msg")
        || chars_eq_lit(k, "offset") || chars_eq_lit(k, "from") || chars_eq_lit(k, "to")
        || chars_eq_lit(k, "code") {
        match parse_usize_exec(s, i) {
            Some((v, j)) => Some((store_num(raw, k, v), j)),
            None => None,
        }
    } else if chars_eq_lit(k, "create_if_not_exists") {
        match parse_bool_exec(s, i) {
            Some((v, j)) => Some((RawX { put: Some(v), ..raw }, j)),
            None => None,
        }
    } else if chars_eq_lit(k, "messages") {
        match parse_arr_usize_exec(s, i) {
            Some((v, j)) => Some((RawX { messages: Some(v), ..raw }, j)),
            None => None,
        }
    } else if chars_eq_lit(k, "node_ids") || chars_eq_lit(k, "keys") {
        match parse_arr_string_exec(s, i) {
            Some((v, j)) => Some((store_arr_str(raw, k, v), j)),
            None => None,
        }
    } else if chars_eq_lit(k, "offsets") {
        match parse_obj_usize_exec(s, i) {
            Some((v, j)) => Some((RawX { offsets: Some(v), ..raw }, j)),
            None => None,
        }
    } else if chars_eq_lit(k, "topology") {
        match parse_obj_arr_string_exec(s, i) {
            Some((v, j)) => Some((RawX { topology: Some(v), ..raw }, j)),
            None => None,
        }
    } else if chars_eq_lit(k, "msgs") {
        match parse_obj_arr_pairs_exec(s, i) {
            Some((v, j)) => Some((RawX { msgs: Some(v), ..raw }, j)),
            None => None,
        }
    } else {
        match skip_value_exec(s, i) {
            Some(j) => Some((raw, j)),
            None => None,
        }
    }
}

/// Reads the members of a body object, mirroring `parse_body_fields`.
fn parse_body_fields_exec(s: &Vec<char>, i: usize, raw: RawX) -> (r: Option<(RawX, usize)>)
    requires
        i <= s@.len(),
    ensures
        r matches Some(p) ==> parse_body_fields(s@, i as int, raw_x_view(raw)) == Some(
            (raw_x_view(p.0), p.1 as int),
        ) && i < p.1 <= s@.len(),
        r is None ==> parse_body_fields(s@, i as int, raw_x_view(raw)) is None,
    decreases s@.len() - i,
{
    if i >= s.len() {
        return None;
    }
    match parse_string_exec(s, i) {
        None => None,
        Some((k, j)) => {
            if j >= s.len() || s[j] != ':' {
                return None;
            }
            match parse_member_value_exec(s, j + 1, raw, &k) {
                None => None,
                Some((raw2, m)) => {
                    if m >= s.len() {
                        return None;
                    }
                    if s[m] == ',' {
                        parse_body_fields_exec(s, m + 1, raw2)
                    } else if s[m] == '}' {
                        Some((raw2, m + 1))
                    } else {
                        None
                    }
                },
            }
        },
    }
}

/// Reads one body object, mirroring `parse_body`.
fn parse_body_exec(s: &Vec<char>, i: usize) -> (r: Option<(RawX, usize)>)
    requires
        i <= s@.len(),
    ensures
        r matches Some(p) ==> parse_body(s@, i as int) == Some((raw_x_view(p.0), p.1 as int)) && i
            < p.1 <= s@.len(),
        r is None ==> parse_body(s@, i as int) is None,
{
    if i >= s.len() || s[i] != '{' {
        return None;
    }
    if i + 1 < s.len() && s[i + 1] == '}' {
        return Some((raw_x_empty(), i + 2));
    }
    parse_body_fields_exec(s, i + 1, raw_x_empty())
}

spec fn ov_raw(o: Option<RawX>) -> Option<RawV> {
    match o {
        Some(r) => Some(raw_x_view(r)),
        None => None,
    }
}

/// Turns collected character lists into owned strings, keeping the deep
/// view.
fn strs_of(v: Vec<Vec<char>>) -> (r: Vec<String>)
    ensures
        r.deep_view() == v.deep_view(),
{
    let mut r: Vec<String> = Vec::new();
    let mut i: usize = 0;
    while i < v.len()
        invariant
            0 <= i <= v@.len(),
            r.deep_view() == v.deep_view().take(i as int),
        decreases v@.len() - i,
    {
        let ghost prev = r.deep_view();
        let copied = copy_chars(&v[i]);
        r.push(chars_to_string(copied));
        proof {
            assert(r.deep_view() =~~= prev.push(v@[i as int]@));
            assert(v.deep_view().take(i + 1) =~~= prev.push(v@[i as int]@));
        }
        i = i + 1;
    }
    proof {
        assert(v.deep_view().take(v@.len() as int) =~~= v.deep_view());
    }
    r
}

/// Copies a character list.
fn copy_chars(v: &Vec<char>) -> (r: Vec<char>)
    ensures
        r@ == v@,
{
    let mut r: Vec<char> = Vec::new();
    let mut i: usize = 0;
    while i < v.len()
        invariant
            0 <= i <= v@.len(),
            r@ == v@.take(i as int),
        decreases v@.len() - i,
    {
        r.push(v[i]);
        proof {
            assert(v@.take(i + 1) =~= v@.take(i as int).push(v@[i as int]));
        }
        i = i + 1;
    }
    proof {
        assert(v@.take(v@.len() as int) =~= v@);
    }
    r
}

/// Turns collected key-number pairs into owned ones.
fn obj_nums_of(v: Vec<(Vec<char>, usize)>) -> (r: Vec<(String, usize)>)
    ensures
        r.deep_view() == v.deep_view(),
{
    let mut r: Vec<(String, usize)> = Vec::new();
    let mut i: usize = 0;
    while i < v.len()
        invariant
            0 <= i <= v@.len(),
            r.deep_view() == v.deep_view().take(i as int),
        decreases v@.len() - i,
    {
        let ghost prev = r.deep_view();
        let key = copy_chars(&v[i].0);
        r.push((chars_to_string(key), v[i].1));
        proof {
            assert(r.deep_view() =~~= prev.push((v@[i as int].0@, v@[i as int].1)));
            assert(v.deep_view().take(i + 1) =~~= prev.push((v@[i as int].0@, v@[i as int].1)));
        }
        i = i + 1;
    }
    proof {
        assert(v.deep_view().take(v@.len() as int) =~~= v.deep_view());
    }
    r
}

/// Turns a collected topology map into owned form.
fn topo_of(v: Vec<(Vec<char>, Vec<Vec<char>>)>) -> (r: Vec<(String, Vec<String>)>)
    ensures
        r.deep_view() == v.deep_view(),
{
    let mut r: Vec<(String, Vec<String>)> = Vec::new();
    let mut i: usize = 0;
    while i < v.len()
        invariant
            0 <= i <= v@.len(),
            r.deep_view() == v.deep_view().take(i as int),
        decreases v@.len() - i,
    {
        let ghost prev = r.deep_view();
        let key = copy_chars(&v[i].0);
        let mut vals: Vec<Vec<char>> = Vec::new();
        let mut j: usize = 0;
        while j < v[i].1.len()
            invariant
                0 <= i < v@.len(),
                0 <= j <= v@[i as int].1@.len(),
                vals.deep_view() == v@[i as int].1.deep_view().take(j as int),
            decreases v@[i as int].1@.len() - j,
        {
            let ghost pv = vals.deep_view();
            vals.push(copy_chars(&v[i].1[j]));
            proof {
                assert(vals.deep_view() =~~= pv.push(v@[i as int].1@[j as int]@));
                assert(v@[i as int].1.deep_view().take(j + 1) =~~= pv.push(
                    v@[i as int].1@[j as int]@,
                ));
            }
            j = j + 1;
        }
        proof {
            assert(v@[i as int].1.deep_view().take(v@[i as int].1@.len() as int) =~~= v@[i as int].1.deep_view());
        }
        r.push((chars_to_string(key), strs_of(vals)));
        proof {
            assert(r.deep_view() =~~= prev.push(
                (v@[i as int].0@, v@[i as int].1.deep_view()),
            ));
            assert(v.deep_view().take(i + 1) =~~= prev.push(
                (v@[i as int].0@, v@[i as int].1.deep_view()),
            ));
        }
        i = i + 1;
    }
    proof {
        assert(v.deep_view().take(v@.len() as int) =~~= v.deep_view());
    }
    r
}

/// Turns a collected poll-reply map into owned form.
fn msgs_of(v: Vec<(Vec<char>, Vec<(usize, usize)>)>) -> (r: Vec<(String, Vec<(usize, usize)>)>)
    ensures
        r.deep_view() == v.deep_view(),
{
    let mut r: Vec<(String, Vec<(usize, usize)>)> = Vec::new();
    let mut i: usize = 0;
    while i < v.len()
        invariant
            0 <= i <= v@.len(),
            r.deep_view() == v.deep_view().take(i as int),
        decreases v@.len() - i,
    {
        let ghost prev = r.deep_view();
        let key = copy_chars(&v[i].0);
        let mut vals: Vec<(usize, usize)> = Vec::new();
        let mut j: usize = 0;
        while j < v[i].1.len()
            invariant
                0 <= i < v@.len(),
                0 <= j <= v@[i as int].1@.len(),
                vals@ == v@[i as int].1@.take(j as int),
            decreases v@[i as int].1@.len() - j,
        {
            vals.push(v[i].1[j]);
            proof {
                assert(v@[i as int].1@.take(j + 1) =~= v@[i as int].1@.take(j as int).push(
                    v@[i as int].1@[j as int],
                ));
            }
            j = j + 1;
        }
        proof {
            assert(v@[i as int].1@.take(v@[i as int].1@.len() as int) =~= v@[i as int].1@);
        }
        r.push((chars_to_string(key), vals));
        proof {
            assert(r.deep_view() =~~= prev.push((v@[i as int].0@, v@[i as int].1@)));
            assert(v.deep_view().take(i + 1) =~~= prev.push(
                (v@[i as int].0@, v@[i as int].1@),
            ));
            assert(v@[i as int].1.deep_view() =~~= v@[i as int].1@);
        }
        i = i + 1;
    }
    proof {
        assert(v.deep_view().take(v@.len() as int) =~~= v.deep_view());
    }
    r
}

/// Builds the payload the raw fields describe, mirroring
/// `raw_to_payload`.
#[verifier::rlimit(100)]
#[verifier::spinoff_prover]
fn raw_to_payload_exec(raw: RawX) -> (r: Option<Payload>)
    ensures
        r matches Some(p) ==> raw_to_payload(raw_x_view(raw)) == Some(p@),
        r is None ==> raw_to_payload(raw_x_view(raw)) is None,
{
    let t = match raw.typ {
        Some(ref t) => t,
        None => {
            return None;
        },
    };
    proof {
        reveal_strlit("init");
        reveal_strlit("init_ok");
        reveal_strlit("echo");
        reveal_strlit("echo_ok");
        reveal_strlit("generate");
        reveal_strlit("generate_ok");
        reveal_strlit("broadcast");
        reveal_strlit("broadcast_ok");
        reveal_strlit("broadcast_un_acked");
        reveal_strlit("read");
        reveal_strlit("read_ok");
        reveal_strlit("topology");
        reveal_strlit("topology_ok");
        reveal_strlit("add");
        reveal_strlit("add_ok");
        reveal_strlit("server_read");
        reveal_strlit("server_read_ok");
        reveal_strlit("send");
        reveal_strlit("send_ok");
        reveal_strlit("poll");
        reveal_strlit("poll_ok");
        reveal_strlit("commit_offsets");
        reveal_strlit("commit_offsets_ok");
        reveal_strlit("list_committed_offsets");
        reveal_strlit("list_committed_offsets_ok");
        reveal_strlit("write");
        reveal_strlit("write_ok");
        reveal_strlit("cas");
        reveal_strlit("cas_ok");
        reveal_strlit("error");
        assert("init"@ =~= crate::codec::tag_of(PayloadV::Init(InitV { node_id: seq![], node_ids: seq![] })));
        assert("init_ok"@ =~= crate::codec::tag_of(PayloadV::InitOk));
        assert("echo"@ =~= crate::codec::tag_of(PayloadV::Echo { echo: seq![] }));
        assert("echo_ok"@ =~= crate::codec::tag_of(PayloadV::EchoOk { echo: seq![] }));
        assert("generate"@ =~= crate::codec::tag_of(PayloadV::Generate));
        assert("generate_ok"@ =~= crate::codec::tag_of(PayloadV::GenerateOk { guid: seq![] }));
        assert("broadcast"@ =~= crate::codec::tag_of(PayloadV::Broadcast { message: 0 }));
        assert("broadcast_ok"@ =~= crate::codec::tag_of(PayloadV::BroadcastOk));
        assert("broadcast_un_acked"@ =~= crate::codec::tag_of(PayloadV::BroadcastUnAcked));
        assert("read"@ =~= crate::codec::tag_of(PayloadV::Read));
        assert("read_ok"@ =~= crate::codec::tag_of(PayloadV::ReadOk { value: 0 }));
        assert("topology"@ =~= crate::codec::tag_of(PayloadV::Topology { topology: seq![] }));
        assert("topology_ok"@ =~= crate::codec::tag_of(PayloadV::TopologyOk));
        assert("add"@ =~= crate::codec::tag_of(PayloadV::Add { delta: 0 }));
        assert("add_ok"@ =~= crate::codec::tag_of(PayloadV::AddOk));
        assert("server_read"@ =~= crate::codec::tag_of(PayloadV::ServerRead));
        assert("server_read_ok"@ =~= crate::codec::tag_of(PayloadV::ServerReadOk { value: 0 }));
        assert("send"@ =~= crate::codec::tag_of(PayloadV::Send { key: seq![], msg: 0 }));
        assert("send_ok"@ =~= crate::codec::tag_of(PayloadV::SendOk { offset: 0 }));
        assert("poll"@ =~= crate::codec::tag_of(PayloadV::Poll { offsets: seq![] }));
        assert("poll_ok"@ =~= crate::codec::tag_of(PayloadV::PollOk { msgs: seq![] }));
        assert("commit_offsets"@ =~= crate::codec::tag_of(PayloadV::CommitOffsets { offsets: seq![] }));
        assert("commit_offsets_ok"@ =~= crate::codec::tag_of(PayloadV::CommitOffsetsOk));
        assert("list_committed_offsets"@ =~= crate::codec::tag_of(PayloadV::ListCommittedOffsets { keys: seq![] }));
        assert("list_committed_offsets_ok"@ =~= crate::codec::tag_of(PayloadV::ListCommittedOffsetsOk { offsets: seq![] }));
        assert("write"@ =~= crate::codec::tag_of(PayloadV::Write { key: seq![], value: 0 }));
        assert("write_ok"@ =~= crate::codec::tag_of(PayloadV::WriteOk));
        assert("cas"@ =~= crate::codec::tag_of(PayloadV::Cas { key: seq![], from: 0, to: 0, put: false }));
        assert("cas_ok"@ =~= crate::codec::tag_of(PayloadV::CasOk));
        assert("error"@ =~= crate::codec::tag_of(PayloadV::Error { code: 0, text: seq![] }));
    }
    if chars_eq_lit(t, "init_ok") {
        Some(Payload::InitOk)
    } else if chars_eq_lit(t, "init") {
        match (raw.node_id, raw.node_ids) {
            (Some(nid), Some(nids)) => Some(
                Payload::Init(
                    crate::protocol::Init {
                        node_id: chars_to_string(nid),
                        node_ids: strs_of(nids),
                    },
                ),
            ),
            _ => None,
        }
    } else if chars_eq_lit(t, "echo_ok") {
        match raw.echo {
            Some(e) => Some(Payload::EchoOk { echo: chars_to_string(e) }),
            None => None,
        }
    } else if chars_eq_lit(t, "echo") {
        match raw.echo {
            Some(e) => Some(Payload::Echo { echo: chars_to_string(e) }),
            None => None,
        }
    } else if chars_eq_lit(t, "generate") {
        Some(Payload::Generate)
    } else if chars_eq_lit(t, "generate_ok") {
        match raw.id_str {
            Some(g) => Some(Payload::GenerateOk { guid: chars_to_string(g) }),
            None => None,
        }
    } else if chars_eq_lit(t, "broadcast_ok") {
        Some(Payload::BroadcastOk)
    } else if chars_eq_lit(t, "broadcast_un_acked") {
        Some(Payload::BroadcastUnAcked)
    } else if chars_eq_lit(t, "broadcast") {
        match raw.message {
            Some(v) => Some(Payload::Broadcast { message: v }),
            None => None,
        }
    } else if chars_eq_lit(t, "read") {
        match raw.key {
            Some(k) => Some(Payload::KvRead { key: chars_to_string(k) }),
            None => Some(Payload::Read),
        }
    } else if chars_eq_lit(t, "read_ok") {
        match (raw.messages, raw.value) {
            (Some(ms), _) => Some(Payload::ReadOkMessages { messages: ms }),
            (None, Some(v)) => Some(Payload::ReadOk { value: v }),
            _ => None,
        }
    } else if chars_eq_lit(t, "topology_ok") {
        Some(Payload::TopologyOk)
    } else if chars_eq_lit(t, "topology") {
        match raw.topology {
            Some(tp) => Some(Payload::Topology { topology: topo_of(tp) }),
            None => None,
        }
    } else if chars_eq_lit(t, "add_ok") {
        Some(Payload::AddOk)
    } else if chars_eq_lit(t, "add") {
        match raw.delta {
            Some(d) => Some(Payload::Add { delta: d }),
            None => None,
        }
    } else if chars_eq_lit(t, "server_read_ok") {
        match raw.value {
            Some(v) => Some(Payload::ServerReadOk { value: v }),
            None => None,
        }
    } else if chars_eq_lit(t, "server_read") {
        Some(Payload::ServerRead)
    } else if chars_eq_lit(t, "send_ok") {
        match raw.offset {
            Some(o) => Some(Payload::SendOk { offset: o }),
            None => None,
        }
    } else if chars_eq_lit(t, "send") {
        match (raw.key, raw.msg) {
            (Some(k), Some(v)) => Some(Payload::Send { key: chars_to_string(k), msg: v }),
            _ => None,
        }
    } else if chars_eq_lit(t, "poll_ok") {
        match raw.msgs {
            Some(ms) => Some(Payload::PollOk { msgs: msgs_of(ms) }),
            None => None,
        }
    } else if chars_eq_lit(t, "poll") {
        match raw.offsets {
            Some(o) => Some(Payload::Poll { offsets: obj_nums_of(o) }),
            None => None,
        }
    } else if chars_eq_lit(t, "commit_offsets_ok") {
        Some(Payload::CommitOffsetsOk)
    } else if chars_eq_lit(t, "commit_offsets") {
        match raw.offsets {
            Some(o) => Some(Payload::CommitOffsets { offsets: obj_nums_of(o) }),
            None => None,
        }
    } else if chars_eq_lit(t, "list_committed_offsets_ok") {
        match raw.offsets {
            Some(o) => Some(Payload::ListCommittedOffsetsOk { offsets: obj_nums_of(o) }),
            None => None,
        }
    } else if chars_eq_lit(t, "list_committed_offsets") {
        match raw.keys {
            Some(ks) => Some(Payload::ListCommittedOffsets { keys: strs_of(ks) }),
            None => None,
        }
    } else if chars_eq_lit(t, "write_ok") {
        Some(Payload::WriteOk)
    } else if chars_eq_lit(t, "write") {
        match (raw.key, raw.value) {
            (Some(k), Some(v)) => Some(Payload::Write { key: chars_to_string(k), value: v }),
            _ => None,
        }
    } else if chars_eq_lit(t, "cas_ok") {
        Some(Payload::CasOk)
    } else if chars_eq_lit(t, "cas") {
        match (raw.key, raw.from_v, raw.to_v, raw.put) {
            (Some(k), Some(f), Some(o), Some(p)) => Some(
                Payload::Cas { key: chars_to_string(k), from: f, to: o, put: p },
            ),
            _ => None,
        }
    } else if chars_eq_lit(t, "error") {
        match (raw.code, raw.text) {
            (Some(c), Some(x)) => Some(Payload::Error { code: c, text: chars_to_string(x) }),
            _ => None,
        }
    } else {
        None
    }
}

/// Reads the members of the envelope object, mirroring `parse_env_fields`.
fn parse_env_fields_exec(
    s: &Vec<char>,
    i: usize,
    src_f: Option<Vec<char>>,
    dst_f: Option<Vec<char>>,
    body_f: Option<RawX>,
) -> (r: Option<((Option<Vec<char>>, Option<Vec<char>>, Option<RawX>), usize)>)
    requires
        i <= s@.len(),
    ensures
        r matches Some(p) ==> parse_env_fields(
            s@,
            i as int,
            ov_chars(src_f),
            ov_chars(dst_f),
            ov_raw(body_f),
        ) == Some(((ov_chars(p.0.0), ov_chars(p.0.1), ov_raw(p.0.2)), p.1 as int)) && i < p.1
            <= s@.len(),
        r is None ==> parse_env_fields(
            s@,
            i as int,
            ov_chars(src_f),
            ov_chars(dst_f),
            ov_raw(body_f),
        ) is None,
    decreases s@.len() - i,
{
    proof {
        reveal_strlit("src");
        reveal_strlit("dest");
        reveal_strlit("body");
        assert("src"@ =~= crate::codec::k_src());
        assert("dest"@ =~= crate::codec::k_dest());
        assert("body"@ =~= crate::codec::k_body());
    }
    if i >= s.len() {
        return None;
    }
    match parse_string_exec(s, i) {
        None => None,
        Some((k, j)) => {
            if j >= s.len() || s[j] != ':' {
                return None;
            }
            let step: Option<((Option<Vec<char>>, Option<Vec<char>>, Option<RawX>), usize)> = if
            chars_eq_lit(&k, "src") {
                match parse_string_exec(s, j + 1) {
                    Some((v, m)) => Some(((Some(v), dst_f, body_f), m)),
                    None => None,
                }
            } else if chars_eq_lit(&k, "dest") {
                match parse_string_exec(s, j + 1) {
                    Some((v, m)) => Some(((src_f, Some(v), body_f), m)),
                    None => None,
                }
            } else if chars_eq_lit(&k, "body") {
                match parse_body_exec(s, j + 1) {
                    Some((v, m)) => Some(((src_f, dst_f, Some(v)), m)),
                    None => None,
                }
            } else {
                match skip_value_exec(s, j + 1) {
                    Some(m) => Some(((src_f, dst_f, body_f), m)),
                    None => None,
                }
            };
            match step {
                None => None,
                Some((acc2, m)) => {
                    if m >= s.len() {
                        return None;
                    }
                    if s[m] == ',' {
                        parse_env_fields_exec(s, m + 1, acc2.0, acc2.1, acc2.2)
                    } else if s[m] == '}' {
                        Some((acc2, m + 1))
                    } else {
                        None
                    }
                },
            }
        },
    }
}

/// Decodes one line of text as a message, mirroring `dec_message`: the
/// whole line must be one envelope object with `src`, `dest` and a valid
/// body.
pub fn decode_message(s: &str) -> (r: Option<Message>)
    ensures
        r matches Some(m) ==> dec_message(s@) == Some(m@),
        r is None ==> dec_message(s@) is None,
{
    let n = s.unicode_len();
    let mut v: Vec<char> = Vec::new();
    let mut i: usize = 0;
    while i < n
        invariant
            0 <= i <= n,
            n == s@.len(),
            v@ == s@.take(i as int),
        decreases n - i,
    {
        v.push(s.get_char(i));
        proof {
            assert(s@.take(i + 1) =~= s@.take(i as int).push(s@[i as int]));
        }
        i = i + 1;
    }
    proof {
        assert(s@.take(n as int) =~= s@);
    }
    if v.len() < 2 || v[0] != '{' || v[1] == '}' {
        return None;
    }
    match parse_env_fields_exec(&v, 1, None, None, None) {
        Some(((Some(src_c), Some(dst_c), Some(raw)), j)) => {
            if j != v.len() {
                return None;
            }
            let id = raw.msg_id;
            let in_reply_to = raw.in_reply_to;
            match raw_to_payload_exec(raw) {
                Some(payload) => {
                    let m = Message {
                        src: chars_to_string(src_c),
                        dst: chars_to_string(dst_c),
                        body: Body { id, in_reply_to, payload },
                    };
                    Some(m)
                },
                None => None,
            }
        },
        _ => None,
    }
}

} // verus!