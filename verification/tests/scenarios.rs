use nazgul::broadcast::BroadcastNode;
use nazgul::counter::GrowOnlyCounter;
use nazgul::echo::EchoNode;
use nazgul::kafka::KafkaLog;
use nazgul::node::init_reply;
use nazgul::unique::UniqueIdNode;
use nazgul::wire::decode_message;
use nazgul::wire::encode_message;
use nazgul::Body;
use nazgul::Init;
use nazgul::Message;
use nazgul::Payload;

fn msg(src: &str, dst: &str, id: Option<usize>, irt: Option<usize>, payload: Payload) -> Message {
    Message {
        src: src.to_string(),
        dst: dst.to_string(),
        body: Body { id, in_reply_to: irt, payload },
    }
}

fn json_eq(line: &str, expected: &str) {
    let a: serde_json::Value = serde_json::from_str(line).expect("encoder output is valid JSON");
    let b: serde_json::Value = serde_json::from_str(expected).expect("expected text is valid JSON");
    assert_eq!(a, b);
}

#[test]
fn echo_scenario() {
    let init = msg(
        "c1",
        "n1",
        Some(1),
        None,
        Payload::Init(Init { node_id: "n1".to_string(), node_ids: vec!["n1".to_string()] }),
    );
    let reply = init_reply(init);
    let line = encode_message(&reply);
    assert_eq!(
        line,
        "{\"src\":\"n1\",\"dest\":\"c1\",\"body\":{\"type\":\"init_ok\",\"msg_id\":0,\"in_reply_to\":1}}"
    );
    json_eq(
        &line,
        "{\"src\":\"n1\",\"dest\":\"c1\",\"body\":{\"type\":\"init_ok\",\"msg_id\":0,\"in_reply_to\":1}}",
    );

    let mut node = EchoNode::from_init(Init {
        node_id: "n1".to_string(),
        node_ids: vec!["n1".to_string()],
    });
    let out = node
        .step(msg("c1", "n1", Some(2), None, Payload::Echo { echo: "hi".to_string() }))
        .unwrap();
    assert_eq!(out.len(), 1);
    let line = encode_message(&out[0]);
    assert_eq!(
        line,
        "{\"src\":\"n1\",\"dest\":\"c1\",\"body\":{\"type\":\"echo_ok\",\"msg_id\":1,\"in_reply_to\":2,\"echo\":\"hi\"}}"
    );
}

#[test]
fn unique_id_scenario() {
    let mut node = UniqueIdNode::from_init(Init {
        node_id: "n3".to_string(),
        node_ids: vec!["n1".to_string(), "n2".to_string(), "n3".to_string()],
    });
    let out = node.step(msg("c1", "n3", Some(7), None, Payload::Generate)).unwrap();
    assert_eq!(out.len(), 1);
    match &out[0].body.payload {
        Payload::GenerateOk { guid } => assert_eq!(guid, "n3-1"),
        p => panic!("unexpected payload {:?}", p),
    }
    assert_eq!(out[0].body.in_reply_to, Some(7));
}

#[test]
fn broadcast_dedup_scenario() {
    let mut n1 = BroadcastNode::from_init(Init {
        node_id: "n1".to_string(),
        node_ids: vec!["n1".to_string(), "n2".to_string()],
    });
    let topo = vec![
        ("n1".to_string(), vec!["n2".to_string()]),
        ("n2".to_string(), vec!["n1".to_string()]),
    ];
    let out = n1
        .step(msg("c1", "n1", Some(1), None, Payload::Topology { topology: topo }))
        .unwrap();
    assert_eq!(out.len(), 1);
    assert!(matches!(out[0].body.payload, Payload::TopologyOk));

    let out1 = n1
        .step(msg("c1", "n1", Some(2), None, Payload::Broadcast { message: 42 }))
        .unwrap();
    // one broadcast_ok back to c1 and one forwarded copy to n2
    assert_eq!(out1.len(), 2);
    assert!(matches!(out1[0].body.payload, Payload::BroadcastOk));
    assert_eq!(out1[0].dst, "c1");
    assert!(matches!(out1[1].body.payload, Payload::Broadcast { message: 42 }));
    assert_eq!(out1[1].dst, "n2");

    let out2 = n1
        .step(msg("c1", "n1", Some(3), None, Payload::Broadcast { message: 42 }))
        .unwrap();
    // the duplicate is acknowledged but not forwarded again
    assert_eq!(out2.len(), 1);
    assert!(matches!(out2[0].body.payload, Payload::BroadcastOk));

    let out3 = n1.step(msg("c1", "n1", Some(4), None, Payload::Read)).unwrap();
    assert_eq!(out3.len(), 1);
    match &out3[0].body.payload {
        Payload::ReadOkMessages { messages } => assert_eq!(messages, &vec![42]),
        p => panic!("unexpected payload {:?}", p),
    }
}

#[test]
fn broadcast_retransmit_scenario() {
    let mut n1 = BroadcastNode::from_init(Init {
        node_id: "n1".to_string(),
        node_ids: vec!["n1".to_string(), "n2".to_string()],
    });
    let topo = vec![("n1".to_string(), vec!["n2".to_string()])];
    n1.step(msg("c1", "n1", Some(1), None, Payload::Topology { topology: topo })).unwrap();
    let out = n1
        .step(msg("c1", "n1", Some(2), None, Payload::Broadcast { message: 42 }))
        .unwrap();
    let k = out[1].body.id.expect("forwarded copy carries an id");

    // n2 never replies: each tick re-sends the copy with the same id
    let tick = msg("n1", "n1", None, None, Payload::BroadcastUnAcked);
    let r1 = n1.step(tick.clone()).unwrap();
    assert_eq!(r1.len(), 1);
    assert_eq!(r1[0].body.id, Some(k));
    assert!(matches!(r1[0].body.payload, Payload::Broadcast { message: 42 }));
    let r2 = n1.step(tick.clone()).unwrap();
    assert_eq!(r2.len(), 1);
    assert_eq!(r2[0].body.id, Some(k));

    // after the acknowledgement arrives, no further retransmits occur
    let ok = msg("n2", "n1", Some(9), Some(k), Payload::BroadcastOk);
    assert_eq!(n1.step(ok).unwrap().len(), 0);
    assert_eq!(n1.step(tick).unwrap().len(), 0);
}

#[test]
fn counter_scenario() {
    let mut n = GrowOnlyCounter::from_init(Init {
        node_id: "n1".to_string(),
        node_ids: vec!["n1".to_string(), "n2".to_string()],
    });
    assert_eq!(n.node_ids, vec!["n2".to_string()]);
    n.step(msg("c1", "n1", Some(1), None, Payload::Add { delta: 5 })).unwrap();
    n.step(msg("c1", "n1", Some(2), None, Payload::Add { delta: 7 })).unwrap();
    let out = n.step(msg("c1", "n1", Some(3), None, Payload::Read)).unwrap();
    match &out[0].body.payload {
        Payload::ReadOk { value } => assert_eq!(*value, 12),
        p => panic!("unexpected payload {:?}", p),
    }
    // a peer reports its own contribution; reads then include it
    let out = n.step(msg("n2", "n1", None, None, Payload::ServerReadOk { value: 3 })).unwrap();
    assert_eq!(out.len(), 0);
    let out = n.step(msg("c1", "n1", Some(4), None, Payload::Read)).unwrap();
    match &out[0].body.payload {
        Payload::ReadOk { value } => assert_eq!(*value, 15),
        p => panic!("unexpected payload {:?}", p),
    }
    // a fresher report replaces the old one instead of adding to it
    n.step(msg("n2", "n1", None, None, Payload::ServerReadOk { value: 4 })).unwrap();
    let out = n.step(msg("c1", "n1", Some(5), None, Payload::Read)).unwrap();
    match &out[0].body.payload {
        Payload::ReadOk { value } => assert_eq!(*value, 16),
        p => panic!("unexpected payload {:?}", p),
    }
}

/// Feeds one store reply into the node, answering the request it just made.
fn kv_reply(n: &mut KafkaLog, req: &Message, payload: Payload) -> Vec<Message> {
    let reply = msg(
        req.dst.as_str(),
        req.src.as_str(),
        Some(1000),
        Some(req.body.id.expect("store requests carry ids")),
        payload,
    );
    n.step(reply).unwrap()
}

#[test]
fn kafka_send_offset_allocation() {
    let mut n = KafkaLog::from_init(Init {
        node_id: "n0".to_string(),
        node_ids: vec!["n0".to_string()],
    });

    // first send with empty stores: the latest-counter read misses, the
    // compare-and-set from zero to one wins, offset one is allocated
    let out = n
        .step(msg("c1", "n0", Some(1), None, Payload::Send { key: "a".to_string(), msg: 9 }))
        .unwrap();
    assert_eq!(out.len(), 1);
    assert_eq!(out[0].dst, "lin-kv");
    assert!(matches!(&out[0].body.payload, Payload::KvRead { key } if key == "a:latest"));
    let out = kv_reply(&mut n, &out[0], Payload::Error { code: 20, text: "key does not exist".to_string() });
    assert!(
        matches!(&out[0].body.payload, Payload::Cas { key, from: 0, to: 1, put: true } if key == "a:latest")
    );
    let out = kv_reply(&mut n, &out[0], Payload::CasOk);
    assert!(
        matches!(&out[0].body.payload, Payload::Write { key, value: 9 } if key == "a:1")
    );
    assert_eq!(out[0].dst, "seq-kv");
    let out = kv_reply(&mut n, &out[0], Payload::WriteOk);
    assert!(
        matches!(&out[0].body.payload, Payload::Write { key, value: 1 } if key == "a:latest")
    );
    let out = kv_reply(&mut n, &out[0], Payload::WriteOk);
    assert_eq!(out[0].dst, "c1");
    assert!(matches!(out[0].body.payload, Payload::SendOk { offset: 1 }));
    assert_eq!(out[0].body.in_reply_to, Some(1));

    // second send: the counter reads one, the stale compare-and-set loses,
    // the retry wins, offset two is allocated
    let out = n
        .step(msg("c2", "n0", Some(2), None, Payload::Send { key: "a".to_string(), msg: 10 }))
        .unwrap();
    assert!(matches!(&out[0].body.payload, Payload::KvRead { key } if key == "a:latest"));
    let out = kv_reply(&mut n, &out[0], Payload::ReadOk { value: 1 });
    assert!(matches!(&out[0].body.payload, Payload::Cas { from: 0, to: 1, .. }));
    let out = kv_reply(
        &mut n,
        &out[0],
        Payload::Error { code: 22, text: "precondition failed".to_string() },
    );
    assert!(matches!(&out[0].body.payload, Payload::Cas { from: 1, to: 2, .. }));
    let out = kv_reply(&mut n, &out[0], Payload::CasOk);
    assert!(matches!(&out[0].body.payload, Payload::Write { key, value: 10 } if key == "a:2"));
    let out = kv_reply(&mut n, &out[0], Payload::WriteOk);
    let out = kv_reply(&mut n, &out[0], Payload::WriteOk);
    assert!(matches!(out[0].body.payload, Payload::SendOk { offset: 2 }));

    // poll from offset one returns both entries in order
    let out = n
        .step(msg(
            "c1",
            "n0",
            Some(3),
            None,
            Payload::Poll { offsets: vec![("a".to_string(), 1)] },
        ))
        .unwrap();
    assert!(matches!(&out[0].body.payload, Payload::KvRead { key } if key == "a:1"));
    let out = kv_reply(&mut n, &out[0], Payload::ReadOk { value: 9 });
    assert!(matches!(&out[0].body.payload, Payload::KvRead { key } if key == "a:2"));
    let out = kv_reply(&mut n, &out[0], Payload::ReadOk { value: 10 });
    assert!(matches!(&out[0].body.payload, Payload::KvRead { key } if key == "a:3"));
    let out = kv_reply(
        &mut n,
        &out[0],
        Payload::Error { code: 20, text: "key does not exist".to_string() },
    );
    assert_eq!(out[0].dst, "c1");
    match &out[0].body.payload {
        Payload::PollOk { msgs } => {
            assert_eq!(msgs, &vec![("a".to_string(), vec![(1, 9), (2, 10)])]);
        },
        p => panic!("unexpected payload {:?}", p),
    }
}

#[test]
fn kafka_commit_and_list() {
    let mut n = KafkaLog::from_init(Init {
        node_id: "n0".to_string(),
        node_ids: vec!["n0".to_string()],
    });
    let out = n
        .step(msg(
            "c1",
            "n0",
            Some(1),
            None,
            Payload::CommitOffsets { offsets: vec![("a".to_string(), 1)] },
        ))
        .unwrap();
    assert!(matches!(&out[0].body.payload, Payload::Write { key, value: 1 } if key == "commit:a"));
    assert_eq!(out[0].dst, "seq-kv");
    let out = kv_reply(&mut n, &out[0], Payload::WriteOk);
    assert!(matches!(out[0].body.payload, Payload::CommitOffsetsOk));
    assert_eq!(out[0].body.in_reply_to, Some(1));

    let out = n
        .step(msg(
            "c1",
            "n0",
            Some(2),
            None,
            Payload::ListCommittedOffsets { keys: vec!["a".to_string(), "b".to_string()] },
        ))
        .unwrap();
    assert!(matches!(&out[0].body.payload, Payload::KvRead { key } if key == "commit:a"));
    let out = kv_reply(&mut n, &out[0], Payload::ReadOk { value: 1 });
    assert!(matches!(&out[0].body.payload, Payload::KvRead { key } if key == "commit:b"));
    let out = kv_reply(
        &mut n,
        &out[0],
        Payload::Error { code: 20, text: "key does not exist".to_string() },
    );
    match &out[0].body.payload {
        Payload::ListCommittedOffsetsOk { offsets } => {
            assert_eq!(offsets, &vec![("a".to_string(), 1), ("b".to_string(), 0)]);
        },
        p => panic!("unexpected payload {:?}", p),
    }
}

#[test]
fn encode_covers_collections() {
    let m = msg(
        "n1",
        "c1",
        Some(4),
        Some(2),
        Payload::PollOk { msgs: vec![("a".to_string(), vec![(1, 9), (2, 10)])] },
    );
    let line = encode_message(&m);
    json_eq(
        &line,
        "{\"src\":\"n1\",\"dest\":\"c1\",\"body\":{\"type\":\"poll_ok\",\"msg_id\":4,\"in_reply_to\":2,\"msgs\":{\"a\":[[1,9],[2,10]]}}}",
    );
    let m = msg(
        "c1",
        "n1",
        Some(1),
        None,
        Payload::Topology {
            topology: vec![
                ("n1".to_string(), vec!["n2".to_string()]),
                ("n2".to_string(), vec!["n1".to_string()]),
            ],
        },
    );
    json_eq(
        &encode_message(&m),
        "{\"src\":\"c1\",\"dest\":\"n1\",\"body\":{\"type\":\"topology\",\"msg_id\":1,\"topology\":{\"n1\":[\"n2\"],\"n2\":[\"n1\"]}}}",
    );
    let m = msg(
        "n0",
        "lin-kv",
        Some(3),
        None,
        Payload::Cas { key: "a:latest".to_string(), from: 0, to: 1, put: true },
    );
    json_eq(
        &encode_message(&m),
        "{\"src\":\"n0\",\"dest\":\"lin-kv\",\"body\":{\"type\":\"cas\",\"msg_id\":3,\"key\":\"a:latest\",\"from\":0,\"to\":1,\"create_if_not_exists\":true}}",
    );
}

#[test]
fn encode_escapes_strings() {
    let m = msg(
        "n1",
        "c1",
        Some(1),
        Some(2),
        Payload::EchoOk { echo: "a\"b\\c\nd".to_string() },
    );
    let line = encode_message(&m);
    json_eq(&line, "{\"src\":\"n1\",\"dest\":\"c1\",\"body\":{\"type\":\"echo_ok\",\"msg_id\":1,\"in_reply_to\":2,\"echo\":\"a\\\"b\\\\c\\nd\"}}");
    let v: serde_json::Value = serde_json::from_str(&line).unwrap();
    assert_eq!(v["body"]["echo"], serde_json::Value::String("a\"b\\c\nd".to_string()));

    // a bare control character is spelled with a \u escape, so the line
    // stays valid JSON and the value survives
    let m = msg(
        "n1",
        "c1",
        Some(1),
        Some(2),
        Payload::EchoOk { echo: "a\u{1}b".to_string() },
    );
    let line = encode_message(&m);
    assert_eq!(
        line,
        "{\"src\":\"n1\",\"dest\":\"c1\",\"body\":{\"type\":\"echo_ok\",\"msg_id\":1,\"in_reply_to\":2,\"echo\":\"a\\u0001b\"}}"
    );
    let v: serde_json::Value = serde_json::from_str(&line).unwrap();
    assert_eq!(v["body"]["echo"], serde_json::Value::String("a\u{1}b".to_string()));
}

#[test]
fn unexpected_payload_is_refused() {
    let mut node = EchoNode::from_init(Init { node_id: "n1".to_string(), node_ids: vec![] });
    let r = node.step(msg("c1", "n1", Some(1), None, Payload::Generate));
    assert_eq!(r, Err(nazgul::protocol::NodeError::UnexpectedPayload));
}

#[test]
fn topology_missing_self_is_fatal() {
    let mut n1 = BroadcastNode::from_init(Init { node_id: "n1".to_string(), node_ids: vec![] });
    let topo = vec![("n2".to_string(), vec!["n1".to_string()])];
    let r = n1.step(msg("c1", "n1", Some(1), None, Payload::Topology { topology: topo }));
    assert_eq!(r, Err(nazgul::protocol::NodeError::MissingTopologyEntry));
}

#[test]
fn kafka_queued_request_is_served_after_completion() {
    let mut n = KafkaLog::from_init(Init {
        node_id: "n0".to_string(),
        node_ids: vec!["n0".to_string()],
    });
    // a send conversation is in flight
    let out = n
        .step(msg("c1", "n0", Some(1), None, Payload::Send { key: "a".to_string(), msg: 9 }))
        .unwrap();
    // a second client request arrives meanwhile: queued, nothing emitted
    let queued = n
        .step(msg("c2", "n0", Some(2), None, Payload::Send { key: "b".to_string(), msg: 5 }))
        .unwrap();
    assert_eq!(queued.len(), 0);
    // the first conversation runs to its end; the reply is followed at once
    // by the queued conversation's first store call
    let out = kv_reply(&mut n, &out[0], Payload::Error { code: 20, text: "missing".to_string() });
    let out = kv_reply(&mut n, &out[0], Payload::CasOk);
    let out = kv_reply(&mut n, &out[0], Payload::WriteOk);
    let out = kv_reply(&mut n, &out[0], Payload::WriteOk);
    assert_eq!(out.len(), 2);
    assert!(matches!(out[0].body.payload, Payload::SendOk { offset: 1 }));
    assert_eq!(out[0].dst, "c1");
    assert!(matches!(&out[1].body.payload, Payload::KvRead { key } if key == "b:latest"));
    assert_eq!(out[1].dst, "lin-kv");
}

#[test]
fn kafka_queued_empty_commit_is_answered() {
    let mut n = KafkaLog::from_init(Init {
        node_id: "n0".to_string(),
        node_ids: vec!["n0".to_string()],
    });
    let out = n
        .step(msg("c1", "n0", Some(1), None, Payload::Send { key: "a".to_string(), msg: 9 }))
        .unwrap();
    // an empty commit arrives while busy: queued
    let queued = n
        .step(msg("c3", "n0", Some(5), None, Payload::CommitOffsets { offsets: vec![] }))
        .unwrap();
    assert_eq!(queued.len(), 0);
    // once the send finishes, the queued commit is answered immediately
    let out = kv_reply(&mut n, &out[0], Payload::ReadOk { value: 1 });
    let out = kv_reply(&mut n, &out[0], Payload::CasOk);
    let out = kv_reply(&mut n, &out[0], Payload::WriteOk);
    let out = kv_reply(&mut n, &out[0], Payload::WriteOk);
    assert_eq!(out.len(), 2);
    assert!(matches!(out[0].body.payload, Payload::SendOk { offset: 1 }));
    assert!(matches!(out[1].body.payload, Payload::CommitOffsetsOk));
    assert_eq!(out[1].dst, "c3");
    assert_eq!(out[1].body.in_reply_to, Some(5));
}

#[test]
fn kafka_failed_log_write_is_fatal() {
    let mut n = KafkaLog::from_init(Init {
        node_id: "n0".to_string(),
        node_ids: vec!["n0".to_string()],
    });
    let out = n
        .step(msg("c1", "n0", Some(1), None, Payload::Send { key: "a".to_string(), msg: 9 }))
        .unwrap();
    let out = kv_reply(&mut n, &out[0], Payload::ReadOk { value: 1 });
    let out = kv_reply(&mut n, &out[0], Payload::CasOk);
    // the store refuses the entry write: the step reports a fatal error
    let reply = msg(
        "seq-kv",
        "n0",
        Some(1000),
        Some(out[0].body.id.unwrap()),
        Payload::Error { code: 13, text: "store unavailable".to_string() },
    );
    let r = n.step(reply);
    assert_eq!(r, Err(nazgul::protocol::NodeError::StoreWriteFailed));
}

#[test]
fn decode_inverts_encode() {
    let samples = vec![
        msg("c1", "n1", Some(1), None, Payload::Init(Init {
            node_id: "n1".to_string(),
            node_ids: vec!["n1".to_string(), "n2".to_string()],
        })),
        msg("c1", "n1", Some(2), None, Payload::Echo { echo: "a\"b\\c\n\u{1}d".to_string() }),
        msg("n1", "c1", Some(3), Some(2), Payload::ReadOkMessages { messages: vec![1, 42] }),
        msg("c1", "n1", Some(4), None, Payload::Topology {
            topology: vec![("n1".to_string(), vec!["n2".to_string()])],
        }),
        msg("n0", "lin-kv", Some(5), None, Payload::Cas {
            key: "a:latest".to_string(),
            from: 0,
            to: 1,
            put: true,
        }),
        msg("n0", "c1", Some(6), Some(3), Payload::PollOk {
            msgs: vec![("a".to_string(), vec![(1, 9), (2, 10)])],
        }),
        msg("n1", "n1", None, None, Payload::BroadcastUnAcked),
    ];
    for m in samples {
        let line = encode_message(&m);
        let back = decode_message(&line).expect("canonical text decodes");
        assert_eq!(back, m);
    }
}

#[test]
fn decode_reads_the_wire_forms() {
    // field order and unknown fields as the harness may send them
    let m = decode_message(
        "{\"src\":\"c1\",\"dest\":\"n1\",\"body\":{\"type\":\"init\",\"msg_id\":1,\"node_id\":\"n1\",\"node_ids\":[\"n1\"]}}",
    )
    .expect("init line decodes");
    assert_eq!(m.src, "c1");
    assert_eq!(m.body.id, Some(1));
    assert!(matches!(&m.body.payload, Payload::Init(i) if i.node_id == "n1"));
    let m = decode_message(
        "{\"src\":\"c1\",\"dest\":\"n3\",\"body\":{\"msg_id\":7,\"type\":\"generate\",\"extra\":{\"x\":[1,true]}}}",
    )
    .expect("reordered line with unknown field decodes");
    assert!(matches!(m.body.payload, Payload::Generate));
    assert_eq!(m.body.id, Some(7));
    // a broken line is refused, the node lives on
    assert!(decode_message("{\"src\":\"c1\"}").is_none());
    assert!(decode_message("not json").is_none());
}
