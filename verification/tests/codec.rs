use aimdb::codec::{code_err, err_code, AimxCodec};
use aimdb::session::{CodecError, EnvelopeCodec, Inbound, Outbound, RpcError};

fn payload(s: &str) -> Vec<u8> {
    s.as_bytes().to_vec()
}

/// Encode client-direction, decode server-direction (the request path).
fn roundtrip_inbound(msg: Inbound) -> Inbound {
    let codec = AimxCodec;
    let mut out = Vec::new();
    codec.encode_inbound(msg, &mut out).expect("encode_inbound");
    codec.decode(&out).expect("decode")
}

/// Encode server-direction, return the frame bytes (the reply/event path).
fn encode_outbound(msg: Outbound) -> Vec<u8> {
    let codec = AimxCodec;
    let mut out = Vec::new();
    codec.encode(msg, &mut out).expect("encode");
    out
}

#[test]
fn request_roundtrip() {
    match roundtrip_inbound(Inbound::Request {
        id: 7,
        method: "record.get".to_string(),
        params: payload(r#"{"name":"temp"}"#),
    }) {
        Inbound::Request { id, method, params } => {
            assert_eq!(id, 7);
            assert_eq!(method, "record.get");
            assert_eq!(&params[..], br#"{"name":"temp"}"#);
        }
        _ => panic!("expected Request"),
    }
}

#[test]
fn subscribe_and_unsubscribe_roundtrip() {
    match roundtrip_inbound(Inbound::Subscribe {
        id: 3,
        topic: "sensors.#".to_string(),
    }) {
        Inbound::Subscribe { id, topic } => {
            assert_eq!(id, 3);
            assert_eq!(topic, "sensors.#");
        }
        _ => panic!("expected Subscribe"),
    }
    match roundtrip_inbound(Inbound::Unsubscribe {
        sub: "3".to_string(),
    }) {
        Inbound::Unsubscribe { sub } => assert_eq!(sub, "3"),
        _ => panic!("expected Unsubscribe"),
    }
}

#[test]
fn write_roundtrip_splices_payload_verbatim() {
    match roundtrip_inbound(Inbound::Write {
        topic: "cfg".to_string(),
        payload: payload(r#"{"value":{"level":9}}"#),
    }) {
        Inbound::Write { topic, payload } => {
            assert_eq!(topic, "cfg");
            assert_eq!(&payload[..], br#"{"value":{"level":9}}"#);
        }
        _ => panic!("expected Write"),
    }
}

#[test]
fn ping_pong_roundtrip() {
    assert!(matches!(roundtrip_inbound(Inbound::Ping), Inbound::Ping));
    let frame = encode_outbound(Outbound::Pong);
    assert!(matches!(
        AimxCodec.decode_outbound(&frame).unwrap(),
        Outbound::Pong
    ));
}

#[test]
fn reply_ok_roundtrip() {
    let frame = encode_outbound(Outbound::Reply {
        id: 11,
        result: Ok(payload(r#"{"status":"success"}"#)),
    });
    match AimxCodec.decode_outbound(&frame).unwrap() {
        Outbound::Reply { id, result } => {
            assert_eq!(id, 11);
            assert_eq!(&result.unwrap()[..], br#"{"status":"success"}"#);
        }
        _ => panic!("expected Reply"),
    }
}

#[test]
fn reply_err_codes_roundtrip() {
    for err in [
        RpcError::NotFound,
        RpcError::Denied,
        RpcError::Internal,
        RpcError::VersionMismatch,
    ] {
        let frame = encode_outbound(Outbound::Reply {
            id: 1,
            result: Err(err.clone()),
        });
        match AimxCodec.decode_outbound(&frame).unwrap() {
            Outbound::Reply { result, .. } => assert_eq!(result.unwrap_err(), err),
            _ => panic!("expected Reply"),
        }
    }
}

#[test]
fn event_roundtrip_without_topic() {
    let frame = encode_outbound(Outbound::Event {
        sub: "5".to_string(),
        seq: 2,
        topic: None,
        data: payload("42"),
    });
    // The optional field skip-serializes — the exact-topic wire is unchanged.
    assert!(!frame.windows(7).any(|w| w == b"\"topic\""));
    match AimxCodec.decode_outbound(&frame).unwrap() {
        Outbound::Event {
            sub,
            seq,
            topic,
            data,
        } => {
            assert_eq!((sub.as_str(), seq, topic.as_deref()), ("5", 2, None));
            assert_eq!(&data[..], b"42");
        }
        _ => panic!("expected Event"),
    }
}

#[test]
fn event_roundtrip_with_topic() {
    let frame = encode_outbound(Outbound::Event {
        sub: "5".to_string(),
        seq: 9,
        topic: Some("temp.vienna".to_string()),
        data: payload(r#"{"c":21.5}"#),
    });
    match AimxCodec.decode_outbound(&frame).unwrap() {
        Outbound::Event { sub, topic, .. } => {
            assert_eq!(sub, "5");
            assert_eq!(topic.as_deref(), Some("temp.vienna"));
        }
        _ => panic!("expected Event"),
    }
}

#[test]
fn snapshot_roundtrip_carries_sub_and_topic() {
    let frame = encode_outbound(Outbound::Snapshot {
        sub: "8".to_string(),
        topic: "temp.berlin".to_string(),
        data: payload(r#"{"c":18.0}"#),
    });
    match AimxCodec.decode_outbound(&frame).unwrap() {
        Outbound::Snapshot { sub, topic, data } => {
            assert_eq!((sub.as_str(), topic.as_str()), ("8", "temp.berlin"));
            assert_eq!(&data[..], br#"{"c":18.0}"#);
        }
        _ => panic!("expected Snapshot"),
    }
}

#[test]
fn subscribed_ack_roundtrip() {
    let frame = encode_outbound(Outbound::Subscribed {
        sub: "13".to_string(),
    });
    match AimxCodec.decode_outbound(&frame).unwrap() {
        Outbound::Subscribed { sub } => assert_eq!(sub, "13"),
        _ => panic!("expected Subscribed"),
    }
}

#[test]
fn malformed_frames_are_rejected() {
    let codec = AimxCodec;
    assert!(codec.decode(b"{not json").is_err());
    assert!(codec.decode(br#"{"t":"nope"}"#).is_err());
    // A `sub` frame missing its topic is malformed.
    assert!(codec.decode(br#"{"t":"sub","id":1}"#).is_err());
    assert!(codec.decode_outbound(br#"{"t":"reply","id":1}"#).is_err());
    // A snap without its routing sub is malformed on the new wire.
    assert!(codec
        .decode_outbound(br#"{"t":"snap","topic":"x","data":1}"#)
        .is_err());
}

// ---------------------------------------------------------------------------
// The exact wire bytes and the member checks.
// ---------------------------------------------------------------------------

#[test]
fn members_are_written_in_field_order() {
    let frame = encode_outbound(Outbound::Event {
        sub: "5".to_string(),
        seq: 9,
        topic: Some("temp.vienna".to_string()),
        data: payload(" {\"c\":21.5} "),
    });
    assert_eq!(
        frame,
        br#"{"t":"event","seq":9,"topic":"temp.vienna","sub":"5","data":{"c":21.5}}"#.to_vec()
    );
    let mut out = b"x".to_vec();
    AimxCodec
        .encode_inbound(
            Inbound::Request {
                id: 18446744073709551615,
                method: "say \"hi\"".to_string(),
                params: payload("null"),
            },
            &mut out,
        )
        .unwrap();
    assert_eq!(
        out,
        br#"x{"t":"req","id":18446744073709551615,"method":"say \"hi\"","params":null}"#.to_vec()
    );
}

#[test]
fn an_invalid_value_leaves_the_output_untouched() {
    let mut out = b"keep".to_vec();
    let r = AimxCodec.encode(
        Outbound::Reply {
            id: 1,
            result: Ok(payload("{oops")),
        },
        &mut out,
    );
    assert_eq!(r, Err(CodecError::Malformed));
    assert_eq!(out, b"keep".to_vec());
    let r = AimxCodec.encode_inbound(
        Inbound::Write {
            topic: "t".to_string(),
            payload: payload("1 2"),
        },
        &mut out,
    );
    assert_eq!(r, Err(CodecError::Malformed));
    assert_eq!(out, b"keep".to_vec());
}

#[test]
fn error_replies_carry_their_code() {
    let frame = encode_outbound(Outbound::Reply {
        id: 4,
        result: Err(RpcError::VersionMismatch),
    });
    assert_eq!(frame, br#"{"t":"reply","id":4,"err":"version_mismatch"}"#.to_vec());
    assert_eq!(err_code(&RpcError::Denied), "denied");
    assert_eq!(code_err("not_found"), RpcError::NotFound);
    assert_eq!(code_err("something_else"), RpcError::Internal);
}

#[test]
fn known_members_are_type_checked_whatever_the_tag() {
    let codec = AimxCodec;
    assert!(matches!(codec.decode(br#"{"t":"ping"}"#), Ok(Inbound::Ping)));
    assert!(codec.decode(br#"{"t":"ping","id":"x"}"#).is_err());
    assert!(codec.decode(br#"{"t":"ping","id":-1}"#).is_err());
    assert!(codec.decode(br#"{"t":"ping","id":1.5}"#).is_err());
    assert!(codec.decode(br#"{"t":"ping","id":18446744073709551616}"#).is_err());
    assert!(codec.decode(br#"{"t":"ping","topic":7}"#).is_err());
    assert!(matches!(
        codec.decode(br#"{"t":"ping","id":null,"other":[1,2]}"#),
        Ok(Inbound::Ping)
    ));
    // A string with an escape sequence cannot be borrowed from the frame.
    assert!(codec.decode(br#"{"t":"sub","id":1,"topic":"a\"b"}"#).is_err());
    assert!(codec.decode(br#"{"t":null}"#).is_err());
    assert!(codec.decode(br#"{"id":1}"#).is_err());
}

#[test]
fn a_missing_value_reads_as_null() {
    match AimxCodec.decode(br#"{"t":"req","id":2,"method":"m"}"#).unwrap() {
        Inbound::Request { params, .. } => assert_eq!(params, b"null".to_vec()),
        _ => panic!("expected Request"),
    }
    match AimxCodec.decode(br#"{"t":"write","topic":"k","payload":null}"#).unwrap() {
        Inbound::Write { payload, .. } => assert_eq!(payload, b"null".to_vec()),
        _ => panic!("expected Write"),
    }
    // A reply whose `ok` is null falls back to its error code.
    match AimxCodec
        .decode_outbound(br#"{"t":"reply","id":3,"ok":null,"err":"denied"}"#)
        .unwrap()
    {
        Outbound::Reply { result, .. } => assert_eq!(result, Err(RpcError::Denied)),
        _ => panic!("expected Reply"),
    }
    assert!(AimxCodec
        .decode_outbound(br#"{"t":"reply","id":3,"ok":null}"#)
        .is_err());
}

#[test]
fn array_frames_name_fields_by_position() {
    let codec = AimxCodec;
    match codec.decode(br#"["sub", 9, null, null, "temp.*"]"#) {
        Ok(Inbound::Subscribe { id, topic }) => {
            assert_eq!(id, 9);
            assert_eq!(topic, "temp.*");
        }
        _ => panic!("expected Subscribe"),
    }
    assert!(matches!(codec.decode(br#"["ping"]"#), Ok(Inbound::Ping)));
    assert_eq!(codec.decode(b"[]").unwrap_err(), CodecError::Malformed);
    assert_eq!(
        codec.decode(br#"["ping",null,null,null,null,null,null,null,null,null,null,null]"#).unwrap_err(),
        CodecError::Malformed
    );
}

#[test]
fn strings_are_written_with_json_escapes() {
    let codec = AimxCodec;
    let mut out = Vec::new();
    codec
        .encode_inbound(
            Inbound::Subscribe { id: 1, topic: "a\"b\\c\n\u{1}\u{7f}é".to_string() },
            &mut out,
        )
        .unwrap();
    assert_eq!(
        String::from_utf8(out).unwrap(),
        "{\"t\":\"sub\",\"id\":1,\"topic\":\"a\\\"b\\\\c\\n\\u0001\u{7f}é\"}"
    );
}
