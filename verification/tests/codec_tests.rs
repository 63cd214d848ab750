use roslyn_ls::codec::{decode, encode, Decoded};
use roslyn_ls::json::Json;
use roslyn_ls::message::{Message, MsgId, ResponseBody};

fn bytes(s: &str) -> Vec<u8> {
    s.as_bytes().to_vec()
}

fn obj(members: Vec<(&str, Json)>) -> Json {
    Json::Obj(
        members
            .into_iter()
            .map(|(k, v)| (bytes(k), v))
            .collect(),
    )
}

fn round_trips(m: Message) {
    let encoded = encode(&m);
    match decode(&encoded) {
        Decoded::Msg(back, used) => {
            assert_eq!(back, m);
            assert_eq!(used, encoded.len());
        }
        other => panic!("expected a message, got {:?}", other),
    }
}

#[test]
fn round_trip_requests() {
    round_trips(Message::Request {
        id: MsgId::Int(1),
        method: bytes("initialize"),
        params: Some(obj(vec![("rootUri", Json::Str(bytes("file:///repo")))])),
    });
    round_trips(Message::Request {
        id: MsgId::Text(bytes("alpha-7")),
        method: bytes("shutdown"),
        params: None,
    });
    round_trips(Message::Request {
        id: MsgId::Int(i64::MIN),
        method: bytes("m"),
        params: Some(Json::Arr(vec![
            Json::Int(i64::MAX),
            Json::Null,
            Json::Bool(true),
            Json::Bool(false),
        ])),
    });
}

#[test]
fn round_trip_notifications_with_nested_and_non_ascii_payloads() {
    round_trips(Message::Notification {
        method: bytes("textDocument/didOpen"),
        params: Some(obj(vec![(
            "textDocument",
            obj(vec![
                ("uri", Json::Str(bytes("file:///\u{00fc}ber/\u{1f600}.cs"))),
                ("text", Json::Str(bytes("line1\nline2\t\"quoted\"\\end\u{0001}"))),
            ]),
        )])),
    });
    round_trips(Message::Notification {
        method: bytes("exit"),
        params: None,
    });
    round_trips(Message::Notification {
        method: bytes("deep"),
        params: Some(Json::Arr(vec![Json::Arr(vec![Json::Arr(vec![obj(vec![(
            "k",
            Json::Arr(vec![Json::Int(-1), Json::Int(0), Json::Int(42)]),
        )])])])])),
    });
}

#[test]
fn round_trip_responses() {
    round_trips(Message::Response {
        id: MsgId::Int(7),
        body: ResponseBody::Success(obj(vec![("capabilities", obj(vec![]))])),
    });
    round_trips(Message::Response {
        id: MsgId::Text(bytes("q")),
        body: ResponseBody::Failure(obj(vec![
            ("code", Json::Int(-32601)),
            ("message", Json::Str(bytes("method not found"))),
        ])),
    });
}

#[test]
fn encode_produces_the_exact_wire_bytes() {
    let m = Message::Request {
        id: MsgId::Int(1),
        method: bytes("initialize"),
        params: Some(obj(vec![("rootUri", Json::Str(bytes("file:///repo")))])),
    };
    let expected_body =
        "{\"jsonrpc\":\"2.0\",\"id\":1,\"method\":\"initialize\",\"params\":{\"rootUri\":\"file:///repo\"}}";
    let expected = format!("Content-Length: {}\r\n\r\n{}", expected_body.len(), expected_body);
    assert_eq!(encode(&m), expected.as_bytes().to_vec());
}

#[test]
fn decode_accepts_extra_headers_and_whitespace() {
    let body = "{ \"jsonrpc\" : \"2.0\" ,\n \"method\" : \"exit\" }";
    let framed = format!(
        "X-Peer: editor\r\nContent-Length: {}\r\nX-After: 1\r\n\r\n{}",
        body.len(),
        body
    );
    match decode(&framed.as_bytes().to_vec()) {
        Decoded::Msg(m, used) => {
            assert_eq!(used, framed.len());
            assert_eq!(
                m,
                Message::Notification {
                    method: bytes("exit"),
                    params: None,
                }
            );
        }
        other => panic!("expected a message, got {:?}", other),
    }
}

#[test]
fn decode_accepts_string_escapes() {
    let body = "{\"jsonrpc\":\"2.0\",\"method\":\"m\",\"params\":{\"s\":\"a\\u0041\\n\\\"\\\\\\u00e9\"}}";
    let framed = format!("Content-Length: {}\r\n\r\n{}", body.len(), body);
    match decode(&framed.as_bytes().to_vec()) {
        Decoded::Msg(m, _) => match m {
            Message::Notification { method: _, params: Some(Json::Obj(ps)) } => {
                assert_eq!(ps[0].0, bytes("s"));
                assert_eq!(ps[0].1, Json::Str("aA\n\"\\\u{00e9}".as_bytes().to_vec()));
            }
            other => panic!("unexpected message {:?}", other),
        },
        other => panic!("expected a message, got {:?}", other),
    }
}

#[test]
fn decode_reports_a_short_buffer() {
    let framed = b"Content-Length: 50\r\n\r\n0123456789".to_vec();
    assert!(matches!(decode(&framed), Decoded::NeedMore));
    let no_delimiter = b"Content-Length: 5\r\n".to_vec();
    assert!(matches!(decode(&no_delimiter), Decoded::NeedMore));
}

#[test]
fn decode_rejects_a_header_without_a_parsable_length() {
    let no_length = b"X-Peer: editor\r\n\r\n{}".to_vec();
    assert!(matches!(decode(&no_length), Decoded::BadHeader));
    let not_a_number = b"Content-Length: abc\r\n\r\n{}".to_vec();
    assert!(matches!(decode(&not_a_number), Decoded::BadHeader));
    let trailing = b"Content-Length: 2x\r\n\r\n{}".to_vec();
    assert!(matches!(decode(&trailing), Decoded::BadHeader));
    // the prefix is case-sensitive and byte-exact
    let wrong_case = b"content-length: 2\r\n\r\n{}".to_vec();
    assert!(matches!(decode(&wrong_case), Decoded::BadHeader));
}

#[test]
fn decode_rejects_an_unusable_body() {
    let cases: &[&str] = &[
        "nope",
        "{\"a\":}",
        "{}extra",
        "[1,2",
        "{\"a\":01}",
        "{\"a\":1.}",
        "{\"a\":1e}",
        "{\"a\":-}",
        "{\"a\":1.5.5}",
        "\"unterminated",
        "",
    ];
    for body in cases {
        let framed = format!("Content-Length: {}\r\n\r\n{}", body.len(), body);
        assert!(
            matches!(decode(&framed.as_bytes().to_vec()), Decoded::BadBody),
            "body {:?} should be rejected",
            body
        );
    }
    // a shape that is valid JSON but no message
    let not_a_message = "{\"jsonrpc\":\"2.0\"}";
    let framed = format!("Content-Length: {}\r\n\r\n{}", not_a_message.len(), not_a_message);
    assert!(matches!(decode(&framed.as_bytes().to_vec()), Decoded::BadBody));
}

#[test]
fn decode_handles_number_range_edges() {
    for (text, value) in [
        ("-9223372036854775808", i64::MIN),
        ("9223372036854775807", i64::MAX),
        ("0", 0),
    ] {
        let body = format!("{{\"jsonrpc\":\"2.0\",\"id\":{},\"method\":\"m\"}}", text);
        let framed = format!("Content-Length: {}\r\n\r\n{}", body.len(), body);
        match decode(&framed.as_bytes().to_vec()) {
            Decoded::Msg(Message::Request { id, .. }, _) => assert_eq!(id, MsgId::Int(value)),
            other => panic!("expected a request, got {:?}", other),
        }
    }
    for text in ["-9223372036854775809", "9223372036854775808"] {
        let body = format!("{{\"jsonrpc\":\"2.0\",\"id\":{},\"method\":\"m\"}}", text);
        let framed = format!("Content-Length: {}\r\n\r\n{}", body.len(), body);
        assert!(matches!(decode(&framed.as_bytes().to_vec()), Decoded::BadBody));
    }
}

#[test]
fn decode_leaves_following_messages_in_place() {
    let first = encode(&Message::Notification {
        method: bytes("one"),
        params: None,
    });
    let second = encode(&Message::Notification {
        method: bytes("two"),
        params: None,
    });
    let mut both = first.clone();
    both.extend_from_slice(&second);
    match decode(&both) {
        Decoded::Msg(m, used) => {
            assert_eq!(used, first.len());
            assert!(matches!(m, Message::Notification { .. }));
        }
        other => panic!("expected a message, got {:?}", other),
    }
}

// a body whose numbers do not fit a signed 64-bit integer is forwarded
// with the literals kept verbatim
#[test]
fn numbers_beyond_i64_are_kept_verbatim() {
    let body = "{\"jsonrpc\":\"2.0\",\"method\":\"m\",\"params\":{\"x\":1.5,\"big\":18446744073709551616,\"e\":2e10,\"neg\":-0.25E-3}}";
    let framed = format!("Content-Length: {}\r\n\r\n{}", body.len(), body);
    let m = match decode(&framed.as_bytes().to_vec()) {
        Decoded::Msg(m, used) => {
            assert_eq!(used, framed.len());
            m
        }
        other => panic!("expected a message, got {:?}", other),
    };
    match &m {
        Message::Notification { method: _, params: Some(Json::Obj(ps)) } => {
            assert_eq!(ps[0].1, Json::Num(bytes("1.5")));
            assert_eq!(ps[1].1, Json::Num(bytes("18446744073709551616")));
            assert_eq!(ps[2].1, Json::Num(bytes("2e10")));
            assert_eq!(ps[3].1, Json::Num(bytes("-0.25E-3")));
        }
        other => panic!("unexpected message {:?}", other),
    }
    // the literals survive the round trip byte for byte
    let reencoded = encode(&m);
    match decode(&reencoded) {
        Decoded::Msg(back, _) => assert_eq!(back, m),
        other => panic!("expected the message back, got {:?}", other),
    }
    let text = String::from_utf8(reencoded).expect("the wire bytes are text");
    assert!(text.contains("18446744073709551616"));
    assert!(text.contains("1.5"));
}

#[test]
fn round_trip_kept_number_literals() {
    round_trips(Message::Notification {
        method: bytes("m"),
        params: Some(Json::Arr(vec![
            Json::Num(bytes("0.5")),
            Json::Num(bytes("-9223372036854775809")),
            Json::Num(bytes("9223372036854775808")),
            Json::Num(bytes("1e-100")),
            Json::Int(0),
        ])),
    });
}

// an identifier must be an integer or a string; a fractional one is no
// message
#[test]
fn fractional_identifiers_are_rejected() {
    let body = "{\"jsonrpc\":\"2.0\",\"id\":1.5,\"method\":\"m\"}";
    let framed = format!("Content-Length: {}\r\n\r\n{}", body.len(), body);
    assert!(matches!(decode(&framed.as_bytes().to_vec()), Decoded::BadBody));
}
