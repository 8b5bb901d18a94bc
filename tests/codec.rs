use json_hook::message::{decode, encode, DecodeError, Field, Message, Outcome};

#[test]
fn decodes_notification() {
    let m = decode(b"{\"jsonrpc\":\"2.0\",\"method\":\"org.debian.apt.hooks.install.pre-prompt\",\"params\":{}}").unwrap();
    match m {
        Message::Notification { method, params } => {
            assert_eq!(method, b"org.debian.apt.hooks.install.pre-prompt".to_vec());
            assert_eq!(params, Some(b"{}".to_vec()));
        }
        _ => panic!("not a notification"),
    }
}

#[test]
fn decodes_request_and_response() {
    match decode(b"{\"jsonrpc\":\"2.0\",\"id\":7,\"method\":\"m\"}").unwrap() {
        Message::Request { id, method, params } => {
            assert_eq!(id, b"7".to_vec());
            assert_eq!(method, b"m".to_vec());
            assert_eq!(params, None);
        }
        _ => panic!("not a request"),
    }
    match decode(b"{\"id\":\"a\",\"error\":{\"code\":1},\"jsonrpc\":\"2.0\"}").unwrap() {
        Message::Response { id, outcome: Outcome::Failure(e) } => {
            assert_eq!(id, b"\"a\"".to_vec());
            assert_eq!(e, b"{\"code\":1}".to_vec());
        }
        _ => panic!("not an error response"),
    }
}

#[test]
fn rejects_malformed_messages() {
    let cases: Vec<(&[u8], DecodeError)> = vec![
        (b"", DecodeError::MalformedMessage(Field::Document)),
        (b"[1]", DecodeError::MalformedMessage(Field::Document)),
        (b"{\"jsonrpc\":\"2.0\",\"method\":\"m\"", DecodeError::MalformedMessage(Field::Document)),
        (b"{\"jsonrpc\":\"2.0\",\"method\":\"m\",\"method\":\"n\"}", DecodeError::MalformedMessage(Field::Document)),
        (b"{\"method\":\"m\"}", DecodeError::MalformedMessage(Field::Jsonrpc)),
        (b"{\"jsonrpc\":\"1.0\",\"method\":\"m\"}", DecodeError::UnsupportedVersion),
        (b"{\"jsonrpc\":\"2.0\",\"id\":{},\"method\":\"m\"}", DecodeError::MalformedMessage(Field::Id)),
        (b"{\"jsonrpc\":\"2.0\",\"method\":5}", DecodeError::MalformedMessage(Field::Method)),
        (b"{\"jsonrpc\":\"2.0\",\"method\":\"m\",\"result\":1}", DecodeError::MalformedMessage(Field::Outcome)),
        (b"{\"jsonrpc\":\"2.0\"}", DecodeError::MalformedMessage(Field::Method)),
        (b"{\"jsonrpc\":\"2.0\",\"id\":1,\"params\":[],\"result\":1}", DecodeError::MalformedMessage(Field::Params)),
        (b"{\"jsonrpc\":\"2.0\",\"id\":1}", DecodeError::MalformedMessage(Field::Outcome)),
        (b"{\"jsonrpc\":\"2.0\",\"id\":1,\"result\":1,\"error\":2}", DecodeError::MalformedMessage(Field::Outcome)),
    ];
    for (frame, err) in cases {
        assert_eq!(decode(frame).unwrap_err(), err, "{:?}", String::from_utf8_lossy(frame));
    }
}

#[test]
fn encodes_capability_response() {
    let m = Message::Response { id: b"0".to_vec(), outcome: Outcome::Success(b"{\"version\":\"0.1\"}".to_vec()) };
    assert_eq!(encode(&m), b"{\"jsonrpc\":\"2.0\",\"id\":0,\"result\":{\"version\":\"0.1\"}}\n\n".to_vec());
}

#[test]
fn decode_then_encode_round_trips() {
    let frames: Vec<&[u8]> = vec![
        b"{\"jsonrpc\":\"2.0\",\"id\":3,\"method\":\"a.b\",\"params\":{\"k\":[1,{\"x\":\"}\"}]}}",
        b"{\"jsonrpc\":\"2.0\",\"method\":\"n\\\"q\",\"params\":[]}",
        b"{\"jsonrpc\":\"2.0\",\"method\":\"n\"}",
        b"{\"jsonrpc\":\"2.0\",\"id\":\"s\",\"result\":null}",
        b"{\"jsonrpc\":\"2.0\",\"id\":-4,\"error\":{\"code\":-1}}",
    ];
    for f in frames {
        let m = decode(f).unwrap();
        let mut expected = f.to_vec();
        expected.extend_from_slice(b"\n\n");
        assert_eq!(encode(&m), expected);
    }
}

#[test]
fn round_trip_puts_members_in_order() {
    let m = decode(b"{\"params\":{},\"method\":\"m\",\"jsonrpc\":\"2.0\"}").unwrap();
    assert_eq!(encode(&m), b"{\"jsonrpc\":\"2.0\",\"method\":\"m\",\"params\":{}}\n\n".to_vec());
}

#[test]
fn ignores_members_outside_the_protocol() {
    match decode(b"{\"jsonrpc\":\"2.0\",\"other\":1,\"method\":\"m\"}").unwrap() {
        Message::Notification { method, params } => {
            assert_eq!(method, b"m".to_vec());
            assert_eq!(params, None);
        }
        _ => panic!("not a notification"),
    }
    let m = decode(b"{\"x\":[1],\"jsonrpc\":\"2.0\",\"id\":1,\"result\":true}").unwrap();
    assert_eq!(encode(&m), b"{\"jsonrpc\":\"2.0\",\"id\":1,\"result\":true}\n\n".to_vec());
}

#[test]
fn scalars_must_be_json_literals_or_numbers() {
    for good in [&b"0"[..], b"-0.5e+3", b"12", b"1E9", b"true", b"false", b"null"] {
        let mut f = b"{\"jsonrpc\":\"2.0\",\"id\":1,\"result\":".to_vec();
        f.extend_from_slice(good);
        f.push(b'}');
        assert!(decode(&f).is_ok(), "{:?}", String::from_utf8_lossy(good));
    }
    for bad in [&b"nul"[..], b"01", b"1.", b"-", b"1e", b"+1", b"truex", b"abc"] {
        let mut f = b"{\"jsonrpc\":\"2.0\",\"id\":1,\"result\":".to_vec();
        f.extend_from_slice(bad);
        f.push(b'}');
        assert_eq!(decode(&f).unwrap_err(), DecodeError::MalformedMessage(Field::Document), "{:?}", String::from_utf8_lossy(bad));
    }
}
