use json_hook::frame::FrameReader;
use json_hook::message::Field;
use json_hook::session::{lifecycle, Action, Lifecycle, ReadFailure, Session, SessionError, SessionState};

const HELLO: &[u8] = b"{\"jsonrpc\":\"2.0\",\"method\":\"org.debian.apt.hooks.hello\",\"params\":{\"versions\":[\"0.1\"]}}\n\n";
const PRE_PROMPT: &[u8] = b"{\"jsonrpc\":\"2.0\",\"method\":\"org.debian.apt.hooks.install.pre-prompt\",\"params\":{}}\n\n";
const CAPABILITIES: &[u8] = b"{\"jsonrpc\":\"2.0\",\"id\":0,\"result\":{\"version\":\"0.1\"}}\n\n";

/// Feeds the chunks to a fresh session as a driver would, with every write
/// succeeding, then ends the stream. Returns the session and the bytes
/// written.
fn drive(chunks: &[&[u8]]) -> (Session, Vec<Vec<u8>>) {
    let mut session = Session::new();
    let mut reader = FrameReader::new(65536);
    let mut writes = Vec::new();
    assert!(matches!(session.channel_ready(), Action::ReadNext));
    let mut closed = false;
    for chunk in chunks {
        let (frames, status) = reader.push(chunk);
        assert_eq!(status, Ok(()));
        for f in frames {
            assert!(session.wants_frame());
            let mut action = session.on_frame(&f);
            loop {
                match action {
                    Action::Write(bytes) => {
                        writes.push(bytes);
                        action = session.on_written(true);
                    }
                    Action::Close => {
                        session.on_closed();
                        closed = true;
                        break;
                    }
                    _ => break,
                }
            }
            if closed {
                return (session, writes);
            }
        }
    }
    if matches!(session.on_read_failure(ReadFailure::EndOfStream), Action::Close) {
        session.on_closed();
    }
    (session, writes)
}

#[test]
fn hello_and_pre_prompt_end_to_end() {
    let (session, writes) = drive(&[HELLO, PRE_PROMPT]);
    assert_eq!(writes, vec![CAPABILITIES.to_vec()]);
    assert_eq!(session.state(), SessionState::Closed);
    assert_eq!(session.error(), None);
}

#[test]
fn end_to_end_in_small_reads() {
    let mut all = HELLO.to_vec();
    all.extend_from_slice(PRE_PROMPT);
    let chunks: Vec<&[u8]> = all.chunks(3).collect();
    let (session, writes) = drive(&chunks);
    assert_eq!(writes, vec![CAPABILITIES.to_vec()]);
    assert_eq!(session.state(), SessionState::Closed);
    assert_eq!(session.error(), None);
}

#[test]
fn pre_prompt_leaves_session_ready() {
    let mut session = Session::new();
    session.channel_ready();
    let hello = &HELLO[..HELLO.len() - 2];
    match session.on_frame(hello) {
        Action::Write(bytes) => assert_eq!(bytes, CAPABILITIES.to_vec()),
        _ => panic!("no capability response"),
    }
    assert_eq!(session.state(), SessionState::Negotiating);
    assert!(!session.wants_frame());
    assert!(matches!(session.on_written(true), Action::ReadNext));
    assert_eq!(session.state(), SessionState::Ready);
    assert!(matches!(
        session.on_frame(&PRE_PROMPT[..PRE_PROMPT.len() - 2]),
        Action::Acknowledge(Some(Lifecycle::InstallPrePrompt))
    ));
    assert_eq!(session.state(), SessionState::Ready);
    assert_eq!(session.error(), None);
}

#[test]
fn unknown_notification_is_acknowledged() {
    let mut session = Session::new();
    session.channel_ready();
    session.on_frame(&HELLO[..HELLO.len() - 2]);
    session.on_written(true);
    assert!(matches!(
        session.on_frame(b"{\"jsonrpc\":\"2.0\",\"method\":\"org.debian.apt.hooks.advice\",\"params\":{}}"),
        Action::Acknowledge(None)
    ));
    assert_eq!(session.state(), SessionState::Ready);
    assert!(session.wants_frame());
}

#[test]
fn lifecycle_names() {
    let cases: Vec<(&[u8], Option<Lifecycle>)> = vec![
        (b"org.debian.apt.hooks.install.pre-prompt", Some(Lifecycle::InstallPrePrompt)),
        (b"org.debian.apt.hooks.install.package-list", Some(Lifecycle::InstallPackageList)),
        (b"org.debian.apt.hooks.install.statistics", Some(Lifecycle::InstallStatistics)),
        (b"org.debian.apt.hooks.install.post", Some(Lifecycle::InstallPost)),
        (b"org.debian.apt.hooks.install.fail", Some(Lifecycle::InstallFail)),
        (b"org.debian.apt.hooks.search.pre", Some(Lifecycle::SearchPre)),
        (b"org.debian.apt.hooks.search.post", Some(Lifecycle::SearchPost)),
        (b"org.debian.apt.hooks.search.fail", Some(Lifecycle::SearchFail)),
        (b"org.debian.apt.hooks.bye", None),
        (b"org.debian.apt.hooks.hello", None),
        (b"install.post", None),
    ];
    for (name, expected) in cases {
        assert_eq!(lifecycle(name), expected);
    }
}

#[test]
fn hello_request_is_answered_with_its_id() {
    let mut session = Session::new();
    session.channel_ready();
    let hello = b"{\"jsonrpc\":\"2.0\",\"method\":\"org.debian.apt.hooks.hello\",\"id\":5,\"params\":{\"versions\":[\"0.2\",\"0.1\"]}}";
    match session.on_frame(hello) {
        Action::Write(bytes) => assert_eq!(bytes, b"{\"jsonrpc\":\"2.0\",\"id\":5,\"result\":{\"version\":\"0.1\"}}\n\n".to_vec()),
        _ => panic!("no capability response"),
    }
}

#[test]
fn unsupported_major_version_fails_without_response() {
    let mut session = Session::new();
    session.channel_ready();
    let hello = b"{\"jsonrpc\":\"2.0\",\"method\":\"org.debian.apt.hooks.hello\",\"params\":{\"versions\":[\"1.0\",\"10\"]}}";
    assert!(matches!(session.on_frame(hello), Action::Close));
    assert_eq!(session.state(), SessionState::Failed);
    assert_eq!(session.error(), Some(SessionError::VersionMismatch));
    session.on_closed();
    assert_eq!(session.state(), SessionState::Closed);
    assert_eq!(session.error(), Some(SessionError::VersionMismatch));
}

#[test]
fn hello_without_versions_is_malformed() {
    let mut session = Session::new();
    session.channel_ready();
    let hello = b"{\"jsonrpc\":\"2.0\",\"method\":\"org.debian.apt.hooks.hello\",\"params\":{}}";
    assert!(matches!(session.on_frame(hello), Action::Close));
    assert_eq!(session.error(), Some(SessionError::MalformedMessage(Field::Params)));
}

#[test]
fn message_before_hello_is_out_of_order() {
    let mut session = Session::new();
    session.channel_ready();
    assert!(matches!(session.on_frame(&PRE_PROMPT[..PRE_PROMPT.len() - 2]), Action::Close));
    assert_eq!(session.error(), Some(SessionError::UnexpectedMessageOrder));
}

#[test]
fn undecodable_frame_fails_the_session() {
    let mut session = Session::new();
    session.channel_ready();
    assert!(matches!(session.on_frame(b"not json"), Action::Close));
    assert_eq!(session.error(), Some(SessionError::MalformedMessage(Field::Document)));
}

#[test]
fn failed_capability_write_fails_the_session() {
    let mut session = Session::new();
    session.channel_ready();
    assert!(matches!(session.on_frame(&HELLO[..HELLO.len() - 2]), Action::Write(_)));
    assert!(matches!(session.on_written(false), Action::Close));
    assert_eq!(session.error(), Some(SessionError::IoError));
}

#[test]
fn timeout_is_fatal() {
    let mut session = Session::new();
    session.channel_ready();
    assert!(matches!(session.on_read_failure(ReadFailure::Timeout), Action::Close));
    assert_eq!(session.error(), Some(SessionError::Timeout));
    let mut other = Session::new();
    other.channel_ready();
    assert!(matches!(other.on_read_failure(ReadFailure::FrameTooLarge), Action::Close));
    assert_eq!(other.error(), Some(SessionError::FrameTooLarge));
    let mut third = Session::new();
    third.channel_ready();
    assert!(matches!(third.on_read_failure(ReadFailure::EndOfStream), Action::Close));
    assert_eq!(third.error(), Some(SessionError::EndOfStream));
}

#[test]
fn ready_request_gets_error_response() {
    let mut session = Session::new();
    session.channel_ready();
    session.on_frame(&HELLO[..HELLO.len() - 2]);
    session.on_written(true);
    match session.on_frame(b"{\"jsonrpc\":\"2.0\",\"id\":9,\"method\":\"x\"}") {
        Action::Write(bytes) => assert_eq!(
            bytes,
            b"{\"jsonrpc\":\"2.0\",\"id\":9,\"error\":{\"code\":-32601,\"message\":\"Method not found\"}}\n\n".to_vec()
        ),
        _ => panic!("no response"),
    }
    assert_eq!(session.state(), SessionState::Ready);
}

#[test]
fn bye_drains_and_no_read_follows_close() {
    let mut session = Session::new();
    session.channel_ready();
    session.on_frame(&HELLO[..HELLO.len() - 2]);
    session.on_written(true);
    assert!(matches!(session.on_frame(b"{\"jsonrpc\":\"2.0\",\"method\":\"org.debian.apt.hooks.bye\"}"), Action::Close));
    assert_eq!(session.state(), SessionState::Draining);
    assert!(!session.wants_frame());
    session.on_closed();
    assert_eq!(session.state(), SessionState::Closed);
    assert!(!session.wants_frame());
    assert!(matches!(session.on_frame(&PRE_PROMPT[..PRE_PROMPT.len() - 2]), Action::Rejected));
    assert!(matches!(session.on_read_failure(ReadFailure::Timeout), Action::Rejected));
    assert!(matches!(session.on_written(true), Action::Rejected));
    assert_eq!(session.state(), SessionState::Closed);
    assert_eq!(session.error(), None);
}

#[test]
fn written_frames_decode_and_encode_back() {
    let mut session = Session::new();
    session.channel_ready();
    let mut written = Vec::new();
    if let Action::Write(bytes) = session.on_frame(b"{\"jsonrpc\":\"2.0\",\"method\":\"org.debian.apt.hooks.hello\",\"id\":\"h\",\"params\":{\"versions\":[\"0.1\"]}}") {
        written.push(bytes);
    }
    session.on_written(true);
    if let Action::Write(bytes) = session.on_frame(b"{\"jsonrpc\":\"2.0\",\"id\":12,\"method\":\"q\"}") {
        written.push(bytes);
    }
    assert_eq!(written.len(), 2);
    for w in written {
        assert!(w.ends_with(b"\n\n"));
        let body = &w[..w.len() - 2];
        assert!(!body.windows(2).any(|p| p == b"\n\n"));
        let m = json_hook::message::decode(body).unwrap();
        assert_eq!(json_hook::message::encode(&m), w);
    }
}
