use vstd::prelude::*;
use crate::json::{
    RawMember, Member, member_views, lookup, distinct_keys, QUOTE, OPEN_BRACE, OPEN_BRACKET,
    parse_object, split_object, object_text, write_object, copy_range, bytes_eq, find_member,
    has_distinct_keys, lemma_object_round_trip, append,
};
use crate::frame::NEWLINE;

verus! {

/// The text `jsonrpc`.
pub open spec fn key_jsonrpc() -> Seq<u8> {
    seq![106, 115, 111, 110, 114, 112, 99]
}

fn key_jsonrpc_bytes() -> (r: Vec<u8>)
    ensures
        r@ == key_jsonrpc(),
{
    let r: Vec<u8> = vec![106, 115, 111, 110, 114, 112, 99];
    assert(r@ =~= key_jsonrpc());
    r
}

/// The text `id`.
pub open spec fn key_id() -> Seq<u8> {
    seq![105, 100]
}

fn key_id_bytes() -> (r: Vec<u8>)
    ensures
        r@ == key_id(),
{
    let r: Vec<u8> = vec![105, 100];
    assert(r@ =~= key_id());
    r
}

/// The text `method`.
pub open spec fn key_method() -> Seq<u8> {
    seq![109, 101, 116, 104, 111, 100]
}

fn key_method_bytes() -> (r: Vec<u8>)
    ensures
        r@ == key_method(),
{
    let r: Vec<u8> = vec![109, 101, 116, 104, 111, 100];
    assert(r@ =~= key_method());
    r
}

/// The text `params`.
pub open spec fn key_params() -> Seq<u8> {
    seq![112, 97, 114, 97, 109, 115]
}

fn key_params_bytes() -> (r: Vec<u8>)
    ensures
        r@ == key_params(),
{
    let r: Vec<u8> = vec![112, 97, 114, 97, 109, 115];
    assert(r@ =~= key_params());
    r
}

/// The text `result`.
pub open spec fn key_result() -> Seq<u8> {
    seq![114, 101, 115, 117, 108, 116]
}

fn key_result_bytes() -> (r: Vec<u8>)
    ensures
        r@ == key_result(),
{
    let r: Vec<u8> = vec![114, 101, 115, 117, 108, 116];
    assert(r@ =~= key_result());
    r
}

/// The text `error`.
pub open spec fn key_error() -> Seq<u8> {
    seq![101, 114, 114, 111, 114]
}

fn key_error_bytes() -> (r: Vec<u8>)
    ensures
        r@ == key_error(),
{
    let r: Vec<u8> = vec![101, 114, 114, 111, 114];
    assert(r@ =~= key_error());
    r
}

/// The text `"2.0"`.
pub open spec fn version_tag() -> Seq<u8> {
    seq![34, 50, 46, 48, 34]
}

fn version_tag_bytes() -> (r: Vec<u8>)
    ensures
        r@ == version_tag(),
{
    let r: Vec<u8> = vec![34, 50, 46, 48, 34];
    assert(r@ =~= version_tag());
    r
}

/// Which part of a message was missing or invalid.
#[derive(Debug, Clone, Copy, PartialEq, Eq, Structural)]
pub enum Field {
    /// The frame is no object, or repeats a key.
    Document,
    Jsonrpc,
    Id,
    Method,
    Params,
    /// The result or error of a response.
    Outcome,
}

#[derive(Debug, Clone, Copy, PartialEq, Eq, Structural)]
pub enum DecodeError {
    MalformedMessage(Field),
    /// The protocol tag is present but names another protocol version.
    UnsupportedVersion,
}

/// What a response carries.
#[derive(Debug)]
pub enum Outcome {
    /// The text of the result value.
    Success(Vec<u8>),
    /// The text of the error object.
    Failure(Vec<u8>),
}

/// A JSON-RPC message. Identifiers, parameters, results and errors are kept
/// as the text of their JSON values; a method is the text between its quotes.
#[derive(Debug)]
pub enum Message {
    Request { id: Vec<u8>, method: Vec<u8>, params: Option<Vec<u8>> },
    Notification { method: Vec<u8>, params: Option<Vec<u8>> },
    Response { id: Vec<u8>, outcome: Outcome },
}

/// The mathematical value of a message.
pub enum Msg {
    Request { id: Seq<u8>, method: Seq<u8>, params: Option<Seq<u8>> },
    Notification { method: Seq<u8>, params: Option<Seq<u8>> },
    Response { id: Seq<u8>, failed: bool, value: Seq<u8> },
}

pub open spec fn opt_view(o: Option<Vec<u8>>) -> Option<Seq<u8>> {
    match o {
        Some(v) => Some(v@),
        None => None,
    }
}

impl Message {
    pub open spec fn view(&self) -> Msg {
        match self {
            Message::Request { id, method, params } => Msg::Request {
                id: id@,
                method: method@,
                params: opt_view(*params),
            },
            Message::Notification { method, params } => Msg::Notification {
                method: method@,
                params: opt_view(*params),
            },
            Message::Response { id, outcome } => match outcome {
                Outcome::Success(v) => Msg::Response { id: id@, failed: false, value: v@ },
                Outcome::Failure(v) => Msg::Response { id: id@, failed: true, value: v@ },
            },
        }
    }
}

pub open spec fn decoded(r: Result<Message, DecodeError>) -> Result<Msg, DecodeError> {
    match r {
        Ok(m) => Ok(m.view()),
        Err(e) => Err(e),
    }
}

pub open spec fn is_known_key(k: Seq<u8>) -> bool {
    k == key_jsonrpc() || k == key_id() || k == key_method() || k == key_params() || k
        == key_result() || k == key_error()
}

/// The text of a JSON string.
pub open spec fn is_string_text(t: Seq<u8>) -> bool {
    t.len() >= 2 && t[0] == QUOTE && t[t.len() - 1] == QUOTE
}

/// The text of a scalar or string, which may identify a request.
pub open spec fn is_id_text(t: Seq<u8>) -> bool {
    t.len() >= 1 && t[0] != OPEN_BRACE && t[0] != OPEN_BRACKET
}

pub open spec fn unquoted(t: Seq<u8>) -> Seq<u8> {
    t.subrange(1, t.len() - 1)
}

pub open spec fn quoted(t: Seq<u8>) -> Seq<u8> {
    seq![QUOTE] + t + seq![QUOTE]
}

/// The message that the members of an object make: keys other than the
/// protocol's are ignored, no key may repeat; the protocol tag is
/// mandatory and checked; a method makes a request (with an identifier) or a
/// notification (without); otherwise an identifier with exactly one of a
/// result and an error makes a response.
pub open spec fn decode_members(ms: Seq<RawMember>) -> Result<Msg, DecodeError> {
    let tag = lookup(ms, key_jsonrpc());
    let id = lookup(ms, key_id());
    let method = lookup(ms, key_method());
    let params = lookup(ms, key_params());
    let result = lookup(ms, key_result());
    let error = lookup(ms, key_error());
    if !distinct_keys(ms) {
        Err(DecodeError::MalformedMessage(Field::Document))
    } else if tag is None {
        Err(DecodeError::MalformedMessage(Field::Jsonrpc))
    } else if tag->0 != version_tag() {
        Err(DecodeError::UnsupportedVersion)
    } else if id is Some && !is_id_text(id->0) {
        Err(DecodeError::MalformedMessage(Field::Id))
    } else if method is Some {
        if !is_string_text(method->0) {
            Err(DecodeError::MalformedMessage(Field::Method))
        } else if result is Some || error is Some {
            Err(DecodeError::MalformedMessage(Field::Outcome))
        } else if id is Some {
            Ok(Msg::Request { id: id->0, method: unquoted(method->0), params })
        } else {
            Ok(Msg::Notification { method: unquoted(method->0), params })
        }
    } else if id is None {
        Err(DecodeError::MalformedMessage(Field::Method))
    } else if params is Some {
        Err(DecodeError::MalformedMessage(Field::Params))
    } else if result is Some && error is None {
        Ok(Msg::Response { id: id->0, failed: false, value: result->0 })
    } else if error is Some && result is None {
        Ok(Msg::Response { id: id->0, failed: true, value: error->0 })
    } else {
        Err(DecodeError::MalformedMessage(Field::Outcome))
    }
}

/// The message that a frame holds.
pub open spec fn decode_frame(f: Seq<u8>) -> Result<Msg, DecodeError> {
    match parse_object(f) {
        Some(ms) => decode_members(ms),
        None => Err(DecodeError::MalformedMessage(Field::Document)),
    }
}

pub open spec fn params_members(p: Option<Seq<u8>>) -> Seq<RawMember> {
    match p {
        Some(v) => seq![(key_params(), v)],
        None => seq![],
    }
}

/// The members with which a message is written, in order.
pub open spec fn members_of(m: Msg) -> Seq<RawMember> {
    match m {
        Msg::Request { id, method, params } => seq![
            (key_jsonrpc(), version_tag()),
            (key_id(), id),
            (key_method(), quoted(method)),
        ] + params_members(params),
        Msg::Notification { method, params } => seq![
            (key_jsonrpc(), version_tag()),
            (key_method(), quoted(method)),
        ] + params_members(params),
        Msg::Response { id, failed, value } => seq![
            (key_jsonrpc(), version_tag()),
            (key_id(), id),
            (if failed {
                key_error()
            } else {
                key_result()
            }, value),
        ],
    }
}

/// The bytes on the wire for a message: its compact object text and the
/// blank line that ends the frame.
pub open spec fn frame_text(m: Msg) -> Seq<u8> {
    object_text(members_of(m)) + seq![NEWLINE, NEWLINE]
}

fn is_known(k: &[u8]) -> (r: bool)
    ensures
        r == is_known_key(k@),
{
    bytes_eq(k, key_jsonrpc_bytes().as_slice()) || bytes_eq(k, key_id_bytes().as_slice())
        || bytes_eq(k, key_method_bytes().as_slice()) || bytes_eq(k, key_params_bytes().as_slice())
        || bytes_eq(k, key_result_bytes().as_slice()) || bytes_eq(k, key_error_bytes().as_slice())
}

fn copy_all(v: &Vec<u8>) -> (r: Vec<u8>)
    ensures
        r@ == v@,
{
    let r = copy_range(v.as_slice(), 0, v.len());
    assert(v@.subrange(0, v@.len() as int) =~= v@);
    r
}

/// Decodes one frame into a message.
pub fn decode(frame: &[u8]) -> (r: Result<Message, DecodeError>)
    ensures
        decoded(r) == decode_frame(frame@),
{
    let ms = match split_object(frame) {
        Some(ms) => ms,
        None => {
            return Err(DecodeError::MalformedMessage(Field::Document));
        },
    };
    if !has_distinct_keys(&ms) {
        return Err(DecodeError::MalformedMessage(Field::Document));
    }
    let tag = find_member(&ms, key_jsonrpc_bytes().as_slice());
    let id = find_member(&ms, key_id_bytes().as_slice());
    let method = find_member(&ms, key_method_bytes().as_slice());
    let params = find_member(&ms, key_params_bytes().as_slice());
    let result = find_member(&ms, key_result_bytes().as_slice());
    let error = find_member(&ms, key_error_bytes().as_slice());
    match tag {
        None => {
            return Err(DecodeError::MalformedMessage(Field::Jsonrpc));
        },
        Some(t) => {
            if !bytes_eq(t.as_slice(), version_tag_bytes().as_slice()) {
                return Err(DecodeError::UnsupportedVersion);
            }
        },
    }
    if let Some(i) = &id {
        if !(i.len() >= 1 && i[0] != OPEN_BRACE && i[0] != OPEN_BRACKET) {
            return Err(DecodeError::MalformedMessage(Field::Id));
        }
    }
    match method {
        Some(mt) => {
            let n = mt.len();
            if !(n >= 2 && mt[0] == QUOTE && mt[n - 1] == QUOTE) {
                return Err(DecodeError::MalformedMessage(Field::Method));
            }
            if result.is_some() || error.is_some() {
                return Err(DecodeError::MalformedMessage(Field::Outcome));
            }
            let name = copy_range(mt.as_slice(), 1, n - 1);
            match id {
                Some(i) => Ok(Message::Request { id: i, method: name, params }),
                None => Ok(Message::Notification { method: name, params }),
            }
        },
        None => {
            let i = match id {
                Some(i) => i,
                None => {
                    return Err(DecodeError::MalformedMessage(Field::Method));
                },
            };
            if params.is_some() {
                return Err(DecodeError::MalformedMessage(Field::Params));
            }
            match (result, error) {
                (Some(v), None) => Ok(Message::Response { id: i, outcome: Outcome::Success(v) }),
                (None, Some(v)) => Ok(Message::Response { id: i, outcome: Outcome::Failure(v) }),
                _ => Err(DecodeError::MalformedMessage(Field::Outcome)),
            }
        },
    }
}

fn quote_bytes(t: &Vec<u8>) -> (r: Vec<u8>)
    ensures
        r@ == quoted(t@),
{
    let mut r: Vec<u8> = Vec::new();
    r.push(QUOTE);
    append(&mut r, t.as_slice());
    r.push(QUOTE);
    assert(r@ =~= quoted(t@));
    r
}

/// Writes a message as one frame: its compact object text and the blank
/// line that ends it.
pub fn encode(m: &Message) -> (r: Vec<u8>)
    ensures
        r@ == frame_text(m.view()),
{
    let mut ms: Vec<Member> = Vec::new();
    ms.push(Member { key: key_jsonrpc_bytes(), value: version_tag_bytes() });
    match m {
        Message::Request { id, method, params } => {
            ms.push(Member { key: key_id_bytes(), value: copy_all(id) });
            ms.push(Member { key: key_method_bytes(), value: quote_bytes(method) });
            if let Some(p) = params {
                ms.push(Member { key: key_params_bytes(), value: copy_all(p) });
            }
        },
        Message::Notification { method, params } => {
            ms.push(Member { key: key_method_bytes(), value: quote_bytes(method) });
            if let Some(p) = params {
                ms.push(Member { key: key_params_bytes(), value: copy_all(p) });
            }
        },
        Message::Response { id, outcome } => {
            ms.push(Member { key: key_id_bytes(), value: copy_all(id) });
            match outcome {
                Outcome::Success(v) => {
                    ms.push(Member { key: key_result_bytes(), value: copy_all(v) });
                },
                Outcome::Failure(v) => {
                    ms.push(Member { key: key_error_bytes(), value: copy_all(v) });
                },
            }
        },
    }
    assert(member_views(ms@) =~= members_of(m.view()));
    let mut out: Vec<u8> = Vec::new();
    write_object(&ms, &mut out);
    out.push(NEWLINE);
    out.push(NEWLINE);
    assert(out@ =~= frame_text(m.view()));
    out
}

proof fn lemma_keys_differ()
    ensures
        key_jsonrpc() != key_id(),
        key_jsonrpc() != key_method(),
        key_jsonrpc() != key_params(),
        key_jsonrpc() != key_result(),
        key_jsonrpc() != key_error(),
        key_id() != key_method(),
        key_id() != key_params(),
        key_id() != key_result(),
        key_id() != key_error(),
        key_method() != key_params(),
        key_method() != key_result(),
        key_method() != key_error(),
        key_params() != key_result(),
        key_params() != key_error(),
        key_result() != key_error(),
{
    assert(key_jsonrpc().len() == 7);
    assert(key_id().len() == 2);
    assert(key_error().len() == 5);
    assert(key_method()[0] != key_params()[0]);
    assert(key_method()[0] != key_result()[0]);
    assert(key_params()[0] != key_result()[0]);
}

/// Decoding a frame and encoding the message again gives back the frame, up
/// to the order of the members and to members whose keys the protocol does
/// not use: the frame is the compact text of its members, and the members
/// that encoding writes have distinct keys, as the frame's have, all of them
/// the protocol's, with the same value under every key of the protocol.
pub proof fn lemma_decode_encode(f: Seq<u8>)
    requires
        decode_frame(f) is Ok,
    ensures
        parse_object(f) is Some,
        object_text(parse_object(f)->0) == f,
        distinct_keys(parse_object(f)->0),
        distinct_keys(members_of(decode_frame(f)->Ok_0)),
        forall|i: int|
            0 <= i < members_of(decode_frame(f)->Ok_0).len() ==> is_known_key(
                #[trigger] members_of(decode_frame(f)->Ok_0)[i].0,
            ),
        forall|k: Seq<u8>|
            is_known_key(k) ==> lookup(parse_object(f)->0, k) == #[trigger] lookup(
                members_of(decode_frame(f)->Ok_0),
                k,
            ),
{
    let ms = parse_object(f)->0;
    let m = decode_frame(f)->Ok_0;
    let out = members_of(m);
    lemma_object_round_trip(f);
    lemma_keys_differ();
    reveal_with_fuel(lookup, 5);
    let method = lookup(ms, key_method());
    if method is Some {
        assert(quoted(unquoted(method->0)) =~= method->0);
    }
    assert forall|k: Seq<u8>| is_known_key(k) implies lookup(ms, k) == #[trigger] lookup(
        out,
        k,
    ) by {}
}

} // verus!
