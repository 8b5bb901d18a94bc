use vstd::prelude::*;
use crate::json::{
    bytes_eq, lookup, parse_object, parse_array, split_object, split_array, find_member,
    byte_views, QUOTE,
};
use crate::message::{
    Msg, Message, Outcome, DecodeError, Field, decode, decode_frame, encode, frame_text,
    is_string_text, unquoted, opt_view,
};

verus! {

/// The method of the driver's opening notification: `org.debian.apt.hooks.hello`.
pub open spec fn hello_method() -> Seq<u8> {
    seq![111, 114, 103, 46, 100, 101, 98, 105, 97, 110, 46, 97, 112, 116, 46, 104, 111, 111, 107, 115, 46, 104, 101, 108, 108, 111]
}

fn hello_method_bytes() -> (r: Vec<u8>)
    ensures
        r@ == hello_method(),
{
    let r: Vec<u8> = vec![111, 114, 103, 46, 100, 101, 98, 105, 97, 110, 46, 97, 112, 116, 46, 104, 111, 111, 107, 115, 46, 104, 101, 108, 108, 111];
    assert(r@ =~= hello_method());
    r
}

/// The method that ends the session: `org.debian.apt.hooks.bye`.
pub open spec fn bye_method() -> Seq<u8> {
    seq![111, 114, 103, 46, 100, 101, 98, 105, 97, 110, 46, 97, 112, 116, 46, 104, 111, 111, 107, 115, 46, 98, 121, 101]
}

fn bye_method_bytes() -> (r: Vec<u8>)
    ensures
        r@ == bye_method(),
{
    let r: Vec<u8> = vec![111, 114, 103, 46, 100, 101, 98, 105, 97, 110, 46, 97, 112, 116, 46, 104, 111, 111, 107, 115, 46, 98, 121, 101];
    assert(r@ =~= bye_method());
    r
}

/// The key of the hello's list of protocol versions: `versions`.
pub open spec fn key_versions() -> Seq<u8> {
    seq![118, 101, 114, 115, 105, 111, 110, 115]
}

fn key_versions_bytes() -> (r: Vec<u8>)
    ensures
        r@ == key_versions(),
{
    let r: Vec<u8> = vec![118, 101, 114, 115, 105, 111, 110, 115];
    assert(r@ =~= key_versions());
    r
}

/// The result that declares this hook's capabilities: `{"version":"0.1"}`.
pub open spec fn capabilities() -> Seq<u8> {
    seq![123, 34, 118, 101, 114, 115, 105, 111, 110, 34, 58, 34, 48, 46, 49, 34, 125]
}

fn capabilities_bytes() -> (r: Vec<u8>)
    ensures
        r@ == capabilities(),
{
    let r: Vec<u8> = vec![123, 34, 118, 101, 114, 115, 105, 111, 110, 34, 58, 34, 48, 46, 49, 34, 125];
    assert(r@ =~= capabilities());
    r
}

/// The identifier of the capability response to a hello sent without one: `0`.
pub open spec fn default_id() -> Seq<u8> {
    seq![48]
}

fn default_id_bytes() -> (r: Vec<u8>)
    ensures
        r@ == default_id(),
{
    let r: Vec<u8> = vec![48];
    assert(r@ =~= default_id());
    r
}

/// The error for a request that no handler serves: `{"code":-32601,"message":"Method not found"}`.
pub open spec fn method_not_found() -> Seq<u8> {
    seq![123, 34, 99, 111, 100, 101, 34, 58, 45, 51, 50, 54, 48, 49, 44, 34, 109, 101, 115, 115, 97, 103, 101, 34, 58, 34, 77, 101, 116, 104, 111, 100, 32, 110, 111, 116, 32, 102, 111, 117, 110, 100, 34, 125]
}

fn method_not_found_bytes() -> (r: Vec<u8>)
    ensures
        r@ == method_not_found(),
{
    let r: Vec<u8> = vec![123, 34, 99, 111, 100, 101, 34, 58, 45, 51, 50, 54, 48, 49, 44, 34, 109, 101, 115, 115, 97, 103, 101, 34, 58, 34, 77, 101, 116, 104, 111, 100, 32, 110, 111, 116, 32, 102, 111, 117, 110, 100, 34, 125];
    assert(r@ =~= method_not_found());
    r
}

/// A lifecycle notification: `org.debian.apt.hooks.install.pre-prompt`.
pub open spec fn install_pre_prompt_method() -> Seq<u8> {
    seq![111, 114, 103, 46, 100, 101, 98, 105, 97, 110, 46, 97, 112, 116, 46, 104, 111, 111, 107, 115, 46, 105, 110, 115, 116, 97, 108, 108, 46, 112, 114, 101, 45, 112, 114, 111, 109, 112, 116]
}

fn install_pre_prompt_method_bytes() -> (r: Vec<u8>)
    ensures
        r@ == install_pre_prompt_method(),
{
    let r: Vec<u8> = vec![111, 114, 103, 46, 100, 101, 98, 105, 97, 110, 46, 97, 112, 116, 46, 104, 111, 111, 107, 115, 46, 105, 110, 115, 116, 97, 108, 108, 46, 112, 114, 101, 45, 112, 114, 111, 109, 112, 116];
    assert(r@ =~= install_pre_prompt_method());
    r
}

/// A lifecycle notification: `org.debian.apt.hooks.install.package-list`.
pub open spec fn install_package_list_method() -> Seq<u8> {
    seq![111, 114, 103, 46, 100, 101, 98, 105, 97, 110, 46, 97, 112, 116, 46, 104, 111, 111, 107, 115, 46, 105, 110, 115, 116, 97, 108, 108, 46, 112, 97, 99, 107, 97, 103, 101, 45, 108, 105, 115, 116]
}

fn install_package_list_method_bytes() -> (r: Vec<u8>)
    ensures
        r@ == install_package_list_method(),
{
    let r: Vec<u8> = vec![111, 114, 103, 46, 100, 101, 98, 105, 97, 110, 46, 97, 112, 116, 46, 104, 111, 111, 107, 115, 46, 105, 110, 115, 116, 97, 108, 108, 46, 112, 97, 99, 107, 97, 103, 101, 45, 108, 105, 115, 116];
    assert(r@ =~= install_package_list_method());
    r
}

/// A lifecycle notification: `org.debian.apt.hooks.install.statistics`.
pub open spec fn install_statistics_method() -> Seq<u8> {
    seq![111, 114, 103, 46, 100, 101, 98, 105, 97, 110, 46, 97, 112, 116, 46, 104, 111, 111, 107, 115, 46, 105, 110, 115, 116, 97, 108, 108, 46, 115, 116, 97, 116, 105, 115, 116, 105, 99, 115]
}

fn install_statistics_method_bytes() -> (r: Vec<u8>)
    ensures
        r@ == install_statistics_method(),
{
    let r: Vec<u8> = vec![111, 114, 103, 46, 100, 101, 98, 105, 97, 110, 46, 97, 112, 116, 46, 104, 111, 111, 107, 115, 46, 105, 110, 115, 116, 97, 108, 108, 46, 115, 116, 97, 116, 105, 115, 116, 105, 99, 115];
    assert(r@ =~= install_statistics_method());
    r
}

/// A lifecycle notification: `org.debian.apt.hooks.install.post`.
pub open spec fn install_post_method() -> Seq<u8> {
    seq![111, 114, 103, 46, 100, 101, 98, 105, 97, 110, 46, 97, 112, 116, 46, 104, 111, 111, 107, 115, 46, 105, 110, 115, 116, 97, 108, 108, 46, 112, 111, 115, 116]
}

fn install_post_method_bytes() -> (r: Vec<u8>)
    ensures
        r@ == install_post_method(),
{
    let r: Vec<u8> = vec![111, 114, 103, 46, 100, 101, 98, 105, 97, 110, 46, 97, 112, 116, 46, 104, 111, 111, 107, 115, 46, 105, 110, 115, 116, 97, 108, 108, 46, 112, 111, 115, 116];
    assert(r@ =~= install_post_method());
    r
}

/// A lifecycle notification: `org.debian.apt.hooks.install.fail`.
pub open spec fn install_fail_method() -> Seq<u8> {
    seq![111, 114, 103, 46, 100, 101, 98, 105, 97, 110, 46, 97, 112, 116, 46, 104, 111, 111, 107, 115, 46, 105, 110, 115, 116, 97, 108, 108, 46, 102, 97, 105, 108]
}

fn install_fail_method_bytes() -> (r: Vec<u8>)
    ensures
        r@ == install_fail_method(),
{
    let r: Vec<u8> = vec![111, 114, 103, 46, 100, 101, 98, 105, 97, 110, 46, 97, 112, 116, 46, 104, 111, 111, 107, 115, 46, 105, 110, 115, 116, 97, 108, 108, 46, 102, 97, 105, 108];
    assert(r@ =~= install_fail_method());
    r
}

/// A lifecycle notification: `org.debian.apt.hooks.search.pre`.
pub open spec fn search_pre_method() -> Seq<u8> {
    seq![111, 114, 103, 46, 100, 101, 98, 105, 97, 110, 46, 97, 112, 116, 46, 104, 111, 111, 107, 115, 46, 115, 101, 97, 114, 99, 104, 46, 112, 114, 101]
}

fn search_pre_method_bytes() -> (r: Vec<u8>)
    ensures
        r@ == search_pre_method(),
{
    let r: Vec<u8> = vec![111, 114, 103, 46, 100, 101, 98, 105, 97, 110, 46, 97, 112, 116, 46, 104, 111, 111, 107, 115, 46, 115, 101, 97, 114, 99, 104, 46, 112, 114, 101];
    assert(r@ =~= search_pre_method());
    r
}

/// A lifecycle notification: `org.debian.apt.hooks.search.post`.
pub open spec fn search_post_method() -> Seq<u8> {
    seq![111, 114, 103, 46, 100, 101, 98, 105, 97, 110, 46, 97, 112, 116, 46, 104, 111, 111, 107, 115, 46, 115, 101, 97, 114, 99, 104, 46, 112, 111, 115, 116]
}

fn search_post_method_bytes() -> (r: Vec<u8>)
    ensures
        r@ == search_post_method(),
{
    let r: Vec<u8> = vec![111, 114, 103, 46, 100, 101, 98, 105, 97, 110, 46, 97, 112, 116, 46, 104, 111, 111, 107, 115, 46, 115, 101, 97, 114, 99, 104, 46, 112, 111, 115, 116];
    assert(r@ =~= search_post_method());
    r
}

/// A lifecycle notification: `org.debian.apt.hooks.search.fail`.
pub open spec fn search_fail_method() -> Seq<u8> {
    seq![111, 114, 103, 46, 100, 101, 98, 105, 97, 110, 46, 97, 112, 116, 46, 104, 111, 111, 107, 115, 46, 115, 101, 97, 114, 99, 104, 46, 102, 97, 105, 108]
}

fn search_fail_method_bytes() -> (r: Vec<u8>)
    ensures
        r@ == search_fail_method(),
{
    let r: Vec<u8> = vec![111, 114, 103, 46, 100, 101, 98, 105, 97, 110, 46, 97, 112, 116, 46, 104, 111, 111, 107, 115, 46, 115, 101, 97, 114, 99, 104, 46, 102, 97, 105, 108];
    assert(r@ =~= search_fail_method());
    r
}

/// The lifecycle notifications that the driver sends during a transaction.
#[derive(Debug, Clone, Copy, PartialEq, Eq, Structural)]
pub enum Lifecycle {
    InstallPrePrompt,
    InstallPackageList,
    InstallStatistics,
    InstallPost,
    InstallFail,
    SearchPre,
    SearchPost,
    SearchFail,
}

/// The lifecycle event that a notification method names, if it names one.
pub open spec fn lifecycle_of(m: Seq<u8>) -> Option<Lifecycle> {
    if m == install_pre_prompt_method() {
        Some(Lifecycle::InstallPrePrompt)
    } else if m == install_package_list_method() {
        Some(Lifecycle::InstallPackageList)
    } else if m == install_statistics_method() {
        Some(Lifecycle::InstallStatistics)
    } else if m == install_post_method() {
        Some(Lifecycle::InstallPost)
    } else if m == install_fail_method() {
        Some(Lifecycle::InstallFail)
    } else if m == search_pre_method() {
        Some(Lifecycle::SearchPre)
    } else if m == search_post_method() {
        Some(Lifecycle::SearchPost)
    } else if m == search_fail_method() {
        Some(Lifecycle::SearchFail)
    } else {
        None
    }
}

/// The lifecycle event that a notification method names, if it names one.
pub fn lifecycle(m: &[u8]) -> (r: Option<Lifecycle>)
    ensures
        r == lifecycle_of(m@),
{
    if bytes_eq(m, install_pre_prompt_method_bytes().as_slice()) {
        Some(Lifecycle::InstallPrePrompt)
    } else if bytes_eq(m, install_package_list_method_bytes().as_slice()) {
        Some(Lifecycle::InstallPackageList)
    } else if bytes_eq(m, install_statistics_method_bytes().as_slice()) {
        Some(Lifecycle::InstallStatistics)
    } else if bytes_eq(m, install_post_method_bytes().as_slice()) {
        Some(Lifecycle::InstallPost)
    } else if bytes_eq(m, install_fail_method_bytes().as_slice()) {
        Some(Lifecycle::InstallFail)
    } else if bytes_eq(m, search_pre_method_bytes().as_slice()) {
        Some(Lifecycle::SearchPre)
    } else if bytes_eq(m, search_post_method_bytes().as_slice()) {
        Some(Lifecycle::SearchPost)
    } else if bytes_eq(m, search_fail_method_bytes().as_slice()) {
        Some(Lifecycle::SearchFail)
    } else {
        None
    }
}

#[derive(Debug, Clone, Copy, PartialEq, Eq, Structural)]
pub enum SessionState {
    Initializing,
    AwaitingHello,
    Negotiating,
    Ready,
    Draining,
    Closed,
    Failed,
}

/// Why a session failed. Every one of them ends the session.
#[derive(Debug, Clone, Copy, PartialEq, Eq, Structural)]
pub enum SessionError {
    IoError,
    Timeout,
    FrameTooLarge,
    MalformedMessage(Field),
    UnsupportedVersion,
    VersionMismatch,
    UnexpectedMessageOrder,
    /// The driver closed the channel before the handshake was done.
    EndOfStream,
}

/// How a read of the next frame failed.
#[derive(Debug, Clone, Copy, PartialEq, Eq, Structural)]
pub enum ReadFailure {
    EndOfStream,
    Timeout,
    IoError,
    FrameTooLarge,
}

/// What the session asks of whoever drives the channel.
#[derive(Debug)]
pub enum Action {
    /// Read the next frame.
    ReadNext,
    /// A notification was taken, as the lifecycle event it names if any;
    /// then read the next frame.
    Acknowledge(Option<Lifecycle>),
    /// Write these bytes, then report how the write went.
    Write(Vec<u8>),
    /// Close the channel, then report that it is closed.
    Close,
    /// The event does not fit the session's state and was ignored.
    Rejected,
}

/// The mathematical value of an action.
pub enum Act {
    ReadNext,
    Acknowledge(Option<Lifecycle>),
    Write(Seq<u8>),
    Close,
    Rejected,
}

impl Action {
    pub open spec fn view(&self) -> Act {
        match self {
            Action::ReadNext => Act::ReadNext,
            Action::Acknowledge(e) => Act::Acknowledge(*e),
            Action::Write(b) => Act::Write(b@),
            Action::Close => Act::Close,
            Action::Rejected => Act::Rejected,
        }
    }
}

/// The state of a session together with why it failed, if it did.
pub type Status = (SessionState, Option<SessionError>);

pub open spec fn error_of(e: DecodeError) -> SessionError {
    match e {
        DecodeError::MalformedMessage(f) => SessionError::MalformedMessage(f),
        DecodeError::UnsupportedVersion => SessionError::UnsupportedVersion,
    }
}

pub open spec fn fail(e: SessionError) -> (Status, Act) {
    ((SessionState::Failed, Some(e)), Act::Close)
}

/// The identifier to answer and the parameters of a hello, if `m` is one.
pub open spec fn hello_of(m: Msg) -> Option<(Seq<u8>, Option<Seq<u8>>)> {
    match m {
        Msg::Request { id, method, params } => if method == hello_method() {
            Some((id, params))
        } else {
            None
        },
        Msg::Notification { method, params } => if method == hello_method() {
            Some((default_id(), params))
        } else {
            None
        },
        _ => None,
    }
}

/// The texts of the versions that a hello declares: the items of the array
/// under `versions` in its parameter object.
pub open spec fn declared_versions(params: Option<Seq<u8>>) -> Option<Seq<Seq<u8>>> {
    match params {
        None => None,
        Some(p) => match parse_object(p) {
            None => None,
            Some(ms) => match lookup(ms, key_versions()) {
                None => None,
                Some(v) => parse_array(v),
            },
        },
    }
}

/// A version whose major component is 0, the one this engine speaks.
pub open spec fn supported_version(v: Seq<u8>) -> bool {
    v.len() >= 1 && v[0] == 48 && (v.len() == 1 || v[1] == 46)
}

/// Some declared version is a string with a supported major component.
pub open spec fn offers_supported(vs: Seq<Seq<u8>>) -> bool {
    exists|i: int|
        0 <= i < vs.len() && is_string_text(#[trigger] vs[i]) && supported_version(unquoted(vs[i]))
}

/// The response that declares this hook's capabilities.
pub open spec fn capability_response(id: Seq<u8>) -> Msg {
    Msg::Response { id, failed: false, value: capabilities() }
}

/// The error response to a request that no handler serves.
pub open spec fn unknown_request_response(id: Seq<u8>) -> Msg {
    Msg::Response { id, failed: true, value: method_not_found() }
}

/// The next status and the action after a frame arrives.
pub open spec fn after_frame(s: Status, f: Seq<u8>) -> (Status, Act) {
    match s.0 {
        SessionState::AwaitingHello => match decode_frame(f) {
            Err(e) => fail(error_of(e)),
            Ok(m) => match hello_of(m) {
                None => fail(SessionError::UnexpectedMessageOrder),
                Some((id, params)) => match declared_versions(params) {
                    None => fail(SessionError::MalformedMessage(Field::Params)),
                    Some(vs) => if offers_supported(vs) {
                        (
                            (SessionState::Negotiating, s.1),
                            Act::Write(frame_text(capability_response(id))),
                        )
                    } else {
                        fail(SessionError::VersionMismatch)
                    },
                },
            },
        },
        SessionState::Negotiating => fail(SessionError::UnexpectedMessageOrder),
        SessionState::Ready => match decode_frame(f) {
            Err(e) => fail(error_of(e)),
            Ok(Msg::Notification { method, params }) => if method == bye_method() {
                ((SessionState::Draining, s.1), Act::Close)
            } else {
                (s, Act::Acknowledge(lifecycle_of(method)))
            },
            Ok(Msg::Request { id, method, params }) => (
                s,
                Act::Write(frame_text(unknown_request_response(id))),
            ),
            Ok(Msg::Response { .. }) => fail(SessionError::UnexpectedMessageOrder),
        },
        _ => (s, Act::Rejected),
    }
}

/// The next status and the action after a write was attempted.
pub open spec fn after_write(s: Status, ok: bool) -> (Status, Act) {
    match s.0 {
        SessionState::Negotiating | SessionState::Ready => if ok {
            ((SessionState::Ready, s.1), Act::ReadNext)
        } else {
            fail(SessionError::IoError)
        },
        _ => (s, Act::Rejected),
    }
}

/// The next status and the action after reading the next frame failed.
pub open spec fn after_read_failure(s: Status, r: ReadFailure) -> (Status, Act) {
    match s.0 {
        SessionState::AwaitingHello | SessionState::Negotiating | SessionState::Ready => match r {
            ReadFailure::EndOfStream => if s.0 == SessionState::Ready {
                ((SessionState::Draining, s.1), Act::Close)
            } else {
                fail(SessionError::EndOfStream)
            },
            ReadFailure::Timeout => fail(SessionError::Timeout),
            ReadFailure::IoError => fail(SessionError::IoError),
            ReadFailure::FrameTooLarge => fail(SessionError::FrameTooLarge),
        },
        _ => (s, Act::Rejected),
    }
}

/// The next status once the channel is closed.
pub open spec fn after_close(s: Status) -> Status {
    match s.0 {
        SessionState::Draining | SessionState::Failed => (SessionState::Closed, s.1),
        _ => s,
    }
}

/// Whether the session waits for the next frame.
pub open spec fn wants_frame(st: SessionState) -> bool {
    st == SessionState::AwaitingHello || st == SessionState::Ready
}

/// Whether the texts `vs` offer a supported version.
fn any_supported(vs: &Vec<Vec<u8>>) -> (r: bool)
    ensures
        r == offers_supported(byte_views(vs@)),
{
    let ghost w = byte_views(vs@);
    let mut i: usize = 0;
    while i < vs.len()
        invariant
            i <= vs@.len(),
            w == byte_views(vs@),
            forall|j: int|
                0 <= j < i ==> !(is_string_text(#[trigger] w[j]) && supported_version(unquoted(w[j]))),
        decreases vs.len() - i,
    {
        let v = &vs[i];
        let n = v.len();
        assert(w[i as int] == v@);
        if n >= 2 && v[0] == QUOTE && v[n - 1] == QUOTE {
            let inner_len = n - 2;
            if inner_len >= 1 && v[1] == 48 && (inner_len == 1 || v[2] == 46) {
                return true;
            }
        }
        i = i + 1;
    }
    false
}

/// Whether a hello with parameters `params` offers a supported version;
/// `None` when the parameters hold no list of versions.
fn check_hello(params: &Option<Vec<u8>>) -> (r: Option<bool>)
    ensures
        match declared_versions(opt_view(*params)) {
            None => r is None,
            Some(vs) => r == Some(offers_supported(vs)),
        },
{
    let p = match params {
        Some(p) => p,
        None => {
            return None;
        },
    };
    let ms = match split_object(p.as_slice()) {
        Some(ms) => ms,
        None => {
            return None;
        },
    };
    let v = match find_member(&ms, key_versions_bytes().as_slice()) {
        Some(v) => v,
        None => {
            return None;
        },
    };
    match split_array(v.as_slice()) {
        Some(vs) => Some(any_supported(&vs)),
        None => None,
    }
}

/// The session of one hook invocation: the handshake, then the lifecycle
/// notifications, until the channel is closed.
pub struct Session {
    state: SessionState,
    error: Option<SessionError>,
}

impl Session {
    pub closed spec fn status(&self) -> Status {
        (self.state, self.error)
    }

    pub fn new() -> (r: Session)
        ensures
            r.status() == (SessionState::Initializing, None::<SessionError>),
    {
        Session { state: SessionState::Initializing, error: None }
    }

    pub fn state(&self) -> (r: SessionState)
        ensures
            r == self.status().0,
    {
        self.state
    }

    /// Why the session failed, if it did.
    pub fn error(&self) -> (r: Option<SessionError>)
        ensures
            r == self.status().1,
    {
        self.error
    }

    /// Whether the session waits for the next frame; no read is owed in any
    /// other state.
    pub fn wants_frame(&self) -> (r: bool)
        ensures
            r == wants_frame(self.status().0),
    {
        self.state == SessionState::AwaitingHello || self.state == SessionState::Ready
    }

    /// The channel has been adopted and its timeout set: wait for the hello.
    pub fn channel_ready(&mut self) -> (r: Action)
        ensures
            old(self).status().0 == SessionState::Initializing ==> r is ReadNext
                && final(self).status() == (SessionState::AwaitingHello, old(self).status().1),
            old(self).status().0 != SessionState::Initializing ==> r is Rejected
                && final(self).status() == old(self).status(),
    {
        if self.state == SessionState::Initializing {
            self.state = SessionState::AwaitingHello;
            Action::ReadNext
        } else {
            Action::Rejected
        }
    }

    fn fail(&mut self, e: SessionError) -> (r: Action)
        ensures
            (final(self).status(), r.view()) == fail(e),
    {
        self.state = SessionState::Failed;
        self.error = Some(e);
        Action::Close
    }

    fn fail_decode(&mut self, e: DecodeError) -> (r: Action)
        ensures
            (final(self).status(), r.view()) == fail(error_of(e)),
    {
        match e {
            DecodeError::MalformedMessage(f) => self.fail(SessionError::MalformedMessage(f)),
            DecodeError::UnsupportedVersion => self.fail(SessionError::UnsupportedVersion),
        }
    }

    fn answer_hello(&mut self, id: Vec<u8>, params: &Option<Vec<u8>>) -> (r: Action)
        requires
            old(self).status().0 == SessionState::AwaitingHello,
        ensures
            (final(self).status(), r.view()) == match declared_versions(
                opt_view(*params),
            ) {
                None => fail(SessionError::MalformedMessage(Field::Params)),
                Some(vs) => if offers_supported(vs) {
                    (
                        (SessionState::Negotiating, old(self).status().1),
                        Act::Write(frame_text(capability_response(id@))),
                    )
                } else {
                    fail(SessionError::VersionMismatch)
                },
            },
    {
        match check_hello(params) {
            None => self.fail(SessionError::MalformedMessage(Field::Params)),
            Some(false) => self.fail(SessionError::VersionMismatch),
            Some(true) => {
                self.state = SessionState::Negotiating;
                let reply = Message::Response { id, outcome: Outcome::Success(capabilities_bytes()) };
                Action::Write(encode(&reply))
            },
        }
    }

    /// Handles the next frame read from the channel.
    pub fn on_frame(&mut self, frame: &[u8]) -> (r: Action)
        ensures
            (final(self).status(), r.view()) == after_frame(old(self).status(), frame@),
    {
        match self.state {
            SessionState::AwaitingHello => match decode(frame) {
                Err(e) => self.fail_decode(e),
                Ok(Message::Request { id, method, params }) => {
                    if bytes_eq(method.as_slice(), hello_method_bytes().as_slice()) {
                        self.answer_hello(id, &params)
                    } else {
                        self.fail(SessionError::UnexpectedMessageOrder)
                    }
                },
                Ok(Message::Notification { method, params }) => {
                    if bytes_eq(method.as_slice(), hello_method_bytes().as_slice()) {
                        self.answer_hello(default_id_bytes(), &params)
                    } else {
                        self.fail(SessionError::UnexpectedMessageOrder)
                    }
                },
                Ok(Message::Response { .. }) => self.fail(SessionError::UnexpectedMessageOrder),
            },
            SessionState::Negotiating => self.fail(SessionError::UnexpectedMessageOrder),
            SessionState::Ready => match decode(frame) {
                Err(e) => self.fail_decode(e),
                Ok(Message::Notification { method, .. }) => {
                    if bytes_eq(method.as_slice(), bye_method_bytes().as_slice()) {
                        self.state = SessionState::Draining;
                        Action::Close
                    } else {
                        Action::Acknowledge(lifecycle(method.as_slice()))
                    }
                },
                Ok(Message::Request { id, .. }) => {
                    let reply = Message::Response {
                        id,
                        outcome: Outcome::Failure(method_not_found_bytes()),
                    };
                    Action::Write(encode(&reply))
                },
                Ok(Message::Response { .. }) => self.fail(SessionError::UnexpectedMessageOrder),
            },
            _ => Action::Rejected,
        }
    }

    /// Reports how the write that the session asked for went.
    pub fn on_written(&mut self, ok: bool) -> (r: Action)
        ensures
            (final(self).status(), r.view()) == after_write(old(self).status(), ok),
    {
        match self.state {
            SessionState::Negotiating | SessionState::Ready => {
                if ok {
                    self.state = SessionState::Ready;
                    Action::ReadNext
                } else {
                    self.fail(SessionError::IoError)
                }
            },
            _ => Action::Rejected,
        }
    }

    /// Reports that reading the next frame failed.
    pub fn on_read_failure(&mut self, f: ReadFailure) -> (r: Action)
        ensures
            (final(self).status(), r.view()) == after_read_failure(old(self).status(), f),
    {
        match self.state {
            SessionState::AwaitingHello | SessionState::Negotiating | SessionState::Ready => {
                match f {
                    ReadFailure::EndOfStream => {
                        if self.state == SessionState::Ready {
                            self.state = SessionState::Draining;
                            Action::Close
                        } else {
                            self.fail(SessionError::EndOfStream)
                        }
                    },
                    ReadFailure::Timeout => self.fail(SessionError::Timeout),
                    ReadFailure::IoError => self.fail(SessionError::IoError),
                    ReadFailure::FrameTooLarge => self.fail(SessionError::FrameTooLarge),
                }
            },
            _ => Action::Rejected,
        }
    }

    /// Reports that the channel has been closed.
    pub fn on_closed(&mut self)
        ensures
            final(self).status() == after_close(old(self).status()),
    {
        match self.state {
            SessionState::Draining | SessionState::Failed => {
                self.state = SessionState::Closed;
            },
            _ => {},
        }
    }
}

/// The session has asked for the channel to be closed, or it is closed.
pub open spec fn is_stopped(st: SessionState) -> bool {
    st == SessionState::Draining || st == SessionState::Failed || st == SessionState::Closed
}

/// A hello that declares no version with a supported major component drives
/// the session to Failed with a version mismatch, and no capability response
/// is written.
pub proof fn lemma_unsupported_hello_fails(err: Option<SessionError>, f: Seq<u8>)
    requires
        decode_frame(f) is Ok,
        hello_of(decode_frame(f)->Ok_0) is Some,
        declared_versions((hello_of(decode_frame(f)->Ok_0)->0).1) is Some,
        ({
            let vs = declared_versions((hello_of(decode_frame(f)->Ok_0)->0).1)->0;
            forall|i: int|
                0 <= i < vs.len() ==> !(is_string_text(#[trigger] vs[i]) && supported_version(
                    unquoted(vs[i]),
                ))
        }),
    ensures
        after_frame((SessionState::AwaitingHello, err), f) == fail(
            SessionError::VersionMismatch,
        ),
        !(after_frame((SessionState::AwaitingHello, err), f).1 is Write),
{
}

/// A hello that offers a supported version is answered with the capability
/// response; once that is written the session is Ready, and a following
/// lifecycle notification is acknowledged as its event without error, the
/// session staying Ready.
pub proof fn lemma_supported_hello_then_notification(hello: Seq<u8>, note: Seq<u8>)
    requires
        decode_frame(hello) is Ok,
        hello_of(decode_frame(hello)->Ok_0) is Some,
        declared_versions((hello_of(decode_frame(hello)->Ok_0)->0).1) is Some,
        offers_supported(declared_versions((hello_of(decode_frame(hello)->Ok_0)->0).1)->0),
        decode_frame(note) matches Ok(Msg::Notification { method, params }) && lifecycle_of(
            method,
        ) is Some,
    ensures
        ({
            let id = (hello_of(decode_frame(hello)->Ok_0)->0).0;
            let (s1, a1) = after_frame((SessionState::AwaitingHello, None), hello);
            let (s2, a2) = after_write(s1, true);
            let (s3, a3) = after_frame(s2, note);
            &&& s1 == (SessionState::Negotiating, None::<SessionError>)
            &&& a1 == Act::Write(frame_text(capability_response(id)))
            &&& s2 == (SessionState::Ready, None::<SessionError>)
            &&& a2 is ReadNext
            &&& s3 == (SessionState::Ready, None::<SessionError>)
            &&& a3 == Act::Acknowledge(lifecycle_of(decode_frame(note)->Ok_0->Notification_method))
        }),
{
    let method = decode_frame(note)->Ok_0->Notification_method;
    if method == bye_method() {
        assert(bye_method().len() == 24);
        assert(lifecycle_of(method) is None);
    }
}

/// No read is asked for once the channel is to be closed: every transition
/// that asks for the close leaves the session Draining or Failed, and from
/// there on it waits for no frame, rejects every event unchanged, and closing
/// keeps it stopped.
pub proof fn lemma_no_read_after_close(s: Status, f: Seq<u8>, ok: bool, r: ReadFailure)
    ensures
        after_frame(s, f).1 is Close ==> is_stopped(after_frame(s, f).0.0),
        after_write(s, ok).1 is Close ==> is_stopped(after_write(s, ok).0.0),
        after_read_failure(s, r).1 is Close ==> is_stopped(after_read_failure(s, r).0.0),
        is_stopped(s.0) ==> {
            &&& !wants_frame(s.0)
            &&& after_frame(s, f) == (s, Act::Rejected)
            &&& after_write(s, ok) == (s, Act::Rejected)
            &&& after_read_failure(s, r) == (s, Act::Rejected)
            &&& is_stopped(after_close(s).0)
        },
{
}

} // verus!
