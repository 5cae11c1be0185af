//! What came off the connection to a node, and who it is for.
//!
//! Answers to requests and notifications arrive on one channel. Whoever waits
//! for an answer must not swallow a notification, and a connection that closed
//! must be seen to be closed by everybody who comes after.

use vstd::prelude::*;
use crate::bytes::same_text;
use crate::cbor;
use crate::contract::{UpdateData, UpdateView};
use crate::delegate_api;
use crate::delegate_api::{Response, ResponseView};
use crate::text;
use crate::text::{decimal_text, join2, join3, quote, starts_with};
use freenet_stdlib::client_api::{ClientError, ContractResponse, HostResponse};
use freenet_stdlib::prelude::{OutboundDelegateMsg, UpdateData as NodeUpdate, WrappedState};

verus! {

#[verifier::external_type_specification]
#[verifier::external_body]
#[verifier::reject_recursive_types(T)]
pub struct ExHostResponse<T>(HostResponse<T>);

#[verifier::external_type_specification]
#[verifier::external_body]
pub struct ExWrappedState(WrappedState);

#[verifier::external_type_specification]
#[verifier::external_body]
pub struct ExClientError(ClientError);

/// The notification in an answer of the node, with the contract it is about;
/// `None` where the answer is not a notification.
pub uninterp spec fn notice_in(response: HostResponse<WrappedState>) -> Option<
    (Seq<u8>, UpdateView),
>;

/// The node does not know the contract it was asked about.
pub uninterp spec fn names_missing_contract(error: ClientError) -> bool;

/// An error of the node, in its own words.
pub uninterp spec fn error_words(error: ClientError) -> Seq<char>;

/// An answer of the node, told apart.
enum Told {
    Notice([u8; 32], UpdateData),
    Answer(HostResponse<WrappedState>),
}

/// Tells `ContractResponse::UpdateNotification` apart from every other
/// `freenet_stdlib::client_api::HostResponse`: the notification named
/// [`notice_in`], with its update as plain bytes, or else the answer itself.
#[verifier::external_body]
fn tell_apart(response: HostResponse<WrappedState>) -> (r: Told)
    ensures
        match r {
            Told::Notice(id, update) => notice_in(response) == Some((id@, update@)),
            Told::Answer(answer) => notice_in(response) is None && answer == response,
        },
{
    match response {
        HostResponse::ContractResponse(ContractResponse::UpdateNotification { key, update }) =>
            Told::Notice(*key, match update {
            NodeUpdate::State(s) => UpdateData::State(s.into_bytes()),
            NodeUpdate::Delta(d) => UpdateData::Delta(d.into_bytes()),
            NodeUpdate::StateAndDelta { state, delta } =>
                UpdateData::StateAndDelta { state: state.into_bytes(), delta: delta.into_bytes() },
            NodeUpdate::RelatedState { .. } => UpdateData::Related,
            NodeUpdate::RelatedDelta { .. } => UpdateData::Related,
            NodeUpdate::RelatedStateAndDelta { .. } => UpdateData::Related,
            _ => UpdateData::Unknown,
        }),
        other => Told::Answer(other),
    }
}

/// `freenet_stdlib::client_api::ClientError::kind`: whether it is
/// `ContractError::MissingContract`, as [`names_missing_contract`] names it.
#[verifier::external_body]
fn kind_is_missing(error: &ClientError) -> (r: bool)
    ensures
        r == names_missing_contract(*error),
{
    matches!(
        error.kind(),
        freenet_stdlib::client_api::ErrorKind::RequestError(
            freenet_stdlib::client_api::RequestError::ContractError(
                freenet_stdlib::client_api::ContractError::MissingContract { .. },
            ),
        )
    )
}

/// Whether an error says that the node has no record of the contract. To
/// somebody who reads a contract that is an answer: there is none.
pub fn is_missing_contract(error: &ClientError) -> (r: bool)
    ensures
        r == names_missing_contract(*error),
{
    kind_is_missing(error)
}

/// `to_string` of a `ClientError`: the text named [`error_words`].
#[verifier::external_body]
fn error_text(error: &ClientError) -> (r: String)
    ensures
        r@ == error_words(*error),
{
    error.to_string()
}

// ---------------------------------------------------------------------------
// Frames.
// ---------------------------------------------------------------------------

/// The value of a [`Frame`].
pub enum FrameView {
    Answer(HostResponse<WrappedState>),
    Error(ClientError),
    Failed(Seq<char>),
    Closed(Seq<char>),
}

/// One thing that came off the connection.
#[derive(Debug)]
pub enum Frame {
    /// What the node said: an answer, or a failure that it attributes to a
    /// request.
    Result(Result<HostResponse<WrappedState>, ClientError>),
    /// The transport reported something that is not the end of the connection.
    /// Fatal to a request that is waiting, survivable for the connection.
    Failed(String),
    /// The connection is gone, for good.
    Closed(String),
}

impl View for Frame {
    type V = FrameView;

    open spec fn view(&self) -> FrameView {
        match self {
            Frame::Result(Ok(r)) => FrameView::Answer(*r),
            Frame::Result(Err(e)) => FrameView::Error(*e),
            Frame::Failed(why) => FrameView::Failed(why@),
            Frame::Closed(why) => FrameView::Closed(why@),
        }
    }
}

/// The value of a [`Routed`].
pub enum RoutedView {
    Response(HostResponse<WrappedState>),
    Notification(Seq<u8>, UpdateView),
    Failed(Seq<char>),
    Closed(Seq<char>),
    ContractMissing,
}

/// What a frame turned out to be.
#[derive(Debug)]
pub enum Routed {
    /// The answer to a request.
    Response(HostResponse<WrappedState>),
    /// News of a contract.
    Notification([u8; 32], UpdateData),
    /// Fatal to whichever request is waiting, but not to the connection.
    Failed(String),
    /// Fatal to everything.
    Closed(String),
    /// The node has no record of the contract. That is an answer, not a
    /// failure.
    ContractMissing,
}

impl View for Routed {
    type V = RoutedView;

    open spec fn view(&self) -> RoutedView {
        match self {
            Routed::Response(r) => RoutedView::Response(*r),
            Routed::Notification(id, u) => RoutedView::Notification(id@, u@),
            Routed::Failed(why) => RoutedView::Failed(why@),
            Routed::Closed(why) => RoutedView::Closed(why@),
            Routed::ContractMissing => RoutedView::ContractMissing,
        }
    }
}

/// Where a frame belongs.
pub open spec fn routed(frame: FrameView) -> RoutedView {
    match frame {
        FrameView::Closed(why) => RoutedView::Closed(why),
        FrameView::Failed(why) => RoutedView::Failed(why),
        FrameView::Error(e) => if names_missing_contract(e) {
            RoutedView::ContractMissing
        } else {
            RoutedView::Failed(error_words(e))
        },
        FrameView::Answer(r) => match notice_in(r) {
            Some((id, update)) => RoutedView::Notification(id, update),
            None => RoutedView::Response(r),
        },
    }
}

/// Where a frame belongs.
pub fn route(frame: Frame) -> (r: Routed)
    ensures
        r@ == routed(frame@),
{
    match frame {
        Frame::Closed(why) => Routed::Closed(why),
        Frame::Failed(why) => Routed::Failed(why),
        Frame::Result(Err(e)) => if is_missing_contract(&e) {
            Routed::ContractMissing
        } else {
            Routed::Failed(error_text(&e))
        },
        Frame::Result(Ok(response)) => match tell_apart(response) {
            Told::Notice(id, update) => Routed::Notification(id, update),
            Told::Answer(answer) => Routed::Response(answer),
        },
    }
}

// ---------------------------------------------------------------------------
// Answers.
// ---------------------------------------------------------------------------

/// The value of an [`Answer`].
#[verifier::ext_equal]
pub enum AnswerView {
    Fine,
    State(Seq<u8>),
    NotFound,
    Subscribed,
    Stored,
    Updated,
    Messages(Seq<Option<Seq<u8>>>),
    Other,
}

/// As much of an answer of the node as a request waits for.
#[derive(Debug, PartialEq, Eq)]
pub enum Answer {
    /// What was asked for was done.
    Fine,
    /// What a contract holds.
    State(Vec<u8>),
    /// There is no such contract.
    NotFound,
    /// The subscription stands.
    Subscribed,
    /// The contract was put.
    Stored,
    /// The update was taken.
    Updated,
    /// What the delegate sent: the payload of each message to the application,
    /// and `None` for each message to somebody else.
    Messages(Vec<Option<Vec<u8>>>),
    /// Something no request here waits for.
    Other,
}

/// The values of the messages of a delegate.
pub open spec fn message_views(messages: Seq<Option<Vec<u8>>>) -> Seq<Option<Seq<u8>>> {
    messages.map_values(|m: Option<Vec<u8>>| payload_view(m))
}

/// The value of a payload that may be missing.
pub open spec fn payload_view(m: Option<Vec<u8>>) -> Option<Seq<u8>> {
    match m {
        Some(b) => Some(b@),
        None => None,
    }
}

impl View for Answer {
    type V = AnswerView;

    open spec fn view(&self) -> AnswerView {
        match self {
            Answer::Fine => AnswerView::Fine,
            Answer::State(b) => AnswerView::State(b@),
            Answer::NotFound => AnswerView::NotFound,
            Answer::Subscribed => AnswerView::Subscribed,
            Answer::Stored => AnswerView::Stored,
            Answer::Updated => AnswerView::Updated,
            Answer::Messages(ms) => AnswerView::Messages(message_views(ms@)),
            Answer::Other => AnswerView::Other,
        }
    }
}

/// What an answer of the node says.
pub uninterp spec fn answer_in(response: HostResponse<WrappedState>) -> AnswerView;

/// Opens a `freenet_stdlib::client_api::HostResponse`: which variant it is, with
/// the bytes of a state and the payloads of a delegate, as [`answer_in`] names
/// them.
#[verifier::external_body]
fn open_answer(response: &HostResponse<WrappedState>) -> (r: Answer)
    ensures
        r@ == answer_in(*response),
{
    match response {
        HostResponse::Ok => Answer::Fine,
        HostResponse::DelegateResponse { values, .. } => Answer::Messages(values.iter().map(|m| match m {
            OutboundDelegateMsg::ApplicationMessage(app) => Some(app.payload.clone()),
            _ => None,
        }).collect()),
        HostResponse::ContractResponse(ContractResponse::GetResponse { state, .. }) => Answer::State(state.as_ref().to_vec()),
        HostResponse::ContractResponse(ContractResponse::NotFound { .. }) => Answer::NotFound,
        HostResponse::ContractResponse(ContractResponse::SubscribeResponse { .. }) => Answer::Subscribed,
        HostResponse::ContractResponse(ContractResponse::PutResponse { .. }) => Answer::Stored,
        HostResponse::ContractResponse(ContractResponse::UpdateResponse { .. }) => Answer::Updated,
        _ => Answer::Other,
    }
}

/// The first message to the application.
pub open spec fn first_message(messages: Seq<Option<Seq<u8>>>) -> Option<Seq<u8>>
    decreases messages.len(),
{
    if messages.len() == 0 {
        None
    } else if messages[0] is Some {
        messages[0]
    } else {
        first_message(messages.drop_first())
    }
}

/// The first message to the application.
fn pick_message(messages: &Vec<Option<Vec<u8>>>) -> (r: Option<&Vec<u8>>)
    ensures
        match r {
            Some(b) => first_message(message_views(messages@)) == Some(b@),
            None => first_message(message_views(messages@)) is None,
        },
{
    let ghost all = message_views(messages@);
    let mut i: usize = 0;
    assert(all.skip(0) =~= all);
    while i < messages.len()
        invariant
            i <= messages.len(),
            all == message_views(messages@),
            first_message(all) == first_message(all.skip(i as int)),
        decreases messages.len() - i,
    {
        assert(all.skip(i as int)[0] == payload_view(messages@[i as int]));
        assert(all.skip(i as int).drop_first() =~= all.skip(i + 1));
        if let Some(b) = &messages[i] {
            return Some(b);
        }
        i += 1;
    }
    None
}

/// What was asked of the node.
#[derive(Clone, Copy, Debug, PartialEq, Eq, Structural)]
pub enum Op {
    Register,
    Get,
    Put,
    Update,
    Delegate,
}

impl Op {
    /// The name of the request.
    pub open spec fn text(self) -> Seq<char> {
        match self {
            Op::Register => "RegisterDelegate"@,
            Op::Get => "Get"@,
            Op::Put => "Put"@,
            Op::Update => "Update"@,
            Op::Delegate => "delegate call"@,
        }
    }

    /// The name of the request.
    pub fn name(self) -> (r: &'static str)
        ensures
            r@ == self.text(),
    {
        match self {
            Op::Register => "RegisterDelegate",
            Op::Get => "Get",
            Op::Put => "Put",
            Op::Update => "Update",
            Op::Delegate => "delegate call",
        }
    }
}

/// The value of a [`Verdict`].
pub enum VerdictView {
    Acknowledged,
    State(Option<Seq<u8>>),
    Reply(ResponseView),
    NotYet,
    Unexpected(HostResponse<WrappedState>),
    Failed(Seq<char>),
}

/// What a frame is to somebody who waits for an answer.
#[derive(Debug)]
pub enum Verdict {
    /// What was asked for was done.
    Acknowledged,
    /// What a contract holds; `None` where there is no such contract.
    State(Option<Vec<u8>>),
    /// What the delegate replied.
    Reply(Response),
    /// Not the answer. It is still to come.
    NotYet,
    /// An answer, but not to this question.
    Unexpected(HostResponse<WrappedState>),
    /// There will be no answer, and why.
    Failed(String),
}

impl View for Verdict {
    type V = VerdictView;

    open spec fn view(&self) -> VerdictView {
        match self {
            Verdict::Acknowledged => VerdictView::Acknowledged,
            Verdict::State(raw) => VerdictView::State(payload_view(*raw)),
            Verdict::Reply(r) => VerdictView::Reply(r@),
            Verdict::NotYet => VerdictView::NotYet,
            Verdict::Unexpected(r) => VerdictView::Unexpected(*r),
            Verdict::Failed(why) => VerdictView::Failed(why@),
        }
    }
}

/// What the messages of a delegate are to somebody who called it.
pub open spec fn replied(messages: Seq<Option<Seq<u8>>>) -> VerdictView {
    match first_message(messages) {
        None => VerdictView::Failed("delegate returned no application message"@),
        Some(raw) => match delegate_api::decoded_response(raw) {
            Some(x) => VerdictView::Reply(x),
            None => VerdictView::Failed(
                "delegate sent an undecodable reply: Malformed("@ + text::quoted(
                    cbor::complaint_of(raw, delegate_api::UNREADABLE@),
                ) + ")"@,
            ),
        },
    }
}

fn reply_in(messages: &Vec<Option<Vec<u8>>>) -> (r: Verdict)
    ensures
        r@ == replied(message_views(messages@)),
{
    match pick_message(messages) {
        None => Verdict::Failed("delegate returned no application message".to_owned()),
        Some(raw) => match Response::decode(raw.as_slice()) {
            Ok(x) => Verdict::Reply(x),
            Err(_) => {
                let why = cbor::complaint(raw.as_slice(), delegate_api::UNREADABLE);
                Verdict::Failed(
                    join3(
                        "delegate sent an undecodable reply: Malformed(",
                        quote(why.as_str()).as_str(),
                        ")",
                    ),
                )
            },
        },
    }
}

/// What an answer of the node is to somebody who waits for one.
pub open spec fn answered(op: Op, frame: RoutedView) -> VerdictView {
    match frame {
        RoutedView::Notification(..) => VerdictView::NotYet,
        RoutedView::Closed(why) => VerdictView::Failed(
            "the connection closed while waiting for "@ + op.text() + ": "@ + why,
        ),
        RoutedView::Failed(why) => VerdictView::Failed(
            "the node reported an error while waiting for "@ + op.text() + ": "@ + why,
        ),
        RoutedView::ContractMissing => if op == Op::Get {
            VerdictView::State(None)
        } else {
            VerdictView::Failed(
                "the node has no record of this contract while waiting for "@ + op.text(),
            )
        },
        RoutedView::Response(response) => match (op, answer_in(response)) {
            (Op::Register, AnswerView::Fine) => VerdictView::Acknowledged,
            (Op::Register, AnswerView::Messages(_)) => VerdictView::Acknowledged,
            (Op::Get, AnswerView::State(raw)) => VerdictView::State(Some(raw)),
            (Op::Get, AnswerView::NotFound) => VerdictView::State(None),
            (Op::Get, AnswerView::Subscribed) => VerdictView::NotYet,
            (Op::Put, AnswerView::Stored) => VerdictView::Acknowledged,
            (Op::Update, AnswerView::Updated) => VerdictView::Acknowledged,
            (Op::Delegate, AnswerView::Messages(messages)) => replied(messages),
            _ => VerdictView::Unexpected(response),
        },
    }
}

/// What a frame is to somebody who waits for an answer. A contract that the
/// node does not know is an answer to a read, and a failure of anything else.
pub fn answer(op: Op, frame: Routed) -> (r: Verdict)
    ensures
        r@ == answered(op, frame@),
{
    match frame {
        Routed::Notification(..) => Verdict::NotYet,
        Routed::Closed(why) => {
            let start = join3("the connection closed while waiting for ", op.name(), ": ");
            Verdict::Failed(join2(start.as_str(), why.as_str()))
        },
        Routed::Failed(why) => {
            let start = join3("the node reported an error while waiting for ", op.name(), ": ");
            Verdict::Failed(join2(start.as_str(), why.as_str()))
        },
        Routed::ContractMissing => if op == Op::Get {
            Verdict::State(None)
        } else {
            Verdict::Failed(
                join2("the node has no record of this contract while waiting for ", op.name()),
            )
        },
        Routed::Response(response) => match (op, open_answer(&response)) {
            (Op::Register, Answer::Fine) => Verdict::Acknowledged,
            (Op::Register, Answer::Messages(_)) => Verdict::Acknowledged,
            (Op::Get, Answer::State(raw)) => Verdict::State(Some(raw)),
            (Op::Get, Answer::NotFound) => Verdict::State(None),
            (Op::Get, Answer::Subscribed) => Verdict::NotYet,
            (Op::Put, Answer::Stored) => Verdict::Acknowledged,
            (Op::Update, Answer::Updated) => Verdict::Acknowledged,
            (Op::Delegate, Answer::Messages(messages)) => reply_in(&messages),
            _ => Verdict::Unexpected(response),
        },
    }
}

/// A node that does not know a contract has answered a read and nothing else,
/// and a notification answers nobody: it never ends the wait for an answer.
pub proof fn only_a_read_may_find_nothing(op: Op, frame: RoutedView)
    ensures
        answered(op, frame) is State ==> op == Op::Get,
        frame is ContractMissing ==> (answered(op, frame) == VerdictView::State(None) <==> op
            == Op::Get),
        frame is Notification ==> answered(op, frame) is NotYet,
        frame is Closed || frame is Failed ==> answered(op, frame) is Failed,
{
}

// ---------------------------------------------------------------------------
// Waiting too long.
// ---------------------------------------------------------------------------

/// How long to wait for an answer, in seconds. A notification is waited for
/// without end: a move may take days.
pub const RESPONSE_TIMEOUT_SECONDS: u64 = 30;

/// What is said of a request that was not answered in time.
pub open spec fn timeout_words(op: Op) -> Seq<char> {
    "timed out after "@ + text::decimal(RESPONSE_TIMEOUT_SECONDS as nat)
        + "s waiting for a response to "@ + op.text()
}

/// What is said of a request that was not answered in time.
pub fn timed_out(op: Op) -> (r: String)
    ensures
        r@ == timeout_words(op),
{
    let seconds = decimal_text(RESPONSE_TIMEOUT_SECONDS);
    let start = join3("timed out after ", seconds.as_str(), "s waiting for a response to ");
    join2(start.as_str(), op.name())
}

/// The error says that somebody waited too long.
pub open spec fn says_timeout(words: Seq<char>) -> bool {
    "timed out after "@.is_prefix_of(words)
}

/// Whether an error says that somebody waited too long. A node that never
/// answers is as unreachable as one that cannot be connected to.
pub fn is_timeout(words: &str) -> (r: bool)
    ensures
        r == says_timeout(words@),
{
    starts_with(words, "timed out after ")
}

/// A request that was not answered in time is recognized by what is said of it.
pub proof fn a_timeout_says_so(op: Op)
    ensures
        says_timeout(timeout_words(op)),
{
    let head = "timed out after "@;
    assert(timeout_words(op).subrange(0, head.len() as int) =~= head);
}

/// The tags of the errors that mean the end of the connection.
pub open spec fn is_fatal_tag(source: Seq<char>) -> bool {
    source == "close"@ || source == "exec error"@
}

/// Whether an error of the transport means that the connection is gone, going
/// by the tag of where it arose. Every other tag is a problem with one frame,
/// and an error without a tag was already returned to the sender.
pub fn socket_is_gone(source: Option<&str>) -> (r: bool)
    ensures
        r == (source is Some && is_fatal_tag(source->0@)),
{
    match source {
        Some(t) => same_text(t, "close") || same_text(t, "exec error"),
        None => false,
    }
}

// ---------------------------------------------------------------------------
// A connection that closed.
// ---------------------------------------------------------------------------

/// The lasting record of a connection that closed. The frame that said so
/// comes once, and only one waiter gets it.
#[derive(Debug)]
pub struct CloseLatch(pub Option<String>);

/// The value of a text that may be missing.
pub open spec fn why_view(why: Option<String>) -> Option<Seq<char>> {
    match why {
        Some(t) => Some(t@),
        None => None,
    }
}

impl View for CloseLatch {
    type V = Option<Seq<char>>;

    open spec fn view(&self) -> Option<Seq<char>> {
        why_view(self.0)
    }
}

impl Default for CloseLatch {
    fn default() -> (r: CloseLatch)
        ensures
            r@ is None,
    {
        CloseLatch(None)
    }
}

/// The latch after a frame: the first reason to close stays.
pub open spec fn latched(held: Option<Seq<char>>, frame: RoutedView) -> Option<Seq<char>> {
    match frame {
        RoutedView::Closed(why) => if held is None {
            Some(why)
        } else {
            held
        },
        _ => held,
    }
}

impl CloseLatch {
    /// Latch where the frame is a close. The first reason stays: it is the one
    /// that explains why the connection ended.
    pub fn observe(&mut self, frame: &Routed)
        ensures
            final(self)@ == latched(old(self)@, frame@),
    {
        if let Routed::Closed(why) = frame {
            if self.0.is_none() {
                self.0 = Some(why.clone());
            }
        }
    }

    /// Why the connection is gone, or `None` while it may still be alive.
    pub fn why(&self) -> (r: Option<&str>)
        ensures
            match r {
                Some(t) => self@ == Some(t@),
                None => self@ is None,
            },
    {
        match &self.0 {
            Some(t) => Some(t.as_str()),
            None => None,
        }
    }
}

// ---------------------------------------------------------------------------
// The inbox.
// ---------------------------------------------------------------------------

/// The value of an [`Inbox`].
#[verifier::ext_equal]
pub struct InboxView {
    pub parked: Seq<(Seq<u8>, UpdateView)>,
    pub closed: Option<Seq<char>>,
}

/// The notifications that arrived while an answer was waited for, oldest first,
/// and whether the connection closed.
#[derive(Debug)]
pub struct Inbox {
    pub parked: Vec<([u8; 32], UpdateData)>,
    pub closed: CloseLatch,
}

/// The values of parked notifications.
pub open spec fn parked_views(parked: Seq<([u8; 32], UpdateData)>) -> Seq<(Seq<u8>, UpdateView)> {
    parked.map_values(|n: ([u8; 32], UpdateData)| (n.0@, n.1@))
}

impl View for Inbox {
    type V = InboxView;

    open spec fn view(&self) -> InboxView {
        InboxView { parked: parked_views(self.parked@), closed: self.closed@ }
    }
}

/// What a frame is to somebody who waits for a notification.
#[derive(Debug)]
pub enum Heard {
    /// The notification.
    Update([u8; 32], UpdateData),
    /// No more notifications will come.
    Ended,
    /// An answer nobody waits for, or a failure that the connection survived.
    Nothing,
}

/// The inbox after a frame that somebody who waits for an answer took: a
/// notification is parked.
pub open spec fn after_request_frame(inbox: InboxView, frame: FrameView) -> InboxView {
    let r = routed(frame);
    InboxView {
        parked: match r {
            RoutedView::Notification(id, update) => inbox.parked.push((id, update)),
            _ => inbox.parked,
        },
        closed: latched(inbox.closed, r),
    }
}

/// The oldest notification that was parked, and what is left.
pub open spec fn taken(inbox: InboxView) -> (Option<(Seq<u8>, UpdateView)>, InboxView) {
    if inbox.parked.len() == 0 {
        (None, inbox)
    } else {
        (
            Some(inbox.parked[0]),
            InboxView { parked: inbox.parked.drop_first(), closed: inbox.closed },
        )
    }
}

/// What a frame is to somebody who waits for a notification.
pub enum HeardView {
    Update(Seq<u8>, UpdateView),
    Ended,
    Nothing,
}

impl View for Heard {
    type V = HeardView;

    open spec fn view(&self) -> HeardView {
        match self {
            Heard::Update(id, update) => HeardView::Update(id@, update@),
            Heard::Ended => HeardView::Ended,
            Heard::Nothing => HeardView::Nothing,
        }
    }
}

/// What a frame is to somebody who waits for a notification: the notification,
/// the end of all of them, or nothing to do with them.
pub open spec fn heard(frame: RoutedView) -> HeardView {
    match frame {
        RoutedView::Notification(id, update) => HeardView::Update(id, update),
        RoutedView::Closed(_) => HeardView::Ended,
        _ => HeardView::Nothing,
    }
}

impl Inbox {
    /// An inbox with nothing in it.
    pub fn new() -> (r: Inbox)
        ensures
            r@.parked == Seq::<(Seq<u8>, UpdateView)>::empty(),
            r@.closed is None,
    {
        let parked: Vec<([u8; 32], UpdateData)> = Vec::new();
        assert(parked_views(parked@) =~= Seq::empty());
        Inbox { parked, closed: CloseLatch::default() }
    }

    /// Whether the connection is known to be gone.
    pub fn is_disconnected(&self) -> (r: bool)
        ensures
            r == (self@.closed is Some),
    {
        self.closed.why().is_some()
    }

    /// Why a request would never be answered; `None` while one may be.
    pub fn unanswerable(&self, op: Op) -> (r: Option<String>)
        ensures
            match r {
                Some(words) => self@.closed matches Some(why) && words@
                    == "the connection is closed, so "@ + op.text() + " can never be answered: "@
                    + why,
                None => self@.closed is None,
            },
    {
        match self.closed.why() {
            Some(why) => {
                let start = join3(
                    "the connection is closed, so ",
                    op.name(),
                    " can never be answered: ",
                );
                Some(join2(start.as_str(), why))
            },
            None => None,
        }
    }

    /// Take a frame while waiting for an answer. `None` where it was a
    /// notification: that is parked, and the wait goes on.
    pub fn for_request(&mut self, frame: Frame) -> (r: Option<Routed>)
        ensures
            final(self)@ == after_request_frame(old(self)@, frame@),
            match r {
                Some(x) => x@ == routed(frame@) && !(routed(frame@) is Notification),
                None => routed(frame@) is Notification,
            },
    {
        let ghost before = self@;
        let x = route(frame);
        self.closed.observe(&x);
        match x {
            Routed::Notification(id, update) => {
                let ghost noted = (id@, update@);
                let ghost prior = self.parked@;
                self.parked.push((id, update));
                assert(parked_views(self.parked@) =~= parked_views(prior).push(noted));
                None
            },
            other => Some(other),
        }
    }

    /// The oldest notification that was parked. It was received, even if the
    /// connection has closed since.
    pub fn take_parked(&mut self) -> (r: Option<([u8; 32], UpdateData)>)
        ensures
            match r {
                Some((id, update)) => taken(old(self)@) == (
                    Some((id@, update@)),
                    final(self)@,
                ),
                None => taken(old(self)@) == (None::<(Seq<u8>, UpdateView)>, final(self)@),
            },
            final(self)@.closed == old(self)@.closed,
            match r {
                Some((id, update)) => old(self)@.parked.len() > 0 && old(self)@.parked[0] == (
                    id@,
                    update@,
                ) && final(self)@.parked == old(self)@.parked.drop_first(),
                None => old(self)@.parked.len() == 0 && final(self)@.parked
                    == old(self)@.parked,
            },
    {
        if self.parked.len() == 0 {
            return None;
        }
        let ghost prior = self.parked@;
        let first = self.parked.remove(0);
        assert(parked_views(self.parked@) =~= parked_views(prior).drop_first());
        Some(first)
    }

    /// Take a frame while waiting for a notification.
    pub fn for_update(&mut self, frame: Frame) -> (r: Heard)
        ensures
            r@ == heard(routed(frame@)),
            final(self)@.parked == old(self)@.parked,
            final(self)@.closed == latched(old(self)@.closed, routed(frame@)),
            match r {
                Heard::Update(id, update) => routed(frame@) == RoutedView::Notification(
                    id@,
                    update@,
                ),
                Heard::Ended => routed(frame@) is Closed,
                Heard::Nothing => !(routed(frame@) is Closed) && !(routed(
                    frame@,
                ) is Notification),
            },
    {
        let x = route(frame);
        self.closed.observe(&x);
        match x {
            Routed::Notification(id, update) => Heard::Update(id, update),
            Routed::Closed(_) => Heard::Ended,
            _ => Heard::Nothing,
        }
    }
}

/// A close is never forgotten, and nothing but a close closes: once latched,
/// the reason stays whatever arrives, and a failure that the connection
/// survives leaves the latch as it was.
pub proof fn a_close_stays(held: Option<Seq<char>>, frame: FrameView)
    ensures
        held is Some ==> latched(held, routed(frame)) == held,
        held is None && latched(held, routed(frame)) is Some ==> frame is Closed,
        frame is Closed ==> latched(held, routed(frame)) is Some,
{
}

/// No notification is lost to somebody who waits for an answer: each is parked
/// behind those that came before it.
pub proof fn no_notification_is_lost(inbox: InboxView, frame: FrameView)
    ensures
        routed(frame) matches RoutedView::Notification(id, update) ==> after_request_frame(
            inbox,
            frame,
        ).parked == inbox.parked.push((id, update)),
        !(routed(frame) is Notification) ==> after_request_frame(inbox, frame).parked
            == inbox.parked,
{
}

/// Each question is answered by its own kind of answer and by no other: a read
/// by a state, a put by the word that it is stored, an update by the word that
/// it was taken, a call of the delegate by its messages. Anything else is
/// unexpected, and is handed on as it came.
pub proof fn each_question_has_its_own_answer(op: Op, response: HostResponse<WrappedState>)
    ensures
        ({
            let r = answered(op, RoutedView::Response(response));
            let a = answer_in(response);
            &&& r is Acknowledged <==> {
                ||| op == Op::Register && (a is Fine || a is Messages)
                ||| op == Op::Put && a is Stored
                ||| op == Op::Update && a is Updated
            }
            &&& r matches VerdictView::State(raw) ==> op == Op::Get && match raw {
                Some(b) => a == AnswerView::State(b),
                None => a is NotFound,
            }
            &&& r is NotYet <==> op == Op::Get && a is Subscribed
            &&& r is Reply || r is Failed ==> op == Op::Delegate && a is Messages
            &&& op == Op::Get && (a is State || a is NotFound) ==> r is State
            &&& op == Op::Delegate && a is Messages ==> r is Reply || r is Failed
            &&& r matches VerdictView::Unexpected(x) ==> x == response
        }),
{
}

/// The message that counts is the first one to the application, whatever comes
/// before it for somebody else.
pub proof fn the_first_message_counts(messages: Seq<Option<Seq<u8>>>)
    ensures
        match first_message(messages) {
            Some(b) => exists|i: int|
                #![trigger messages[i]]
                0 <= i < messages.len() && messages[i] == Some(b) && forall|j: int|
                    0 <= j < i ==> (#[trigger] messages[j]) is None,
            None => forall|i: int| 0 <= i < messages.len() ==> (#[trigger] messages[i]) is None,
        },
    decreases messages.len(),
{
    if messages.len() > 0 {
        if messages[0] is None {
            let rest = messages.drop_first();
            the_first_message_counts(rest);
            match first_message(rest) {
                Some(b) => {
                    let i = choose|i: int|
                        #![trigger rest[i]]
                        0 <= i < rest.len() && rest[i] == Some(b) && forall|j: int|
                            0 <= j < i ==> (#[trigger] rest[j]) is None;
                    assert(messages[i + 1] == Some(b));
                    assert forall|j: int| 0 <= j < i + 1 implies (#[trigger] messages[j]) is None by {
                        if j > 0 {
                            assert(rest[j - 1] == messages[j]);
                        }
                    }
                },
                None => {
                    assert forall|i: int| 0 <= i < messages.len() implies (
                    #[trigger] messages[i]) is None by {
                        if i > 0 {
                            assert(rest[i - 1] == messages[i]);
                        }
                    }
                },
            }
        } else {
            assert(messages[0] == first_message(messages));
        }
    }
}

/// Only the end of the connection ends it: a failure of any other kind leaves it
/// open, and only an error of the node can say that a contract is not there.
pub proof fn a_failure_is_no_close(held: Option<Seq<char>>, frame: FrameView)
    ensures
        routed(frame) is Closed <==> frame is Closed,
        frame !is Closed ==> latched(held, routed(frame)) == held,
        frame matches FrameView::Closed(why) ==> latched(None, routed(frame)) == Some(why),
        routed(frame) is ContractMissing ==> frame is Error,
        routed(frame) is Notification || routed(frame) is Response ==> frame is Answer,
        frame matches FrameView::Failed(why) ==> routed(frame) == RoutedView::Failed(why),
{
}

/// Notifications are handed out in the order they arrived in, each once, and a
/// close takes none of them back: one that arrives goes behind those that are
/// parked, and is the next to be handed out exactly where none was.
pub proof fn notifications_keep_their_order(inbox: InboxView, frame: FrameView)
    ensures
        inbox.parked.len() > 0 ==> taken(after_request_frame(inbox, frame)).0 == taken(inbox).0,
        inbox.parked.len() > 0 ==> taken(after_request_frame(inbox, frame)).1
            == after_request_frame(taken(inbox).1, frame),
        inbox.parked.len() == 0 ==> (routed(frame) matches RoutedView::Notification(id, update)
            ==> taken(after_request_frame(inbox, frame)).0 == Some((id, update)) && taken(
            after_request_frame(inbox, frame),
        ).1.parked.len() == 0),
        taken(inbox).0 is None <==> inbox.parked.len() == 0,
        taken(inbox).1.closed == inbox.closed,
        frame is Closed ==> after_request_frame(inbox, frame).parked == inbox.parked,
{
    let after = after_request_frame(inbox, frame);
    if inbox.parked.len() > 0 {
        assert(taken(after).1.parked =~= after_request_frame(taken(inbox).1, frame).parked);
    } else if routed(frame) is Notification {
        assert(after.parked[0] == after.parked.last());
    }
}

/// The delegate has replied exactly where the first message to the application
/// holds a response, and then that is the reply; otherwise the call has failed.
pub proof fn a_reply_is_what_the_delegate_sent(messages: Seq<Option<Seq<u8>>>)
    ensures
        match replied(messages) {
            VerdictView::Reply(x) => first_message(messages) matches Some(raw)
                && delegate_api::decoded_response(raw) == Some(x),
            VerdictView::Failed(_) => first_message(messages) matches Some(raw)
                ==> delegate_api::decoded_response(raw) is None,
            _ => false,
        },
{
}

/// A failure says what was waited for, and why there will be no answer.
pub proof fn a_failure_says_what_and_why(op: Op, frame: RoutedView, why: Seq<char>)
    requires
        frame == RoutedView::Closed(why) || frame == RoutedView::Failed(why),
    ensures
        answered(op, frame) matches VerdictView::Failed(words) && {
            &&& words.len() >= why.len() && words.skip(words.len() - why.len()) == why
            &&& text::occurs_in(words, op.text())
        },
{
    let words = answered(op, frame)->Failed_0;
    let start = if frame is Closed {
        "the connection closed while waiting for "@
    } else {
        "the node reported an error while waiting for "@
    };
    assert(words =~= start + op.text() + ": "@ + why);
    assert(words.skip(words.len() - why.len()) =~= why);
    let at = start.len() as int;
    assert(words.subrange(at, at + op.text().len()) =~= op.text());
    assert(text::occurs_at(words, op.text(), at));
}

/// Whoever waits for a notification waits on through everything but a
/// notification and the end of the connection: no answer to somebody else, no
/// error and no failure ends the wait.
pub proof fn only_a_close_ends_the_wait(frame: FrameView)
    ensures
        heard(routed(frame)) is Ended <==> frame is Closed,
        frame is Failed || frame is Error ==> heard(routed(frame)) is Nothing,
        heard(routed(frame)) matches HeardView::Update(id, update) ==> routed(frame)
            == RoutedView::Notification(id, update),
        routed(frame) is Notification ==> heard(routed(frame)) is Update,
{
}

} // verus!
