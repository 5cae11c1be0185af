//! The order in which a client asks its questions.
//!
//! A flow says what to do next: ask the delegate, read, put or update a
//! contract, report to the user, or wait. Whoever runs it does that and hands
//! the answer back. Every flow ends in an outcome or in an error.

use vstd::prelude::*;
use crate::bytes::same_bytes;
use crate::cbor;
use crate::contract::{UpdateData, UpdateView};
use crate::delegate_api;
use crate::delegate_api::{
    EntropyQuality,
    GameSummary,
    GameSummaryView,
    Request,
    RequestView,
    Response,
    ResponseView,
    Side,
};
use crate::invite;
use crate::invite::{GameOffer, Invite, InviteView, OfferView};
use crate::project;
use crate::project::{Status, StatusView};
use crate::session;
use crate::session::{
    Asked,
    BoundGame,
    BoundView,
    GameView,
    MigrateOutcome,
    MigrateView,
    Scene,
    SessionError,
    SessionErrorView,
};
use crate::state;
use crate::state::GameState;
use crate::types::{Body, BodyView, GameParams, KeyBytes, ParamsView, RecordView};

verus! {

/// What is said of an opponent who plays on where a game was before it was
/// migrated.
pub const SKEW_WARNING: &'static str =
    "your opponent is still moving on the contract this game was migrated from; those moves do not reach this build";

// ---------------------------------------------------------------------------
// What a flow does, and what comes back.
// ---------------------------------------------------------------------------

/// The value of an [`Outcome`].
#[verifier::ext_equal]
pub enum OutcomeView {
    Keyed { public_key: Seq<u8>, entropy: EntropyQuality },
    Listed(Seq<GameSummaryView>),
    Invited(InviteView),
    Offered(OfferView),
    Bound(Seq<u8>),
    Migrated(MigrateView),
    Opened(Scene),
    Moved(StatusView),
    Watched,
}

/// What a flow comes to.
#[derive(Debug)]
pub enum Outcome {
    /// A fresh key, and where its randomness came from.
    Keyed { public_key: KeyBytes, entropy: EntropyQuality },
    /// Every label the delegate has for us.
    Listed(Vec<GameSummary>),
    /// The invite to send.
    Invited(Invite),
    /// The offer to send back.
    Offered(GameOffer),
    /// The contract that the game is bound to.
    Bound([u8; 32]),
    Migrated(MigrateOutcome),
    Opened(GameView),
    /// Where the game stands after what was signed.
    Moved(Status),
    /// There is nothing more to follow.
    Watched,
}

impl View for Outcome {
    type V = OutcomeView;

    open spec fn view(&self) -> OutcomeView {
        match self {
            Outcome::Keyed { public_key, entropy } => OutcomeView::Keyed {
                public_key: public_key@,
                entropy: *entropy,
            },
            Outcome::Listed(games) => OutcomeView::Listed(delegate_api::summary_views(games@)),
            Outcome::Invited(i) => OutcomeView::Invited(i@),
            Outcome::Offered(o) => OutcomeView::Offered(o@),
            Outcome::Bound(id) => OutcomeView::Bound(id@),
            Outcome::Migrated(m) => OutcomeView::Migrated(m@),
            Outcome::Opened(v) => OutcomeView::Opened(v@),
            Outcome::Moved(s) => OutcomeView::Moved(s@),
            Outcome::Watched => OutcomeView::Watched,
        }
    }
}

/// The value of an [`Action`].
#[verifier::ext_equal]
pub enum ActionView {
    Ask(RequestView),
    Get { contract: Seq<u8>, subscribe: bool },
    Put { params: ParamsView, bytes: Seq<u8> },
    Update { params: ParamsView, delta: Seq<u8> },
    Report { state: Map<Seq<u8>, RecordView>, status: StatusView },
    Skew,
    Next,
    Done(OutcomeView),
    Fail(SessionErrorView),
}

/// What to do next.
#[derive(Debug)]
pub enum Action {
    /// Ask the delegate.
    Ask(Request),
    /// Read a contract, and subscribe to it or not.
    Get { contract: [u8; 32], subscribe: bool },
    /// Put the contract that this build gives to a game, with a state.
    Put { params: GameParams, bytes: Vec<u8> },
    /// Send a delta to the contract that this build gives to a game.
    Update { params: GameParams, delta: Vec<u8> },
    /// Show where a game stands.
    Report { state: GameState, status: Status },
    /// Say that the opponent stayed behind.
    Skew,
    /// Wait for a notification.
    Next,
    Done(Outcome),
    Fail(SessionError),
}

impl View for Action {
    type V = ActionView;

    open spec fn view(&self) -> ActionView {
        match self {
            Action::Ask(r) => ActionView::Ask(r@),
            Action::Get { contract, subscribe } => ActionView::Get {
                contract: contract@,
                subscribe: *subscribe,
            },
            Action::Put { params, bytes } => ActionView::Put { params: params@, bytes: bytes@ },
            Action::Update { params, delta } => ActionView::Update {
                params: params@,
                delta: delta@,
            },
            Action::Report { state, status } => ActionView::Report {
                state: state@,
                status: status@,
            },
            Action::Skew => ActionView::Skew,
            Action::Next => ActionView::Next,
            Action::Done(o) => ActionView::Done(o@),
            Action::Fail(e) => ActionView::Fail(e@),
        }
    }
}

/// The value of an [`Event`].
#[verifier::ext_equal]
pub enum EventView {
    Answer(ResponseView),
    Got(Option<Seq<u8>>),
    Acknowledged,
    Notified(Option<(Seq<u8>, UpdateView)>),
}

/// What came back.
#[derive(Debug)]
pub enum Event {
    /// The delegate's answer.
    Answer(Response),
    /// What a contract holds; `None` where there is no such contract.
    Got(Option<Vec<u8>>),
    /// What was put, sent or shown.
    Acknowledged,
    /// A notification, with the contract it is about; `None` where none will
    /// come any more.
    Notified(Option<([u8; 32], UpdateData)>),
}

/// The value of a notification.
pub open spec fn notice_view(n: Option<([u8; 32], UpdateData)>) -> Option<(Seq<u8>, UpdateView)> {
    match n {
        Some((id, u)) => Some((id@, u@)),
        None => None,
    }
}

impl View for Event {
    type V = EventView;

    open spec fn view(&self) -> EventView {
        match self {
            Event::Answer(r) => EventView::Answer(r@),
            Event::Got(raw) => EventView::Got(session::raw_view(*raw)),
            Event::Acknowledged => EventView::Acknowledged,
            Event::Notified(n) => EventView::Notified(notice_view(*n)),
        }
    }
}

// ---------------------------------------------------------------------------
// What to open a game for.
// ---------------------------------------------------------------------------

/// The value of a [`Goal`].
#[verifier::ext_equal]
pub enum GoalView {
    View,
    Play(Seq<char>),
    Resign,
    DrawOffer,
    DrawAccept,
    DrawClaim,
    SignAt { ply: u16, uci: Seq<char> },
    Watch,
}

/// What a game is opened for.
#[derive(Debug, PartialEq, Eq)]
pub enum Goal {
    View,
    /// Play a move.
    Play(String),
    Resign,
    DrawOffer,
    DrawAccept,
    DrawClaim,
    /// Sign a move at a given ply, unchecked.
    SignAt { ply: u16, uci: String },
    /// Follow the game.
    Watch,
}

impl View for Goal {
    type V = GoalView;

    open spec fn view(&self) -> GoalView {
        match self {
            Goal::View => GoalView::View,
            Goal::Play(uci) => GoalView::Play(uci@),
            Goal::Resign => GoalView::Resign,
            Goal::DrawOffer => GoalView::DrawOffer,
            Goal::DrawAccept => GoalView::DrawAccept,
            Goal::DrawClaim => GoalView::DrawClaim,
            Goal::SignAt { ply, uci } => GoalView::SignAt { ply: *ply, uci: uci@ },
            Goal::Watch => GoalView::Watch,
        }
    }
}

/// The body to sign for a goal, at a game as it was found; `None` for a goal
/// that signs nothing.
pub open spec fn planned(scene: Scene, goal: GoalView) -> Option<
    Result<BodyView, SessionErrorView>,
> {
    match goal {
        GoalView::Play(uci) => Some(session::planned_move(scene, uci)),
        GoalView::Resign => Some(session::planned_resignation(scene)),
        GoalView::DrawOffer => Some(session::planned_offer(scene)),
        GoalView::DrawAccept => Some(session::planned_acceptance(scene)),
        GoalView::DrawClaim => Some(session::planned_claim(scene)),
        GoalView::SignAt { ply, uci } => Some(session::planned_move_at(scene, ply, uci)),
        GoalView::View => None,
        GoalView::Watch => None,
    }
}

/// The body to sign for a goal, at a game as it was found; `None` for a goal
/// that signs nothing.
pub fn plan(view: &GameView, goal: &Goal) -> (r: Option<Result<Body, SessionError>>)
    ensures
        match r {
            None => planned(view@, goal@) is None,
            Some(Ok(b)) => planned(view@, goal@) == Some(Ok::<BodyView, SessionErrorView>(b@)),
            Some(Err(e)) => planned(view@, goal@) == Some(Err::<BodyView, SessionErrorView>(e@)),
        },
{
    match goal {
        Goal::Play(uci) => Some(session::plan_move(view, uci.as_str())),
        Goal::Resign => Some(session::plan_resignation(view)),
        Goal::DrawOffer => Some(session::plan_offer(view)),
        Goal::DrawAccept => Some(session::plan_acceptance(view)),
        Goal::DrawClaim => Some(session::plan_claim(view)),
        Goal::SignAt { ply, uci } => Some(session::plan_move_at(view, *ply, uci.as_str())),
        Goal::View => None,
        Goal::Watch => None,
    }
}

// ---------------------------------------------------------------------------
// Following a game.
// ---------------------------------------------------------------------------

/// The value of a [`Watch`].
#[verifier::ext_equal]
pub struct WatchView {
    pub contract: Seq<u8>,
    pub previous: Option<Seq<u8>>,
    pub ours: Seq<u8>,
    pub params: ParamsView,
    pub state: Map<Seq<u8>, RecordView>,
    pub skewed: bool,
}

/// A game that is followed.
#[derive(Debug)]
pub struct Watch {
    pub contract: [u8; 32],
    /// The contract the game was migrated from.
    pub previous: Option<[u8; 32]>,
    pub ours: KeyBytes,
    pub params: GameParams,
    /// All that has arrived so far, merged.
    pub state: GameState,
    /// It was said that the opponent stayed behind.
    pub skewed: bool,
}

impl View for Watch {
    type V = WatchView;

    open spec fn view(&self) -> WatchView {
        WatchView {
            contract: self.contract@,
            previous: cbor::option_view(self.previous),
            ours: self.ours@,
            params: self.params@,
            state: self.state@,
            skewed: self.skewed,
        }
    }
}

/// How far following a game has got.
#[derive(Clone, Copy, Debug, PartialEq, Eq, Structural)]
pub enum Stage {
    /// The game was shown as it was found.
    Opened { over: bool },
    /// The subscription was asked for.
    Subscribing,
    /// What the subscription brought was shown.
    CaughtUp { over: bool },
    /// The previous contract was asked for.
    Checking,
    /// It was said that the opponent stayed behind.
    Warned,
    /// A notification is waited for.
    Waiting,
    /// What a notification brought was shown.
    Told { over: bool },
}

// ---------------------------------------------------------------------------
// Flows.
// ---------------------------------------------------------------------------

/// The value of a [`Flow`].
#[verifier::ext_equal]
pub enum FlowView {
    Keying,
    Listing,
    Inviting { side: Side, nonce: Seq<u8> },
    Accepting { label: Seq<char>, invite: InviteView },
    Offering { label: Seq<char>, params: ParamsView, contract: Seq<u8> },
    OfferBinding { params: ParamsView, contract: Seq<u8> },
    Joining { label: Seq<char>, params: ParamsView, contract: Seq<u8> },
    JoinPutting { label: Seq<char>, params: ParamsView, contract: Seq<u8> },
    JoinBinding { contract: Seq<u8> },
    Migrating { label: Seq<char> },
    MigrateReading { label: Seq<char>, params: ParamsView, from: Seq<u8>, to: Seq<u8> },
    MigratePutting { label: Seq<char>, from: Seq<u8>, to: Seq<u8>, records: nat },
    MigrateBinding { from: Seq<u8>, to: Seq<u8>, records: nat },
    Opening { label: Seq<char>, goal: GoalView },
    Reading { game: BoundView, goal: GoalView },
    Signing { params: ParamsView, contract: Seq<u8> },
    Submitting { params: ParamsView, contract: Seq<u8> },
    Rereading { params: ParamsView },
    Watching { watch: WatchView, stage: Stage },
    Finished,
}

/// Where a flow stands: what it is waiting for, and what it knows.
#[derive(Debug)]
pub enum Flow {
    /// A key of our own, for its own sake.
    Keying,
    /// The list of our labels.
    Listing,
    /// A key of our own, to invite somebody with.
    Inviting { side: Side, nonce: [u8; 16] },
    /// A key of our own, to accept an invite with.
    Accepting { label: String, invite: Invite },
    /// The contract of the game, put by us.
    Offering { label: String, params: GameParams, contract: [u8; 32] },
    /// The game, bound by us.
    OfferBinding { params: GameParams, contract: [u8; 32] },
    /// The contract of the game we were offered.
    Joining { label: String, params: GameParams, contract: [u8; 32] },
    /// That contract, put by us because nobody had it.
    JoinPutting { label: String, params: GameParams, contract: [u8; 32] },
    /// The offered game, bound by us.
    JoinBinding { contract: [u8; 32] },
    /// The game to migrate.
    Migrating { label: String },
    /// The state to migrate.
    MigrateReading { label: String, params: GameParams, from: [u8; 32], to: [u8; 32] },
    /// The state, put under the new contract.
    MigratePutting { label: String, from: [u8; 32], to: [u8; 32], records: usize },
    /// The game, bound to the new contract.
    MigrateBinding { from: [u8; 32], to: [u8; 32], records: usize },
    /// The game a label stands for.
    Opening { label: String, goal: Goal },
    /// The state of that game.
    Reading { game: BoundGame, goal: Goal },
    /// A signature.
    Signing { params: GameParams, contract: [u8; 32] },
    /// What was signed, sent to the contract.
    Submitting { params: GameParams, contract: [u8; 32] },
    /// The state after that.
    Rereading { params: GameParams },
    /// News of a game that is followed.
    Watching { watch: Watch, stage: Stage },
    /// Nothing.
    Finished,
}

impl View for Flow {
    type V = FlowView;

    open spec fn view(&self) -> FlowView {
        match self {
            Flow::Keying => FlowView::Keying,
            Flow::Listing => FlowView::Listing,
            Flow::Inviting { side, nonce } => FlowView::Inviting { side: *side, nonce: nonce@ },
            Flow::Accepting { label, invite } => FlowView::Accepting {
                label: label@,
                invite: invite@,
            },
            Flow::Offering { label, params, contract } => FlowView::Offering {
                label: label@,
                params: params@,
                contract: contract@,
            },
            Flow::OfferBinding { params, contract } => FlowView::OfferBinding {
                params: params@,
                contract: contract@,
            },
            Flow::Joining { label, params, contract } => FlowView::Joining {
                label: label@,
                params: params@,
                contract: contract@,
            },
            Flow::JoinPutting { label, params, contract } => FlowView::JoinPutting {
                label: label@,
                params: params@,
                contract: contract@,
            },
            Flow::JoinBinding { contract } => FlowView::JoinBinding { contract: contract@ },
            Flow::Migrating { label } => FlowView::Migrating { label: label@ },
            Flow::MigrateReading { label, params, from, to } => FlowView::MigrateReading {
                label: label@,
                params: params@,
                from: from@,
                to: to@,
            },
            Flow::MigratePutting { label, from, to, records } => FlowView::MigratePutting {
                label: label@,
                from: from@,
                to: to@,
                records: *records as nat,
            },
            Flow::MigrateBinding { from, to, records } => FlowView::MigrateBinding {
                from: from@,
                to: to@,
                records: *records as nat,
            },
            Flow::Opening { label, goal } => FlowView::Opening { label: label@, goal: goal@ },
            Flow::Reading { game, goal } => FlowView::Reading { game: game@, goal: goal@ },
            Flow::Signing { params, contract } => FlowView::Signing {
                params: params@,
                contract: contract@,
            },
            Flow::Submitting { params, contract } => FlowView::Submitting {
                params: params@,
                contract: contract@,
            },
            Flow::Rereading { params } => FlowView::Rereading { params: params@ },
            Flow::Watching { watch, stage } => FlowView::Watching { watch: watch@, stage: *stage },
            Flow::Finished => FlowView::Finished,
        }
    }
}

/// A flow that ends in an error.
pub open spec fn failed(e: SessionErrorView) -> (FlowView, ActionView) {
    (FlowView::Finished, ActionView::Fail(e))
}

/// A flow that ends in an outcome.
pub open spec fn finished(o: OutcomeView) -> (FlowView, ActionView) {
    (FlowView::Finished, ActionView::Done(o))
}

fn fail(e: SessionError) -> (r: (Flow, Action))
    ensures
        (r.0@, r.1@) == failed(e@),
{
    (Flow::Finished, Action::Fail(e))
}

fn done(o: Outcome) -> (r: (Flow, Action))
    ensures
        (r.0@, r.1@) == finished(o@),
{
    (Flow::Finished, Action::Done(o))
}

// ---------------------------------------------------------------------------
// Keys and labels.
// ---------------------------------------------------------------------------

/// Our key came back.
pub open spec fn keyed(response: ResponseView) -> (FlowView, ActionView) {
    match response {
        ResponseView::GameKey { public_key, entropy, .. } => finished(
            OutcomeView::Keyed { public_key, entropy },
        ),
        _ => failed(session::refusal_in(Asked::CreateGameKey, response)),
    }
}

fn on_keyed(response: Response) -> (r: (Flow, Action))
    ensures
        (r.0@, r.1@) == keyed(response@),
{
    match response {
        Response::GameKey { public_key, entropy, .. } => done(
            Outcome::Keyed { public_key, entropy },
        ),
        _ => fail(session::refused(Asked::CreateGameKey, response)),
    }
}

/// The list of our labels came back. A refusal is not an empty list.
pub open spec fn labels(response: ResponseView) -> (FlowView, ActionView) {
    match response {
        ResponseView::Games(games) => finished(OutcomeView::Listed(games)),
        _ => failed(session::refusal_in(Asked::ListGames, response)),
    }
}

fn on_labels(response: Response) -> (r: (Flow, Action))
    ensures
        (r.0@, r.1@) == labels(response@),
{
    match response {
        Response::Games(games) => done(Outcome::Listed(games)),
        _ => fail(session::refused(Asked::ListGames, response)),
    }
}

// ---------------------------------------------------------------------------
// Setting up a game.
// ---------------------------------------------------------------------------

/// Asking the delegate to bind a game.
pub open spec fn binding(label: Seq<char>, params: ParamsView, contract: Seq<u8>) -> ActionView {
    ActionView::Ask(RequestView::BindGame { label, params, contract })
}

fn bind(label: String, params: &GameParams, contract: [u8; 32]) -> (r: Action)
    ensures
        r@ == binding(label@, params@, contract@),
{
    Action::Ask(Request::BindGame { label, params: params.clone(), contract })
}

/// Our key came back: it goes into the invite.
pub open spec fn invited(side: Side, nonce: Seq<u8>, response: ResponseView) -> (
    FlowView,
    ActionView,
) {
    match session::key_in(response) {
        Ok(public_key) => finished(
            OutcomeView::Invited(InviteView { v: invite::INVITE_FORMAT, side, public_key, nonce }),
        ),
        Err(e) => failed(e),
    }
}

fn on_invited(side: Side, nonce: [u8; 16], response: Response) -> (r: (Flow, Action))
    ensures
        (r.0@, r.1@) == invited(side, nonce@, response@),
{
    match session::key_given(response) {
        Ok(key) => done(Outcome::Invited(Invite::new(side, key, nonce))),
        Err(e) => fail(e),
    }
}

/// Our key came back: it completes the parameters, and the contract of the
/// game is put, empty.
pub open spec fn accepted(
    label: Seq<char>,
    invite: InviteView,
    response: ResponseView,
    wasm: Seq<u8>,
) -> (FlowView, ActionView) {
    match session::key_in(response) {
        Ok(key) => {
            let params = session::agreed_params(invite, key);
            (
                FlowView::Offering { label, params, contract: session::contract_of(wasm, params) },
                ActionView::Put { params, bytes: Seq::empty() },
            )
        },
        Err(e) => failed(e),
    }
}

fn on_accepted(label: String, invite: &Invite, response: Response, wasm: &[u8]) -> (r: (
    Flow,
    Action,
))
    ensures
        (r.0@, r.1@) == accepted(label@, invite@, response@, wasm@),
{
    match session::key_given(response) {
        Ok(key) => {
            let params = session::accepted_params(invite, key);
            let contract = session::contract_id(wasm, &params);
            let bytes: Vec<u8> = Vec::new();
            let action = Action::Put { params: params.clone(), bytes };
            assert(action@->Put_bytes =~= Seq::empty());
            (Flow::Offering { label, params, contract }, action)
        },
        Err(e) => fail(e),
    }
}

/// The game was bound: it is offered back.
pub open spec fn offered(params: ParamsView, contract: Seq<u8>, response: ResponseView) -> (
    FlowView,
    ActionView,
) {
    match session::not_bound(Asked::BindGame, response) {
        None => finished(
            OutcomeView::Offered(OfferView { v: invite::OFFER_FORMAT, params, contract }),
        ),
        Some(e) => failed(e),
    }
}

fn on_offered(params: GameParams, contract: [u8; 32], response: Response) -> (r: (Flow, Action))
    ensures
        (r.0@, r.1@) == offered(params@, contract@, response@),
{
    match session::check_bound(Asked::BindGame, response) {
        Ok(_) => done(Outcome::Offered(GameOffer::new(params, contract))),
        Err(e) => fail(e),
    }
}

/// What the contract of the offered game was found to hold: where there is no
/// such contract yet, it is put, empty.
pub open spec fn found(
    label: Seq<char>,
    params: ParamsView,
    contract: Seq<u8>,
    raw: Option<Seq<u8>>,
) -> (FlowView, ActionView) {
    match raw {
        None => (
            FlowView::JoinPutting { label, params, contract },
            ActionView::Put { params, bytes: Seq::empty() },
        ),
        Some(_) => (FlowView::JoinBinding { contract }, binding(label, params, contract)),
    }
}

fn on_found(label: String, params: GameParams, contract: [u8; 32], raw: &Option<Vec<u8>>) -> (r: (
    Flow,
    Action,
))
    ensures
        (r.0@, r.1@) == found(label@, params@, contract@, session::raw_view(*raw)),
{
    match raw {
        None => {
            let bytes: Vec<u8> = Vec::new();
            let action = Action::Put { params: params.clone(), bytes };
            assert(action@->Put_bytes =~= Seq::empty());
            (Flow::JoinPutting { label, params, contract }, action)
        },
        Some(_) => {
            let action = bind(label, &params, contract);
            (Flow::JoinBinding { contract }, action)
        },
    }
}

/// The offered game was bound.
pub open spec fn joined(contract: Seq<u8>, response: ResponseView) -> (FlowView, ActionView) {
    match session::not_bound(Asked::BindGame, response) {
        None => finished(OutcomeView::Bound(contract)),
        Some(e) => failed(e),
    }
}

fn on_joined(contract: [u8; 32], response: Response) -> (r: (Flow, Action))
    ensures
        (r.0@, r.1@) == joined(contract@, response@),
{
    match session::check_bound(Asked::BindGame, response) {
        Ok(_) => done(Outcome::Bound(contract)),
        Err(e) => fail(e),
    }
}

// ---------------------------------------------------------------------------
// Migrating a game.
// ---------------------------------------------------------------------------

/// The game was looked up: unless it is where this build has it, the state is
/// read from where it is now.
pub open spec fn migrating(label: Seq<char>, response: ResponseView, wasm: Seq<u8>) -> (
    FlowView,
    ActionView,
) {
    match session::bound_game(response, label) {
        Ok(game) => {
            let to = session::contract_of(wasm, game.params);
            if to == game.contract {
                finished(OutcomeView::Migrated(MigrateView::AlreadyCurrent { contract: to }))
            } else {
                (
                    FlowView::MigrateReading {
                        label,
                        params: game.params,
                        from: game.contract,
                        to,
                    },
                    ActionView::Get { contract: game.contract, subscribe: false },
                )
            }
        },
        Err(e) => failed(e),
    }
}

fn on_migrating(label: String, response: Response, wasm: &[u8]) -> (r: (Flow, Action))
    ensures
        (r.0@, r.1@) == migrating(label@, response@, wasm@),
{
    match session::select_game(response, label.as_str()) {
        Ok(game) => {
            let to = session::contract_id(wasm, &game.params);
            let from = game.contract;
            if same_bytes(to.as_slice(), from.as_slice()) {
                done(Outcome::Migrated(MigrateOutcome::AlreadyCurrent { contract: from }))
            } else {
                (
                    Flow::MigrateReading { label, params: game.params, from, to },
                    Action::Get { contract: from, subscribe: false },
                )
            }
        },
        Err(e) => fail(e),
    }
}

/// The state was read: it is put under the new contract, before the delegate
/// is told anything.
pub open spec fn carrying(
    label: Seq<char>,
    params: ParamsView,
    from: Seq<u8>,
    to: Seq<u8>,
    raw: Option<Seq<u8>>,
) -> (FlowView, ActionView) {
    match session::carried_over(from, raw) {
        Ok(m) => (
            FlowView::MigratePutting { label, from, to, records: m.len() },
            ActionView::Put { params, bytes: cbor::cbor_bytes(state::state_tree(m)) },
        ),
        Err(e) => failed(e),
    }
}

fn on_carrying(
    label: String,
    params: GameParams,
    from: [u8; 32],
    to: [u8; 32],
    raw: &Option<Vec<u8>>,
) -> (r: (Flow, Action))
    ensures
        (r.0@, r.1@) == carrying(label@, params@, from@, to@, session::raw_view(*raw)),
{
    match session::read_old_state(&from, raw) {
        Ok(held) => {
            let records: usize = held.len();
            (
                Flow::MigratePutting { label, from, to, records },
                Action::Put { params, bytes: held.encode() },
            )
        },
        Err(e) => fail(e),
    }
}

/// The game was bound to the new contract.
pub open spec fn migrated(from: Seq<u8>, to: Seq<u8>, records: nat, response: ResponseView) -> (
    FlowView,
    ActionView,
) {
    match session::not_bound(Asked::Rebind, response) {
        None => finished(OutcomeView::Migrated(MigrateView::Migrated { from, to, records })),
        Some(e) => failed(e),
    }
}

fn on_migrated(from: [u8; 32], to: [u8; 32], records: usize, response: Response) -> (r: (
    Flow,
    Action,
))
    ensures
        (r.0@, r.1@) == migrated(from@, to@, records as nat, response@),
{
    match session::check_bound(Asked::Rebind, response) {
        Ok(_) => done(Outcome::Migrated(MigrateOutcome::Migrated { from, to, records })),
        Err(e) => fail(e),
    }
}

// ---------------------------------------------------------------------------
// Acting on a game.
// ---------------------------------------------------------------------------

/// The game was looked up: it is read, if this build is the one it was bound
/// with.
pub open spec fn opening(
    label: Seq<char>,
    goal: GoalView,
    response: ResponseView,
    wasm: Seq<u8>,
) -> (FlowView, ActionView) {
    match session::bound_game(response, label) {
        Ok(game) => match session::mismatch(game, wasm) {
            None => (
                FlowView::Reading { game, goal },
                ActionView::Get { contract: game.contract, subscribe: false },
            ),
            Some(e) => failed(e),
        },
        Err(e) => failed(e),
    }
}

fn on_opening(label: String, goal: Goal, response: Response, wasm: &[u8]) -> (r: (Flow, Action))
    ensures
        (r.0@, r.1@) == opening(label@, goal@, response@, wasm@),
{
    match session::select_game(response, label.as_str()) {
        Ok(game) => match session::check_build(&game, wasm) {
            Ok(_) => {
                let contract = game.contract;
                (Flow::Reading { game, goal }, Action::Get { contract, subscribe: false })
            },
            Err(e) => fail(e),
        },
        Err(e) => fail(e),
    }
}

/// A game as it is first followed.
pub open spec fn watch_of(game: BoundView, m: Map<Seq<u8>, RecordView>) -> WatchView {
    WatchView {
        contract: game.contract,
        previous: game.previous,
        ours: game.public_key,
        params: game.params,
        state: m,
        skewed: false,
    }
}

/// The game was read: it is handed over, shown, or a body is signed on it.
pub open spec fn read(game: BoundView, goal: GoalView, raw: Option<Seq<u8>>) -> (
    FlowView,
    ActionView,
) {
    match session::fetched(raw) {
        Ok(m) => {
            let scene = session::scene_of(game, m);
            match planned(scene, goal) {
                Some(Ok(body)) => (
                    FlowView::Signing { params: game.params, contract: game.contract },
                    ActionView::Ask(RequestView::Sign { game_id: game.game_id, body }),
                ),
                Some(Err(e)) => failed(e),
                None => if goal is Watch {
                    (
                        FlowView::Watching {
                            watch: watch_of(game, m),
                            stage: Stage::Opened { over: scene.status.decision is Some },
                        },
                        ActionView::Report { state: m, status: scene.status },
                    )
                } else {
                    finished(OutcomeView::Opened(scene))
                },
            }
        },
        Err(e) => failed(e),
    }
}

fn on_read(game: BoundGame, goal: Goal, raw: &Option<Vec<u8>>) -> (r: (Flow, Action))
    ensures
        (r.0@, r.1@) == read(game@, goal@, session::raw_view(*raw)),
{
    let held = match session::fetch_state(raw) {
        Ok(s) => s,
        Err(e) => return fail(e),
    };
    let view = session::open_game(&game, held);
    match plan(&view, &goal) {
        Some(Ok(body)) => {
            let game_id = game.game_id;
            let contract = game.contract;
            (
                Flow::Signing { params: game.params, contract },
                Action::Ask(Request::Sign { game_id, body }),
            )
        },
        Some(Err(e)) => fail(e),
        None => match goal {
            Goal::Watch => {
                let over: bool = view.status.is_over();
                let watch = Watch {
                    contract: game.contract,
                    previous: game.previous,
                    ours: game.public_key,
                    params: game.params,
                    state: view.state.clone(),
                    skewed: false,
                };
                (
                    Flow::Watching { watch, stage: Stage::Opened { over } },
                    Action::Report { state: view.state, status: view.status },
                )
            },
            _ => done(Outcome::Opened(view)),
        },
    }
}

/// The record came back signed: it is sent as a delta.
pub open spec fn signed(params: ParamsView, contract: Seq<u8>, response: ResponseView) -> (
    FlowView,
    ActionView,
) {
    match session::delta_in(response) {
        Ok(delta) => (
            FlowView::Submitting { params, contract },
            ActionView::Update { params, delta },
        ),
        Err(e) => failed(e),
    }
}

fn on_signed(params: GameParams, contract: [u8; 32], response: Response) -> (r: (Flow, Action))
    ensures
        (r.0@, r.1@) == signed(params@, contract@, response@),
{
    match session::signed_delta(response) {
        Ok(delta) => {
            let action = Action::Update { params: params.clone(), delta };
            (Flow::Submitting { params, contract }, action)
        },
        Err(e) => fail(e),
    }
}

/// The state was read again: this is where the game stands now.
pub open spec fn reread(params: ParamsView, raw: Option<Seq<u8>>) -> (FlowView, ActionView) {
    match session::fetched(raw) {
        Ok(m) => finished(OutcomeView::Moved(project::projected(m, params))),
        Err(e) => failed(e),
    }
}

fn on_reread(params: &GameParams, raw: &Option<Vec<u8>>) -> (r: (Flow, Action))
    ensures
        (r.0@, r.1@) == reread(params@, session::raw_view(*raw)),
{
    match session::fetch_state(raw) {
        Ok(s) => done(Outcome::Moved(project(&s, params))),
        Err(e) => fail(e),
    }
}

// ---------------------------------------------------------------------------
// News of a game that is followed.
// ---------------------------------------------------------------------------

/// Show the state that is held, and go on from there.
pub open spec fn telling(watch: WatchView, caught_up: bool) -> (FlowView, ActionView) {
    let status = project::projected(watch.state, watch.params);
    let over = status.decision is Some;
    (
        FlowView::Watching {
            watch,
            stage: if caught_up {
                Stage::CaughtUp { over }
            } else {
                Stage::Told { over }
            },
        },
        ActionView::Report { state: watch.state, status },
    )
}

fn tell(watch: Watch, caught_up: bool) -> (r: (Flow, Action))
    ensures
        (r.0@, r.1@) == telling(watch@, caught_up),
{
    let status = project(&watch.state, &watch.params);
    let over: bool = status.is_over();
    let shown = watch.state.clone();
    let stage: Stage = if caught_up {
        Stage::CaughtUp { over }
    } else {
        Stage::Told { over }
    };
    (Flow::Watching { watch, stage }, Action::Report { state: shown, status })
}

/// Wait for a notification.
pub open spec fn waiting(watch: WatchView) -> (FlowView, ActionView) {
    (FlowView::Watching { watch, stage: Stage::Waiting }, ActionView::Next)
}

fn wait(watch: Watch) -> (r: (Flow, Action))
    ensures
        (r.0@, r.1@) == waiting(watch@),
{
    (Flow::Watching { watch, stage: Stage::Waiting }, Action::Next)
}

/// Look where a migrated game was before, subscribing to it, and wait if it
/// was never migrated.
pub open spec fn looking_back(watch: WatchView) -> (FlowView, ActionView) {
    match watch.previous {
        Some(p) => (
            FlowView::Watching { watch, stage: Stage::Checking },
            ActionView::Get { contract: p, subscribe: true },
        ),
        None => waiting(watch),
    }
}

fn look_back(watch: Watch) -> (r: (Flow, Action))
    ensures
        (r.0@, r.1@) == looking_back(watch@),
{
    match watch.previous {
        Some(p) => (
            Flow::Watching { watch, stage: Stage::Checking },
            Action::Get { contract: p, subscribe: true },
        ),
        None => wait(watch),
    }
}

/// What the subscription brought is merged, not put in the place of what is
/// held, and shown where it brought anything.
pub open spec fn subscribed(watch: WatchView, raw: Option<Seq<u8>>) -> (FlowView, ActionView) {
    match raw {
        None => looking_back(watch),
        Some(b) => match session::state_payload(b) {
            Err(e) => failed(e),
            Ok(None) => looking_back(watch),
            Ok(Some(fresh)) => {
                let next = WatchView {
                    state: state::merge_of(watch.state, fresh, watch.params),
                    ..watch
                };
                if next.state.len() != watch.state.len() {
                    telling(next, true)
                } else {
                    looking_back(next)
                }
            },
        },
    }
}

fn on_subscribed(watch: Watch, raw: &Option<Vec<u8>>) -> (r: (Flow, Action))
    ensures
        (r.0@, r.1@) == subscribed(watch@, session::raw_view(*raw)),
{
    match raw {
        None => look_back(watch),
        Some(b) => match session::decode_state_payload(b.as_slice()) {
            Err(e) => fail(e),
            Ok(None) => look_back(watch),
            Ok(Some(fresh)) => {
                let mut next = watch;
                let before: usize = next.state.len();
                let ghost prior = next@;
                next.state.merge(&fresh, &next.params);
                assert(next@ == WatchView {
                    state: state::merge_of(prior.state, fresh@, prior.params),
                    ..prior
                });
                if next.state.len() != before {
                    tell(next, true)
                } else {
                    look_back(next)
                }
            },
        },
    }
}

/// Whether the previous contract shows that the opponent stayed behind. One
/// that is gone, or cannot be read, shows nothing.
pub open spec fn shows_skew(watch: WatchView, raw: Option<Seq<u8>>) -> bool {
    match raw {
        None => false,
        Some(b) => match session::state_payload(b) {
            Ok(Some(old)) => session::left_behind(watch.state, old, watch.ours),
            _ => false,
        },
    }
}

/// What the previous contract was found to hold. That the opponent stayed
/// behind is said once.
pub open spec fn checked(watch: WatchView, raw: Option<Seq<u8>>) -> (FlowView, ActionView) {
    if !watch.skewed && shows_skew(watch, raw) {
        (
            FlowView::Watching {
                watch: WatchView { skewed: true, ..watch },
                stage: Stage::Warned,
            },
            ActionView::Skew,
        )
    } else {
        waiting(watch)
    }
}

fn on_checked(watch: Watch, raw: &Option<Vec<u8>>) -> (r: (Flow, Action))
    ensures
        (r.0@, r.1@) == checked(watch@, session::raw_view(*raw)),
{
    let behind: bool = match raw {
        None => false,
        Some(b) => match session::decode_state_payload(b.as_slice()) {
            Ok(Some(old_state)) => session::opponent_moved_on_previous(
                &watch.state,
                &old_state,
                &watch.ours,
            ),
            _ => false,
        },
    };
    if !watch.skewed && behind {
        let mut next = watch;
        let ghost prior = next@;
        next.skewed = true;
        assert(next@ == WatchView { skewed: true, ..prior });
        (Flow::Watching { watch: next, stage: Stage::Warned }, Action::Skew)
    } else {
        wait(watch)
    }
}

/// A notification. One about the game is merged and shown; one about the
/// contract the game was migrated from has that contract looked at again; any
/// other is about something else.
pub open spec fn notified(watch: WatchView, notice: Option<(Seq<u8>, UpdateView)>) -> (
    FlowView,
    ActionView,
) {
    match notice {
        None => finished(OutcomeView::Watched),
        Some((id, update)) => if id == watch.contract {
            let (m, e) = session::with_update(watch.state, update, watch.params);
            match e {
                Some(e) => failed(e),
                None => if session::carries_records(update) {
                    telling(WatchView { state: m, ..watch }, false)
                } else {
                    waiting(watch)
                },
            }
        } else if watch.previous == Some(id) && !watch.skewed {
            (
                FlowView::Watching { watch, stage: Stage::Checking },
                ActionView::Get { contract: id, subscribe: false },
            )
        } else {
            waiting(watch)
        },
    }
}

fn on_notified(watch: Watch, notice: &Option<([u8; 32], UpdateData)>) -> (r: (Flow, Action))
    ensures
        (r.0@, r.1@) == notified(watch@, notice_view(*notice)),
{
    match notice {
        None => done(Outcome::Watched),
        Some((id, update)) => {
            if same_bytes(id.as_slice(), watch.contract.as_slice()) {
                let mut next = watch;
                let ghost prior = next@;
                match session::take_update(&mut next.state, update, &next.params) {
                    Err(e) => fail(e),
                    Ok(true) => {
                        assert(next@ == WatchView {
                            state: session::with_update(prior.state, update@, prior.params).0,
                            ..prior
                        });
                        tell(next, false)
                    },
                    Ok(false) => {
                        assert(next@ =~= prior);
                        wait(next)
                    },
                }
            } else {
                let ours: bool = match &watch.previous {
                    Some(p) => same_bytes(id.as_slice(), p.as_slice()),
                    None => false,
                };
                if ours && !watch.skewed {
                    (
                        Flow::Watching { watch, stage: Stage::Checking },
                        Action::Get { contract: *id, subscribe: false },
                    )
                } else {
                    wait(watch)
                }
            }
        },
    }
}

/// What comes after something was shown.
pub open spec fn shown(watch: WatchView, stage: Stage) -> (FlowView, ActionView) {
    match stage {
        Stage::Opened { over } => if over {
            finished(OutcomeView::Watched)
        } else {
            (
                FlowView::Watching { watch, stage: Stage::Subscribing },
                ActionView::Get { contract: watch.contract, subscribe: true },
            )
        },
        Stage::CaughtUp { over } => if over {
            finished(OutcomeView::Watched)
        } else {
            looking_back(watch)
        },
        Stage::Told { over } => if over {
            finished(OutcomeView::Watched)
        } else {
            waiting(watch)
        },
        Stage::Warned => waiting(watch),
        _ => failed(SessionErrorView::OutOfStep),
    }
}

fn on_shown(watch: Watch, stage: Stage) -> (r: (Flow, Action))
    ensures
        (r.0@, r.1@) == shown(watch@, stage),
{
    match stage {
        Stage::Opened { over } => if over {
            done(Outcome::Watched)
        } else {
            let contract = watch.contract;
            (
                Flow::Watching { watch, stage: Stage::Subscribing },
                Action::Get { contract, subscribe: true },
            )
        },
        Stage::CaughtUp { over } => if over {
            done(Outcome::Watched)
        } else {
            look_back(watch)
        },
        Stage::Told { over } => if over {
            done(Outcome::Watched)
        } else {
            wait(watch)
        },
        Stage::Warned => wait(watch),
        _ => fail(SessionError::OutOfStep),
    }
}

// ---------------------------------------------------------------------------
// One step.
// ---------------------------------------------------------------------------

/// The next step of a flow, where an answer of the delegate came back.
pub open spec fn after_answer(flow: FlowView, response: ResponseView, wasm: Seq<u8>) -> (
    FlowView,
    ActionView,
) {
    match flow {
        FlowView::Keying => keyed(response),
        FlowView::Listing => labels(response),
        FlowView::Inviting { side, nonce } => invited(side, nonce, response),
        FlowView::Accepting { label, invite } => accepted(label, invite, response, wasm),
        FlowView::OfferBinding { params, contract } => offered(params, contract, response),
        FlowView::JoinBinding { contract } => joined(contract, response),
        FlowView::Migrating { label } => migrating(label, response, wasm),
        FlowView::MigrateBinding { from, to, records } => migrated(from, to, records, response),
        FlowView::Opening { label, goal } => opening(label, goal, response, wasm),
        FlowView::Signing { params, contract } => signed(params, contract, response),
        _ => failed(SessionErrorView::OutOfStep),
    }
}

/// The next step of a flow, where the contents of a contract came back.
pub open spec fn after_get(flow: FlowView, raw: Option<Seq<u8>>) -> (FlowView, ActionView) {
    match flow {
        FlowView::Joining { label, params, contract } => found(label, params, contract, raw),
        FlowView::MigrateReading { label, params, from, to } => carrying(
            label,
            params,
            from,
            to,
            raw,
        ),
        FlowView::Reading { game, goal } => read(game, goal, raw),
        FlowView::Rereading { params } => reread(params, raw),
        FlowView::Watching { watch, stage } => match stage {
            Stage::Subscribing => subscribed(watch, raw),
            Stage::Checking => checked(watch, raw),
            _ => failed(SessionErrorView::OutOfStep),
        },
        _ => failed(SessionErrorView::OutOfStep),
    }
}

/// The next step of a flow, where something was put, sent or shown.
pub open spec fn after_acknowledgement(flow: FlowView) -> (FlowView, ActionView) {
    match flow {
        FlowView::Offering { label, params, contract } => (
            FlowView::OfferBinding { params, contract },
            binding(label, params, contract),
        ),
        FlowView::JoinPutting { label, params, contract } => (
            FlowView::JoinBinding { contract },
            binding(label, params, contract),
        ),
        FlowView::MigratePutting { label, from, to, records } => (
            FlowView::MigrateBinding { from, to, records },
            ActionView::Ask(RequestView::Rebind { label, contract: to }),
        ),
        FlowView::Submitting { params, contract } => (
            FlowView::Rereading { params },
            ActionView::Get { contract, subscribe: false },
        ),
        FlowView::Watching { watch, stage } => shown(watch, stage),
        _ => failed(SessionErrorView::OutOfStep),
    }
}

/// The next step of a flow.
pub open spec fn stepped(flow: FlowView, event: EventView, wasm: Seq<u8>) -> (
    FlowView,
    ActionView,
) {
    match event {
        EventView::Answer(response) => after_answer(flow, response, wasm),
        EventView::Got(raw) => after_get(flow, raw),
        EventView::Acknowledged => after_acknowledgement(flow),
        EventView::Notified(notice) => match flow {
            FlowView::Watching { watch, stage: Stage::Waiting } => notified(watch, notice),
            _ => failed(SessionErrorView::OutOfStep),
        },
    }
}

impl Flow {
    fn on_answer(self, response: Response, wasm: &[u8]) -> (r: (Flow, Action))
        ensures
            (r.0@, r.1@) == after_answer(self@, response@, wasm@),
    {
        match self {
            Flow::Keying => on_keyed(response),
            Flow::Listing => on_labels(response),
            Flow::Inviting { side, nonce } => on_invited(side, nonce, response),
            Flow::Accepting { label, invite } => on_accepted(label, &invite, response, wasm),
            Flow::OfferBinding { params, contract } => on_offered(params, contract, response),
            Flow::JoinBinding { contract } => on_joined(contract, response),
            Flow::Migrating { label } => on_migrating(label, response, wasm),
            Flow::MigrateBinding { from, to, records } => on_migrated(from, to, records, response),
            Flow::Opening { label, goal } => on_opening(label, goal, response, wasm),
            Flow::Signing { params, contract } => on_signed(params, contract, response),
            _ => fail(SessionError::OutOfStep),
        }
    }

    fn on_get(self, raw: &Option<Vec<u8>>) -> (r: (Flow, Action))
        ensures
            (r.0@, r.1@) == after_get(self@, session::raw_view(*raw)),
    {
        match self {
            Flow::Joining { label, params, contract } => on_found(label, params, contract, raw),
            Flow::MigrateReading { label, params, from, to } => on_carrying(
                label,
                params,
                from,
                to,
                raw,
            ),
            Flow::Reading { game, goal } => on_read(game, goal, raw),
            Flow::Rereading { params } => on_reread(&params, raw),
            Flow::Watching { watch, stage } => match stage {
                Stage::Subscribing => on_subscribed(watch, raw),
                Stage::Checking => on_checked(watch, raw),
                _ => fail(SessionError::OutOfStep),
            },
            _ => fail(SessionError::OutOfStep),
        }
    }

    fn on_acknowledgement(self) -> (r: (Flow, Action))
        ensures
            (r.0@, r.1@) == after_acknowledgement(self@),
    {
        match self {
            Flow::Offering { label, params, contract } => {
                let action = bind(label, &params, contract);
                (Flow::OfferBinding { params, contract }, action)
            },
            Flow::JoinPutting { label, params, contract } => {
                let action = bind(label, &params, contract);
                (Flow::JoinBinding { contract }, action)
            },
            Flow::MigratePutting { label, from, to, records } => (
                Flow::MigrateBinding { from, to, records },
                Action::Ask(Request::Rebind { label, contract: to }),
            ),
            Flow::Submitting { params, contract } => (
                Flow::Rereading { params },
                Action::Get { contract, subscribe: false },
            ),
            Flow::Watching { watch, stage } => on_shown(watch, stage),
            _ => fail(SessionError::OutOfStep),
        }
    }

    /// What to do next, now that something came back. `wasm` is this build of
    /// the contract.
    pub fn step(self, event: Event, wasm: &[u8]) -> (r: (Flow, Action))
        ensures
            (r.0@, r.1@) == stepped(self@, event@, wasm@),
    {
        match event {
            Event::Answer(response) => self.on_answer(response, wasm),
            Event::Got(raw) => self.on_get(&raw),
            Event::Acknowledged => self.on_acknowledgement(),
            Event::Notified(notice) => match self {
                Flow::Watching { watch, stage } => match stage {
                    Stage::Waiting => on_notified(watch, &notice),
                    _ => fail(SessionError::OutOfStep),
                },
                _ => fail(SessionError::OutOfStep),
            },
        }
    }
}

// ---------------------------------------------------------------------------
// Beginnings.
// ---------------------------------------------------------------------------

/// Asking the delegate for a fresh key.
pub open spec fn asking_for_a_key(label: Seq<char>, entropy: Seq<u8>) -> ActionView {
    ActionView::Ask(RequestView::CreateGameKey { label, caller_entropy: Some(entropy) })
}

fn ask_for_a_key(label: &str, entropy: [u8; 32]) -> (r: Action)
    ensures
        r@ == asking_for_a_key(label@, entropy@),
{
    Action::Ask(Request::CreateGameKey { label: label.to_owned(), caller_entropy: Some(entropy) })
}

/// Create a key under a label.
pub fn new_key(label: &str, entropy: [u8; 32]) -> (r: (Flow, Action))
    ensures
        r.0@ == FlowView::Keying,
        r.1@ == asking_for_a_key(label@, entropy@),
{
    (Flow::Keying, ask_for_a_key(label, entropy))
}

/// List every label the delegate has for us.
pub fn list_games() -> (r: (Flow, Action))
    ensures
        r.0@ == FlowView::Listing,
        r.1@ == ActionView::Ask(RequestView::ListGames),
{
    (Flow::Listing, Action::Ask(Request::ListGames))
}

/// Create a key under a label, and an invite with it. The caller supplies both
/// random inputs; the nonce of the game has no other author.
pub fn invite_new(label: &str, side: Side, entropy: [u8; 32], nonce: [u8; 16]) -> (r: (
    Flow,
    Action,
))
    ensures
        r.0@ == (FlowView::Inviting { side, nonce: nonce@ }),
        r.1@ == asking_for_a_key(label@, entropy@),
{
    (Flow::Inviting { side, nonce }, ask_for_a_key(label, entropy))
}

/// Accept an invite: create a key under a label, put the contract of the game,
/// bind the key to it, and offer it back.
pub fn invite_accept(label: &str, invite: &Invite, entropy: [u8; 32]) -> (r: (Flow, Action))
    ensures
        r.0@ == (FlowView::Accepting { label: label@, invite: invite@ }),
        r.1@ == asking_for_a_key(label@, entropy@),
{
    (
        Flow::Accepting { label: label.to_owned(), invite: invite.clone() },
        ask_for_a_key(label, entropy),
    )
}

/// What taking an offer begins with: a contract that this build derives too is
/// looked for.
pub open spec fn joining(label: Seq<char>, offer: OfferView, wasm: Seq<u8>) -> (
    FlowView,
    ActionView,
) {
    match session::offered_contract(offer, wasm) {
        Ok(contract) => (
            FlowView::Joining { label, params: offer.params, contract },
            ActionView::Get { contract, subscribe: false },
        ),
        Err(e) => failed(e),
    }
}

/// Take an offer: bind the key under a label to the game it names.
pub fn game_bind(label: &str, offer: &GameOffer, wasm: &[u8]) -> (r: (Flow, Action))
    ensures
        (r.0@, r.1@) == joining(label@, offer@, wasm@),
{
    match session::check_offer(offer, wasm) {
        Ok(contract) => (
            Flow::Joining { label: label.to_owned(), params: offer.params.clone(), contract },
            Action::Get { contract, subscribe: false },
        ),
        Err(e) => fail(e),
    }
}

/// Move a game to the contract that this build derives.
pub fn migrate_label(label: &str) -> (r: (Flow, Action))
    ensures
        r.0@ == (FlowView::Migrating { label: label@ }),
        r.1@ == ActionView::Ask(RequestView::ListGames),
{
    (Flow::Migrating { label: label.to_owned() }, Action::Ask(Request::ListGames))
}

/// What opening a game begins with.
pub open spec fn looking_up(label: Seq<char>, goal: GoalView) -> (FlowView, ActionView) {
    (FlowView::Opening { label, goal }, ActionView::Ask(RequestView::ListGames))
}

/// Open the game under a label, for a goal.
pub fn begin(label: &str, goal: Goal) -> (r: (Flow, Action))
    ensures
        (r.0@, r.1@) == looking_up(label@, goal@),
{
    (Flow::Opening { label: label.to_owned(), goal }, Action::Ask(Request::ListGames))
}

/// Read a game, to show it.
pub fn open_game_view(label: &str) -> (r: (Flow, Action))
    ensures
        (r.0@, r.1@) == looking_up(label@, GoalView::View),
{
    begin(label, Goal::View)
}

/// Follow a game.
pub fn watch_label(label: &str) -> (r: (Flow, Action))
    ensures
        (r.0@, r.1@) == looking_up(label@, GoalView::Watch),
{
    begin(label, Goal::Watch)
}

/// Play a move.
pub fn play_move(label: &str, uci: &str) -> (r: (Flow, Action))
    ensures
        (r.0@, r.1@) == looking_up(label@, GoalView::Play(uci@)),
{
    begin(label, Goal::Play(uci.to_owned()))
}

/// Resign a game.
pub fn resign(label: &str) -> (r: (Flow, Action))
    ensures
        (r.0@, r.1@) == looking_up(label@, GoalView::Resign),
{
    begin(label, Goal::Resign)
}

/// Offer a draw.
pub fn draw_offer(label: &str) -> (r: (Flow, Action))
    ensures
        (r.0@, r.1@) == looking_up(label@, GoalView::DrawOffer),
{
    begin(label, Goal::DrawOffer)
}

/// Accept the opponent's draw offer.
pub fn draw_accept(label: &str) -> (r: (Flow, Action))
    ensures
        (r.0@, r.1@) == looking_up(label@, GoalView::DrawAccept),
{
    begin(label, Goal::DrawAccept)
}

/// Claim a draw by threefold repetition or the fifty-move rule.
pub fn draw_claim(label: &str) -> (r: (Flow, Action))
    ensures
        (r.0@, r.1@) == looking_up(label@, GoalView::DrawClaim),
{
    begin(label, Goal::DrawClaim)
}

/// Sign a move at a given ply, whatever the client thinks of it.
pub fn sign_move_at_ply(label: &str, ply: u16, uci: &str) -> (r: (Flow, Action))
    ensures
        (r.0@, r.1@) == looking_up(label@, GoalView::SignAt { ply, uci: uci@ }),
{
    begin(label, Goal::SignAt { ply, uci: uci.to_owned() })
}

// ---------------------------------------------------------------------------
// What holds of every flow.
// ---------------------------------------------------------------------------

/// A flow that came to an outcome or an error is over, and does nothing more.
pub proof fn a_flow_ends_for_good(flow: FlowView, event: EventView, wasm: Seq<u8>)
    ensures
        stepped(flow, event, wasm).1 is Done || stepped(flow, event, wasm).1 is Fail <==> stepped(
            flow,
            event,
            wasm,
        ).0 is Finished,
        stepped(FlowView::Finished, event, wasm) == failed(SessionErrorView::OutOfStep),
{
}

/// The delegate is told of a new contract only once that contract holds the
/// game: a game is rebound in answer to the acknowledgement of a put, the put
/// before it was made under the contract the game is rebound to, and it carried
/// every record that was read. A put that fails leaves the game where it was.
pub proof fn a_game_is_rebound_after_it_is_put(flow: FlowView, event: EventView, wasm: Seq<u8>)
    ensures
        stepped(flow, event, wasm).1 matches ActionView::Ask(
            RequestView::Rebind { label, contract },
        ) ==> event is Acknowledged && flow is MigratePutting && flow->MigratePutting_label == label
            && flow->MigratePutting_to == contract,
        stepped(flow, event, wasm).0 is MigratePutting ==> {
            &&& flow is MigrateReading
            &&& event is Got
            &&& stepped(flow, event, wasm).0->MigratePutting_to == flow->MigrateReading_to
            &&& session::carried_over(flow->MigrateReading_from, event->Got_0) matches Ok(m)
                && stepped(flow, event, wasm).1 == (ActionView::Put {
                params: flow->MigrateReading_params,
                bytes: cbor::cbor_bytes(state::state_tree(m)),
            })
        },
        stepped(flow, event, wasm).0 is MigrateReading ==> stepped(
            flow,
            event,
            wasm,
        ).0->MigrateReading_to == session::contract_of(
            wasm,
            stepped(flow, event, wasm).0->MigrateReading_params,
        ),
{
}

/// A migration run again has nothing left to do.
pub proof fn a_migrated_game_stays(label: Seq<char>, game: BoundView, response: ResponseView, wasm: Seq<u8>)
    requires
        session::bound_game(response, label) == Ok::<BoundView, SessionErrorView>(game),
        game.contract == session::contract_of(wasm, game.params),
    ensures
        stepped(FlowView::Migrating { label }, EventView::Answer(response), wasm) == finished(
            OutcomeView::Migrated(MigrateView::AlreadyCurrent { contract: game.contract }),
        ),
{
}

/// A game is opened only by the build it is bound with: no other contract than
/// the one this build derives is read, written to, or followed.
pub proof fn only_the_own_contract_is_opened(
    label: Seq<char>,
    goal: GoalView,
    response: ResponseView,
    wasm: Seq<u8>,
)
    ensures
        ({
            let (next, action) = stepped(
                FlowView::Opening { label, goal },
                EventView::Answer(response),
                wasm,
            );
            next is Finished || (next matches FlowView::Reading { game, .. } && game.contract
                == session::contract_of(wasm, game.params) && action == (ActionView::Get {
                contract: game.contract,
                subscribe: false,
            }))
        }),
{
}

/// Nothing is signed that was not planned: a request to sign is made only where
/// a game was just read, and the body is the one that its state allows for what
/// the user asked.
pub proof fn only_what_was_planned_is_signed(flow: FlowView, event: EventView, wasm: Seq<u8>)
    ensures
        stepped(flow, event, wasm).1 matches ActionView::Ask(
            RequestView::Sign { game_id, body },
        ) ==> {
            &&& flow is Reading
            &&& event is Got
            &&& game_id == flow->Reading_game.game_id
            &&& session::fetched(event->Got_0) is Ok
            &&& planned(
                session::scene_of(flow->Reading_game, session::fetched(event->Got_0)->Ok_0),
                flow->Reading_goal,
            ) == Some(Ok::<BodyView, SessionErrorView>(body))
        },
{
}

/// What is shown fits together: the status is that of the state shown with it,
/// so that every id of the chain names a record that is there.
pub proof fn what_is_shown_is_coherent(flow: FlowView, event: EventView, wasm: Seq<u8>)
    ensures
        stepped(flow, event, wasm).1 matches ActionView::Report { state, status } ==> stepped(
            flow,
            event,
            wasm,
        ).0 is Watching && status == project::projected(
            state,
            stepped(flow, event, wasm).0->Watching_watch.params,
        ),
{
}

/// Following a game changes what is held of it only by merging: the game, the
/// contract and the parameters stay what they were, and the state is the one
/// before, merged with what arrived.
pub proof fn a_watch_only_merges(watch: WatchView, stage: Stage, event: EventView, wasm: Seq<u8>)
    ensures
        ({
            let next = stepped(FlowView::Watching { watch, stage }, event, wasm).0;
            next is Finished || next is Watching && next->Watching_watch.contract == watch.contract
                && next->Watching_watch.params == watch.params && next->Watching_watch.previous
                == watch.previous && next->Watching_watch.ours == watch.ours && (
            next->Watching_watch.state == watch.state || (event matches EventView::Got(Some(raw))
                && next->Watching_watch.state == session::with_state(
                watch.state,
                raw,
                watch.params,
            ).0) || (event matches EventView::Notified(Some((id, update))) && id == watch.contract
                && next->Watching_watch.state == session::with_update(
                watch.state,
                update,
                watch.params,
            ).0))
        }),
{
}

/// That the opponent stayed behind is said at most once.
pub proof fn skew_is_told_once(watch: WatchView, stage: Stage, event: EventView, wasm: Seq<u8>)
    ensures
        ({
            let (next, action) = stepped(FlowView::Watching { watch, stage }, event, wasm);
            &&& watch.skewed ==> action !is Skew
            &&& action is Skew ==> next is Watching && next->Watching_watch.skewed
            &&& watch.skewed && next is Watching ==> next->Watching_watch.skewed
        }),
{
}

/// Whatever is signed is carried through to the end: what the delegate signs is
/// sent to the contract of the game, the contract is read again, and the flow
/// ends with where the game stands there.
pub proof fn what_is_signed_is_sent(
    params: ParamsView,
    contract: Seq<u8>,
    record: RecordView,
    m: Map<Seq<u8>, RecordView>,
    raw: Option<Seq<u8>>,
    wasm: Seq<u8>,
)
    requires
        session::fetched(raw) == Ok::<Map<Seq<u8>, RecordView>, SessionErrorView>(m),
    ensures
        ({
            let (sent, update) = stepped(
                FlowView::Signing { params, contract },
                EventView::Answer(ResponseView::Signed { record }),
                wasm,
            );
            let (reading, get) = stepped(sent, EventView::Acknowledged, wasm);
            let (end, done) = stepped(reading, EventView::Got(raw), wasm);
            &&& update == (ActionView::Update {
                params,
                delta: cbor::cbor_bytes(state::list_tree(seq![record])),
            })
            &&& get == (ActionView::Get { contract, subscribe: false })
            &&& end is Finished
            &&& done == ActionView::Done(OutcomeView::Moved(project::projected(m, params)))
        }),
{
}

/// A game that is opened to be seen or followed is never signed in; opened for
/// anything else, it is signed in or the flow ends with the reason why not.
pub proof fn a_goal_decides_what_is_done(
    game: session::BoundView,
    goal: GoalView,
    raw: Option<Seq<u8>>,
    wasm: Seq<u8>,
)
    ensures
        ({
            let (next, action) = stepped(
                FlowView::Reading { game, goal },
                EventView::Got(raw),
                wasm,
            );
            match session::fetched(raw) {
                Err(e) => action == ActionView::Fail(e),
                Ok(m) => {
                    &&& goal is View ==> action == ActionView::Done(
                        OutcomeView::Opened(session::scene_of(game, m)),
                    )
                    &&& goal is Watch ==> action == (ActionView::Report {
                        state: m,
                        status: project::projected(m, game.params),
                    }) && next is Watching && next->Watching_watch.contract == game.contract
                        && next->Watching_watch.previous == game.previous
                        && next->Watching_watch.ours == game.public_key
                        && !next->Watching_watch.skewed
                    &&& goal !is View && goal !is Watch ==> {
                        ||| action is Fail
                        ||| {
                            &&& action matches ActionView::Ask(RequestView::Sign { game_id, .. })
                                && game_id == game.game_id
                            &&& next == (FlowView::Signing {
                                params: game.params,
                                contract: game.contract,
                            })
                        }
                    }
                    &&& goal is Resign ==> (action is Fail <==> project::projected(
                        m,
                        game.params,
                    ).decision is Some)
                },
            }
        }),
{
}

/// The two players meet: the offer that ends an accepted invite is one that the
/// inviter takes, on the contract that was put and bound, with the key of each on
/// the side that the invite gives them.
pub proof fn an_accepted_invite_can_be_taken(
    label: Seq<char>,
    other: Seq<char>,
    invite: InviteView,
    key: Seq<u8>,
    entropy: EntropyQuality,
    game: Seq<u8>,
    raw: Option<Seq<u8>>,
    wasm: Seq<u8>,
)
    ensures
        ({
            let given = ResponseView::GameKey { label, public_key: key, entropy };
            let bound = ResponseView::Bound { game_id: game };
            let (offering, put) = stepped(
                FlowView::Accepting { label, invite },
                EventView::Answer(given),
                wasm,
            );
            let (binding, ask) = stepped(offering, EventView::Acknowledged, wasm);
            let (end, done) = stepped(binding, EventView::Answer(bound), wasm);
            &&& put matches ActionView::Put { params, bytes } && bytes.len() == 0 && {
                &&& ask matches ActionView::Ask(
                    RequestView::BindGame { label: l, params: p, contract },
                ) && l == label && p == params && contract == session::contract_of(wasm, params)
                &&& done matches ActionView::Done(OutcomeView::Offered(offer)) && offer.params
                    == params && offer.v == invite::OFFER_FORMAT && {
                    let (joining, get) = joining(other, offer, wasm);
                    &&& joining == (FlowView::Joining {
                        label: other,
                        params,
                        contract: offer.contract,
                    })
                    &&& get == (ActionView::Get { contract: offer.contract, subscribe: false })
                    &&& offer.contract == session::contract_of(wasm, params)
                }
                &&& invite.side is White ==> params.white == invite.public_key && params.black
                    == key
                &&& invite.side is Black ==> params.black == invite.public_key && params.white
                    == key
                &&& params.nonce == invite.nonce
            }
            &&& end is Finished
        }),
{
}

/// The key that an invite is made with goes into it, with the side and the nonce
/// that were asked for.
pub proof fn an_invite_holds_what_was_asked(
    side: Side,
    nonce: Seq<u8>,
    label: Seq<char>,
    key: Seq<u8>,
    entropy: EntropyQuality,
    wasm: Seq<u8>,
)
    ensures
        stepped(
            FlowView::Inviting { side, nonce },
            EventView::Answer(ResponseView::GameKey { label, public_key: key, entropy }),
            wasm,
        ).1 matches ActionView::Done(OutcomeView::Invited(i)) && i.side == side && i.nonce == nonce
            && i.public_key == key && i.v == invite::INVITE_FORMAT,
{
}

/// Taking an offer binds the game to the contract it names, and puts that
/// contract first exactly where nobody has it.
pub proof fn an_offer_is_taken(
    label: Seq<char>,
    params: ParamsView,
    contract: Seq<u8>,
    raw: Option<Seq<u8>>,
    game: Seq<u8>,
    wasm: Seq<u8>,
)
    ensures
        ({
            let bind = RequestView::BindGame { label, params, contract };
            let (next, action) = stepped(
                FlowView::Joining { label, params, contract },
                EventView::Got(raw),
                wasm,
            );
            let (binding, ask) = if raw is None {
                stepped(next, EventView::Acknowledged, wasm)
            } else {
                (next, action)
            };
            let (end, done) = stepped(
                binding,
                EventView::Answer(ResponseView::Bound { game_id: game }),
                wasm,
            );
            &&& raw is None <==> action is Put
            &&& action matches ActionView::Put { params: p, bytes } ==> p == params && bytes.len()
                == 0
            &&& ask == ActionView::Ask(bind)
            &&& end is Finished
            &&& done == ActionView::Done(OutcomeView::Bound(contract))
        }),
{
}

/// A migration carries every record: from what the old contract holds, the new
/// one is put, the game is rebound to it, and the count that is reported is that
/// of the records carried. A contract that is gone is not migrated from.
pub proof fn a_migration_carries_everything(
    label: Seq<char>,
    params: ParamsView,
    from: Seq<u8>,
    to: Seq<u8>,
    m: Map<Seq<u8>, RecordView>,
    raw: Option<Seq<u8>>,
    game: Seq<u8>,
    wasm: Seq<u8>,
)
    requires
        raw matches Some(b) && b.len() > 0 && state::decoded_state(b) == Some(m),
    ensures
        ({
            let reading = FlowView::MigrateReading { label, params, from, to };
            let (putting, put) = stepped(reading, EventView::Got(raw), wasm);
            let (binding, ask) = stepped(putting, EventView::Acknowledged, wasm);
            let (end, done) = stepped(
                binding,
                EventView::Answer(ResponseView::Bound { game_id: game }),
                wasm,
            );
            &&& put == (ActionView::Put { params, bytes: cbor::cbor_bytes(state::state_tree(m)) })
            &&& ask == ActionView::Ask(RequestView::Rebind { label, contract: to })
            &&& done == ActionView::Done(
                OutcomeView::Migrated(MigrateView::Migrated { from, to, records: m.len() }),
            )
            &&& end is Finished
            &&& stepped(reading, EventView::Got(None), wasm) == failed(
                SessionErrorView::OldContractGone(from),
            )
        }),
{
}

/// A game is followed until it is over and no longer: whatever is shown of it,
/// following ends after it exactly if the status shown is decided.
pub proof fn a_watch_ends_with_the_game(
    flow: FlowView,
    event: EventView,
    wasm: Seq<u8>,
)
    ensures
        ({
            let (next, action) = stepped(flow, event, wasm);
            let (after, then_do) = stepped(next, EventView::Acknowledged, wasm);
            action matches ActionView::Report { status, .. } ==> (status.decision is Some
                <==> then_do == ActionView::Done(OutcomeView::Watched)) && then_do !is Fail
        }),
{
}

/// News of something else changes nothing: a notification about a contract that
/// is neither the one followed nor the one before it leaves the watch as it is,
/// waiting for the next. No more notifications end it.
pub proof fn other_news_are_passed_over(
    watch: WatchView,
    id: Seq<u8>,
    update: UpdateView,
    wasm: Seq<u8>,
)
    requires
        id != watch.contract,
    ensures
        ({
            let waiting = FlowView::Watching { watch, stage: Stage::Waiting };
            let (next, action) = stepped(waiting, EventView::Notified(Some((id, update))), wasm);
            &&& watch.previous != Some(id) || watch.skewed ==> next == waiting && action
                == ActionView::Next
            &&& watch.previous == Some(id) && !watch.skewed ==> action == (ActionView::Get {
                contract: id,
                subscribe: false,
            }) && next->Watching_watch == watch
            &&& stepped(waiting, EventView::Notified(None), wasm) == finished(OutcomeView::Watched)
        }),
{
}

/// That the opponent stayed behind is said exactly where the contract the game
/// was migrated from holds a record of theirs that this one lacks, and it was not
/// said before.
pub proof fn skew_is_told_where_there_is_any(
    watch: WatchView,
    old: Map<Seq<u8>, RecordView>,
    raw: Seq<u8>,
    wasm: Seq<u8>,
)
    requires
        session::state_payload(raw) == Ok::<_, SessionErrorView>(Some(old)),
    ensures
        ({
            let (next, action) = stepped(
                FlowView::Watching { watch, stage: Stage::Checking },
                EventView::Got(Some(raw)),
                wasm,
            );
            let theirs = exists|k: Seq<u8>| #[trigger]
                old.contains_key(k) && !watch.state.contains_key(k) && old[k].signer != watch.ours;
            &&& action is Skew <==> theirs && !watch.skewed
            &&& action !is Skew ==> action is Next
            &&& stepped(next, EventView::Acknowledged, wasm).1 is Next || action is Next
        }),
{
}

/// A game that is bound to the contract this build derives is opened, for
/// whatever goal; one that is bound to another is read from there to be migrated.
pub proof fn a_bound_game_is_opened_or_migrated(
    label: Seq<char>,
    goal: GoalView,
    game: BoundView,
    response: ResponseView,
    wasm: Seq<u8>,
)
    requires
        session::bound_game(response, label) == Ok::<BoundView, SessionErrorView>(game),
    ensures
        ({
            let (opened, open) = stepped(
                FlowView::Opening { label, goal },
                EventView::Answer(response),
                wasm,
            );
            let (moved, read) = stepped(
                FlowView::Migrating { label },
                EventView::Answer(response),
                wasm,
            );
            let own = session::contract_of(wasm, game.params);
            &&& game.contract == own ==> opened == (FlowView::Reading { game, goal }) && open == (
            ActionView::Get { contract: own, subscribe: false })
            &&& game.contract != own ==> open is Fail && moved == (FlowView::MigrateReading {
                label,
                params: game.params,
                from: game.contract,
                to: own,
            }) && read == (ActionView::Get { contract: game.contract, subscribe: false })
        }),
{
}

/// What the delegate answers to a request for a key or for the list of games is
/// reported as it is, and a refusal of any request ends the flow with it.
pub proof fn an_answer_is_reported(
    flow: FlowView,
    label: Seq<char>,
    key: Seq<u8>,
    entropy: EntropyQuality,
    games: Seq<GameSummaryView>,
    x: delegate_api::RefusalView,
    wasm: Seq<u8>,
)
    ensures
        stepped(
            FlowView::Keying,
            EventView::Answer(ResponseView::GameKey { label, public_key: key, entropy }),
            wasm,
        ) == finished(OutcomeView::Keyed { public_key: key, entropy }),
        stepped(FlowView::Listing, EventView::Answer(ResponseView::Games(games)), wasm) == finished(
            OutcomeView::Listed(games),
        ),
        flow is Keying || flow is Listing || flow is Inviting || flow is Accepting || flow
            is OfferBinding || flow is JoinBinding || flow is Migrating || flow is MigrateBinding
            || flow is Opening || flow is Signing ==> stepped(
            flow,
            EventView::Answer(ResponseView::Refused(x)),
            wasm,
        ) == failed(SessionErrorView::Refused(x)),
{
}

/// News of the game that is followed are shown: a notification about its contract
/// that carries records and can be read is, and what a subscription brings is
/// exactly if the game has grown by it. One that carries none is passed over, and
/// one that cannot be read ends the watch with the reason.
pub proof fn news_are_shown(
    watch: WatchView,
    update: UpdateView,
    fresh: Map<Seq<u8>, RecordView>,
    raw: Seq<u8>,
    wasm: Seq<u8>,
)
    requires
        session::state_payload(raw) == Ok::<_, SessionErrorView>(Some(fresh)),
    ensures
        ({
            let (next, action) = stepped(
                FlowView::Watching { watch, stage: Stage::Waiting },
                EventView::Notified(Some((watch.contract, update))),
                wasm,
            );
            let (m, e) = session::with_update(watch.state, update, watch.params);
            &&& e matches Some(why) ==> action == ActionView::Fail(why)
            &&& e is None && (update is State || update is Delta || update is StateAndDelta)
                ==> action == (ActionView::Report {
                state: m,
                status: project::projected(m, watch.params),
            })
            &&& update is Related || update is Unknown ==> action is Next && next == (
            FlowView::Watching { watch, stage: Stage::Waiting })
        }),
        ({
            let (next, action) = stepped(
                FlowView::Watching { watch, stage: Stage::Subscribing },
                EventView::Got(Some(raw)),
                wasm,
            );
            let m = state::merge_of(watch.state, fresh, watch.params);
            &&& action is Report <==> m.len() != watch.state.len()
            &&& action matches ActionView::Report { state, .. } ==> state == m
            &&& action !is Report ==> action == match watch.previous {
                Some(p) => ActionView::Get { contract: p, subscribe: true },
                None => ActionView::Next,
            }
        }),
{
}

/// Each goal signs its own kind of statement: a move with the text that was
/// given, at the ply that was given where one was, a resignation, or an offer, an
/// acceptance or a claim of a draw. To see or to follow a game signs nothing.
pub proof fn a_goal_signs_its_own_kind(scene: Scene, goal: GoalView)
    ensures
        planned(scene, goal) is None <==> goal is View || goal is Watch,
        planned(scene, goal) matches Some(Ok(body)) ==> {
            &&& goal is Play || goal is SignAt <==> body is Move
            &&& goal matches GoalView::Play(uci) ==> body->Move_uci == uci
            &&& goal matches GoalView::SignAt { ply, uci } ==> body->Move_uci == uci
                && body->Move_ply == ply
            &&& goal is Resign <==> body is Resign
            &&& goal is DrawOffer <==> body is DrawOffer
            &&& goal is DrawAccept <==> body is DrawAccept
            &&& goal is DrawClaim <==> body is DrawClaim
        },
{
}

/// What a subscription brings that cannot be read ends the watch with the reason,
/// and what brings nothing does not; the contract a game was migrated from is only
/// looked at, and ends nothing, whatever is found there.
pub proof fn only_the_own_contract_can_fail_a_watch(
    watch: WatchView,
    raw: Option<Seq<u8>>,
    wasm: Seq<u8>,
)
    ensures
        ({
            let (next, action) = stepped(
                FlowView::Watching { watch, stage: Stage::Subscribing },
                EventView::Got(raw),
                wasm,
            );
            &&& action matches ActionView::Fail(e) ==> (raw matches Some(b)
                && session::state_payload(b) == Err::<
                Option<Map<Seq<u8>, RecordView>>,
                SessionErrorView,
            >(e))
            &&& (raw matches Some(b) && session::state_payload(b) is Err) ==> action is Fail
            &&& raw is None || raw->0.len() == 0 ==> next is Watching && next->Watching_watch
                == watch && action !is Report
        }),
        ({
            let (next, action) = stepped(
                FlowView::Watching { watch, stage: Stage::Checking },
                EventView::Got(raw),
                wasm,
            );
            &&& next is Watching
            &&& action is Next || action is Skew
            &&& raw is None || session::state_payload(raw->0) is Err || raw->0.len() == 0 ==> action
                is Next && next->Watching_watch == watch
        }),
{
}

/// While the game goes on, so does the watch: after the game was shown as it was
/// found it is subscribed to, after it was caught up with the contract before it
/// is looked at, where there is one, and after everything else a notification is
/// waited for. What is held stays the same all along.
pub proof fn a_watch_goes_on_with_the_game(watch: WatchView, wasm: Seq<u8>)
    ensures
        ({
            let opened = FlowView::Watching { watch, stage: Stage::Opened { over: false } };
            let caught_up = FlowView::Watching { watch, stage: Stage::CaughtUp { over: false } };
            let told = FlowView::Watching { watch, stage: Stage::Told { over: false } };
            let warned = FlowView::Watching { watch, stage: Stage::Warned };
            let (a, subscribe) = stepped(opened, EventView::Acknowledged, wasm);
            let (b, look) = stepped(caught_up, EventView::Acknowledged, wasm);
            let (c, wait) = stepped(told, EventView::Acknowledged, wasm);
            let (d, wait_too) = stepped(warned, EventView::Acknowledged, wasm);
            &&& subscribe == (ActionView::Get { contract: watch.contract, subscribe: true })
            &&& watch.previous matches Some(p) ==> look == (ActionView::Get {
                contract: p,
                subscribe: true,
            })
            &&& watch.previous is None ==> look is Next
            &&& wait is Next && wait_too is Next
            &&& a->Watching_watch == watch && b->Watching_watch == watch && c->Watching_watch
                == watch && d->Watching_watch == watch
            &&& a is Watching && b is Watching && c is Watching && d is Watching
        }),
{
}

} // verus!
