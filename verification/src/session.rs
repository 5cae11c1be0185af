//! What a client decides: which key, game and contract a label stands for,
//! which body to sign next, and what an update does to the game it follows.
//!
//! Nothing here talks to a node. The questions a client asks and the order it
//! asks them in stand in [`crate::flow`].

use vstd::prelude::*;
use crate::algebra;
use crate::bytemap;
use crate::bytes::{same_bytes, same_text};
use crate::cbor;
use crate::chain;
use crate::contract;
use crate::contract::{UpdateData, UpdateView};
use crate::delegate::listed;
use crate::delegate_api;
use crate::delegate_api::{
    GameId,
    GameSummary,
    GameSummaryView,
    Refusal,
    RefusalView,
    Response,
    ResponseView,
    Side,
};
use crate::invite;
use crate::invite::{to_base58, GameOffer, Invite, InviteView, OfferView};
use crate::project;
use crate::project::{legal_moves, Status, StatusView};
use crate::state;
use crate::state::{decode_delta, encode_delta, Delta, GameState};
use crate::text;
use crate::text::{decimal_text, join2, join3, join5, quote};
use crate::types::{Body, BodyView, Color, GameParams, KeyBytes, ParamsView, RecordId, RecordView};

verus! {

// ---------------------------------------------------------------------------
// Contract ids.
// ---------------------------------------------------------------------------

/// What `freenet_stdlib::prelude::ContractInstanceId::from_params_and_code`
/// derives from the code and the parameter bytes of a contract.
pub uninterp spec fn instance_id(code: Seq<u8>, params: Seq<u8>) -> Seq<u8>;

/// `ContractInstanceId::from_params_and_code` of freenet-stdlib, on the code
/// and the parameters as raw bytes: the id named [`instance_id`].
#[verifier::external_body]
fn derive_instance_id(code: &[u8], params: &[u8]) -> (r: [u8; 32])
    ensures
        r@ == instance_id(code@, params@),
{
    let parameters = freenet_stdlib::prelude::Parameters::from(params.to_vec());
    let code = freenet_stdlib::prelude::ContractCode::from(code.to_vec());
    *freenet_stdlib::prelude::ContractInstanceId::from_params_and_code(&parameters, &code)
}

/// The contract that a build of the contract code gives to a game.
pub open spec fn contract_of(wasm: Seq<u8>, params: ParamsView) -> Seq<u8> {
    instance_id(wasm, cbor::cbor_bytes(params.tree()))
}

/// The contract that a build of the contract code gives to a game.
pub fn contract_id(wasm: &[u8], params: &GameParams) -> (r: [u8; 32])
    ensures
        r@ == contract_of(wasm@, params@),
{
    let raw = params.encode();
    derive_instance_id(wasm, raw.as_slice())
}

// ---------------------------------------------------------------------------
// Errors.
// ---------------------------------------------------------------------------

/// What the delegate was asked for.
#[derive(Clone, Copy, Debug, PartialEq, Eq, Structural)]
pub enum Asked {
    CreateGameKey,
    BindGame,
    Rebind,
    Sign,
    ListGames,
}

impl Asked {
    /// The name of the request.
    pub open spec fn text(self) -> Seq<char> {
        match self {
            Asked::CreateGameKey => "CreateGameKey"@,
            Asked::BindGame => "BindGame"@,
            Asked::Rebind => "Rebind"@,
            Asked::Sign => "Sign"@,
            Asked::ListGames => "ListGames"@,
        }
    }

    /// The name of the request.
    pub fn name(self) -> (r: &'static str)
        ensures
            r@ == self.text(),
    {
        match self {
            Asked::CreateGameKey => "CreateGameKey",
            Asked::BindGame => "BindGame",
            Asked::Rebind => "Rebind",
            Asked::Sign => "Sign",
            Asked::ListGames => "ListGames",
        }
    }
}

/// The value of a [`SessionError`].
#[verifier::ext_equal]
pub enum SessionErrorView {
    Refused(RefusalView),
    Unexpected { to: Asked, response: ResponseView },
    NoKey(Seq<char>),
    NotBound(Seq<char>),
    OfferMismatch { derived: Seq<u8>, offered: Seq<u8> },
    BoundMismatch { label: Seq<char>, derived: Seq<u8>, recorded: Seq<u8> },
    OldContractGone(Seq<u8>),
    OldStateUnreadable,
    StateUnreadable,
    BadStatePayload,
    BadDeltaPayload(Seq<char>),
    GameOver,
    NotYourTurn,
    NotLegal(Seq<char>),
    NoLiveOffer,
    NotYoursToClaim,
    NothingToClaim { repetitions: nat, halfmoves: int },
    NoParent { ply: u16 },
    NoPlyLeft,
    OutOfStep,
}

/// Why a client gives up.
#[derive(Debug, PartialEq, Eq)]
pub enum SessionError {
    /// The delegate refused.
    Refused(Refusal),
    /// The delegate answered something that was not asked for.
    Unexpected { to: Asked, response: Response },
    /// The delegate holds no key under the label.
    NoKey(String),
    /// The key under the label is not bound to a game.
    NotBound(String),
    /// This build derives another contract than the one offered.
    OfferMismatch { derived: [u8; 32], offered: [u8; 32] },
    /// This build derives another contract than the one recorded.
    BoundMismatch { label: String, derived: [u8; 32], recorded: [u8; 32] },
    /// The contract to migrate from is gone.
    OldContractGone([u8; 32]),
    /// The state to migrate cannot be read.
    OldStateUnreadable,
    /// The state of the contract cannot be read.
    StateUnreadable,
    /// The state in a notification cannot be read.
    BadStatePayload,
    /// The delta in a notification cannot be read, and why.
    BadDeltaPayload(String),
    GameOver,
    NotYourTurn,
    /// The move is not legal in the current position.
    NotLegal(String),
    NoLiveOffer,
    NotYoursToClaim,
    NothingToClaim { repetitions: u32, halfmoves: u32 },
    /// The chain does not reach the ply before this one.
    NoParent { ply: u16 },
    /// The chain is as long as plies can count.
    NoPlyLeft,
    /// An answer arrived that nothing was waiting for.
    OutOfStep,
}

impl View for SessionError {
    type V = SessionErrorView;

    open spec fn view(&self) -> SessionErrorView {
        match self {
            SessionError::Refused(x) => SessionErrorView::Refused(x@),
            SessionError::Unexpected { to, response } => SessionErrorView::Unexpected {
                to: *to,
                response: response@,
            },
            SessionError::NoKey(label) => SessionErrorView::NoKey(label@),
            SessionError::NotBound(label) => SessionErrorView::NotBound(label@),
            SessionError::OfferMismatch { derived, offered } => SessionErrorView::OfferMismatch {
                derived: derived@,
                offered: offered@,
            },
            SessionError::BoundMismatch { label, derived, recorded } =>
                SessionErrorView::BoundMismatch {
                label: label@,
                derived: derived@,
                recorded: recorded@,
            },
            SessionError::OldContractGone(id) => SessionErrorView::OldContractGone(id@),
            SessionError::OldStateUnreadable => SessionErrorView::OldStateUnreadable,
            SessionError::StateUnreadable => SessionErrorView::StateUnreadable,
            SessionError::BadStatePayload => SessionErrorView::BadStatePayload,
            SessionError::BadDeltaPayload(w) => SessionErrorView::BadDeltaPayload(w@),
            SessionError::GameOver => SessionErrorView::GameOver,
            SessionError::NotYourTurn => SessionErrorView::NotYourTurn,
            SessionError::NotLegal(uci) => SessionErrorView::NotLegal(uci@),
            SessionError::NoLiveOffer => SessionErrorView::NoLiveOffer,
            SessionError::NotYoursToClaim => SessionErrorView::NotYoursToClaim,
            SessionError::NothingToClaim { repetitions, halfmoves } =>
                SessionErrorView::NothingToClaim {
                repetitions: *repetitions as nat,
                halfmoves: *halfmoves as int,
            },
            SessionError::NoParent { ply } => SessionErrorView::NoParent { ply: *ply },
            SessionError::NoPlyLeft => SessionErrorView::NoPlyLeft,
            SessionError::OutOfStep => SessionErrorView::OutOfStep,
        }
    }
}

impl SessionErrorView {
    /// The error as a sentence for the user.
    pub open spec fn sentence(self) -> Seq<char> {
        match self {
            SessionErrorView::Refused(x) => "delegate refused: "@ + x.sentence(),
            SessionErrorView::Unexpected { to, .. } => "unexpected response to "@ + to.text(),
            SessionErrorView::NoKey(label) => "no key exists for label "@ + text::quoted(label),
            SessionErrorView::NotBound(label) => "label "@ + text::quoted(label)
                + " has a key but no game bound yet"@,
            SessionErrorView::OfferMismatch { derived, offered } =>
                "build mismatch: this build derives contract "@ + invite::base58(derived)
                + " from the offered params, but the offer names "@ + invite::base58(offered)
                + ". The two players are running different adjourn-contract builds and would silently sit on separate contracts."@,
            SessionErrorView::BoundMismatch { label, derived, recorded } =>
                "build mismatch: this build derives contract "@ + invite::base58(derived)
                + " from the bound params, but the delegate recorded "@ + invite::base58(recorded)
                + ". Rebuild with the same adjourn-contract version used when this game was bound, or run `adjourn game migrate --label "@
                + label + "` to move this game onto the contract this build derives."@,
            SessionErrorView::OldContractGone(id) => "the previous contract "@ + invite::base58(id)
                + " is no longer on the network, so this game cannot be migrated"@,
            SessionErrorView::OldStateUnreadable =>
                "the previous contract's state did not decode"@,
            SessionErrorView::StateUnreadable =>
                "contract state did not decode as a GameState"@,
            SessionErrorView::BadStatePayload =>
                "an update notification's State payload did not decode as a GameState"@,
            SessionErrorView::BadDeltaPayload(why) =>
                "an update notification's Delta payload did not decode: "@ + why,
            SessionErrorView::GameOver => "the game is already over"@,
            SessionErrorView::NotYourTurn => "it is not your turn"@,
            SessionErrorView::NotLegal(uci) => uci
                + " is not a legal move in the current position"@,
            SessionErrorView::NoLiveOffer =>
                "no live draw offer from your opponent to accept"@,
            SessionErrorView::NotYoursToClaim => "only the player to move may claim a draw"@,
            SessionErrorView::NothingToClaim { repetitions, halfmoves } => "no draw to claim: "@
                + text::decimal(repetitions) + " repetitions, "@ + text::decimal(halfmoves as nat)
                + " halfmoves since a capture or pawn move"@,
            SessionErrorView::NoParent { ply } => "no record at ply "@ + text::decimal(
                if ply > 0 {
                    (ply - 1) as nat
                } else {
                    0
                },
            ) + " to parent ply "@ + text::decimal(ply as nat) + " on"@,
            SessionErrorView::NoPlyLeft => "no ply is left to move at"@,
            SessionErrorView::OutOfStep => "an answer arrived out of step"@,
        }
    }
}

impl SessionError {
    /// The error as a sentence for the user.
    pub fn message(&self) -> (r: String)
        ensures
            r@ == self@.sentence(),
    {
        match self {
            SessionError::Refused(x) => join2("delegate refused: ", x.message().as_str()),
            SessionError::Unexpected { to, .. } => join2("unexpected response to ", to.name()),
            SessionError::NoKey(label) => join2(
                "no key exists for label ",
                quote(label.as_str()).as_str(),
            ),
            SessionError::NotBound(label) => join3(
                "label ",
                quote(label.as_str()).as_str(),
                " has a key but no game bound yet",
            ),
            SessionError::OfferMismatch { derived, offered } => join5(
                "build mismatch: this build derives contract ",
                to_base58(derived.as_slice()).as_str(),
                " from the offered params, but the offer names ",
                to_base58(offered.as_slice()).as_str(),
                ". The two players are running different adjourn-contract builds and would silently sit on separate contracts.",
            ),
            SessionError::BoundMismatch { label, derived, recorded } => {
                let start = join5(
                    "build mismatch: this build derives contract ",
                    to_base58(derived.as_slice()).as_str(),
                    " from the bound params, but the delegate recorded ",
                    to_base58(recorded.as_slice()).as_str(),
                    ". Rebuild with the same adjourn-contract version used when this game was bound, or run `adjourn game migrate --label ",
                );
                join3(
                    start.as_str(),
                    label.as_str(),
                    "` to move this game onto the contract this build derives.",
                )
            },
            SessionError::OldContractGone(id) => join3(
                "the previous contract ",
                to_base58(id.as_slice()).as_str(),
                " is no longer on the network, so this game cannot be migrated",
            ),
            SessionError::OldStateUnreadable => "the previous contract's state did not decode".to_owned(),
            SessionError::StateUnreadable => "contract state did not decode as a GameState".to_owned(),
            SessionError::BadStatePayload => "an update notification's State payload did not decode as a GameState".to_owned(),
            SessionError::BadDeltaPayload(why) => join2(
                "an update notification's Delta payload did not decode: ",
                why.as_str(),
            ),
            SessionError::GameOver => "the game is already over".to_owned(),
            SessionError::NotYourTurn => "it is not your turn".to_owned(),
            SessionError::NotLegal(uci) => join2(
                uci.as_str(),
                " is not a legal move in the current position",
            ),
            SessionError::NoLiveOffer => "no live draw offer from your opponent to accept".to_owned(),
            SessionError::NotYoursToClaim => "only the player to move may claim a draw".to_owned(),
            SessionError::NothingToClaim { repetitions, halfmoves } => join5(
                "no draw to claim: ",
                decimal_text(*repetitions as u64).as_str(),
                " repetitions, ",
                decimal_text(*halfmoves as u64).as_str(),
                " halfmoves since a capture or pawn move",
            ),
            SessionError::NoParent { ply } => {
                let before: u64 = if *ply > 0 {
                    (*ply - 1) as u64
                } else {
                    0
                };
                join5(
                    "no record at ply ",
                    decimal_text(before).as_str(),
                    " to parent ply ",
                    decimal_text(*ply as u64).as_str(),
                    " on",
                )
            },
            SessionError::NoPlyLeft => "no ply is left to move at".to_owned(),
            SessionError::OutOfStep => "an answer arrived out of step".to_owned(),
        }
    }
}

// ---------------------------------------------------------------------------
// Answers of the delegate.
// ---------------------------------------------------------------------------

/// The error in an answer that is not what was asked for.
pub open spec fn refusal_in(to: Asked, response: ResponseView) -> SessionErrorView {
    match response {
        ResponseView::Refused(x) => SessionErrorView::Refused(x),
        _ => SessionErrorView::Unexpected { to, response },
    }
}

/// The error in an answer that is not what was asked for.
pub fn refused(to: Asked, response: Response) -> (r: SessionError)
    ensures
        r@ == refusal_in(to, response@),
{
    match response {
        Response::Refused(x) => SessionError::Refused(x),
        _ => SessionError::Unexpected { to, response },
    }
}

/// The key in the answer to a request for one.
pub open spec fn key_in(response: ResponseView) -> Result<Seq<u8>, SessionErrorView> {
    match response {
        ResponseView::GameKey { public_key, .. } => Ok(public_key),
        _ => Err(refusal_in(Asked::CreateGameKey, response)),
    }
}

/// The key in the answer to a request for one.
pub fn key_given(response: Response) -> (r: Result<KeyBytes, SessionError>)
    ensures
        match r {
            Ok(k) => key_in(response@) == Ok::<Seq<u8>, SessionErrorView>(k@),
            Err(e) => key_in(response@) == Err::<Seq<u8>, SessionErrorView>(e@),
        },
{
    match response {
        Response::GameKey { public_key, .. } => Ok(public_key),
        _ => Err(refused(Asked::CreateGameKey, response)),
    }
}

/// What is wrong with the answer to a request to bind a game; nothing where it
/// was bound.
pub open spec fn not_bound(to: Asked, response: ResponseView) -> Option<SessionErrorView> {
    match response {
        ResponseView::Bound { .. } => None,
        _ => Some(refusal_in(to, response)),
    }
}

/// Whether a game was bound, going by the answer.
pub fn check_bound(to: Asked, response: Response) -> (r: Result<(), SessionError>)
    ensures
        match r {
            Ok(_) => not_bound(to, response@) is None,
            Err(e) => not_bound(to, response@) == Some(e@),
        },
{
    match response {
        Response::Bound { .. } => Ok(()),
        _ => Err(refused(to, response)),
    }
}

/// The delta to submit: the one record that the delegate signed.
pub open spec fn delta_in(response: ResponseView) -> Result<Seq<u8>, SessionErrorView> {
    match response {
        ResponseView::Signed { record } => Ok(
            cbor::cbor_bytes(state::list_tree(seq![record])),
        ),
        _ => Err(refusal_in(Asked::Sign, response)),
    }
}

/// The delta to submit: the one record that the delegate signed.
pub fn signed_delta(response: Response) -> (r: Result<Vec<u8>, SessionError>)
    ensures
        match r {
            Ok(d) => delta_in(response@) == Ok::<Seq<u8>, SessionErrorView>(d@),
            Err(e) => delta_in(response@) == Err::<Seq<u8>, SessionErrorView>(e@),
        },
{
    match response {
        Response::Signed { record } => {
            let ghost signed = record@;
            let mut delta: Delta = Vec::new();
            delta.push(record);
            assert(state::views(delta@) =~= seq![signed]);
            Ok(encode_delta(&delta))
        },
        _ => Err(refused(Asked::Sign, response)),
    }
}

// ---------------------------------------------------------------------------
// Setting up a game.
// ---------------------------------------------------------------------------

/// The parameters that an invite and the key of the player who accepts it pin
/// down. The inviter has the side the invite names, the accepter the other.
pub open spec fn agreed_params(invite: InviteView, key: Seq<u8>) -> ParamsView {
    match invite.side {
        Side::White => ParamsView { white: invite.public_key, black: key, nonce: invite.nonce },
        Side::Black => ParamsView { white: key, black: invite.public_key, nonce: invite.nonce },
    }
}

/// The parameters of the game that `key` accepts.
pub fn accepted_params(invite: &Invite, key: KeyBytes) -> (r: GameParams)
    ensures
        r@ == agreed_params(invite@, key@),
{
    match invite.side {
        Side::White => GameParams { white: invite.public_key, black: key, nonce: invite.nonce },
        Side::Black => GameParams { white: key, black: invite.public_key, nonce: invite.nonce },
    }
}

/// The contract of an offered game, where this build derives the offered one.
pub open spec fn offered_contract(offer: OfferView, wasm: Seq<u8>) -> Result<
    Seq<u8>,
    SessionErrorView,
> {
    let derived = contract_of(wasm, offer.params);
    if derived == offer.contract {
        Ok(derived)
    } else {
        Err(SessionErrorView::OfferMismatch { derived, offered: offer.contract })
    }
}

/// The contract of an offered game. An offer made by another build of the
/// contract is refused: the two players would never meet.
pub fn check_offer(offer: &GameOffer, wasm: &[u8]) -> (r: Result<[u8; 32], SessionError>)
    ensures
        match r {
            Ok(id) => offered_contract(offer@, wasm@) == Ok::<Seq<u8>, SessionErrorView>(id@),
            Err(e) => offered_contract(offer@, wasm@) == Err::<Seq<u8>, SessionErrorView>(e@),
        },
{
    let derived = contract_id(wasm, &offer.params);
    if same_bytes(derived.as_slice(), offer.contract.as_slice()) {
        Ok(derived)
    } else {
        Err(SessionError::OfferMismatch { derived, offered: offer.contract })
    }
}

/// The two players of an invite and an offer meet: from one build of the
/// contract, the offer that the accepter makes is one that the inviter takes,
/// on the same contract. Each of them plays the side the invite gives them.
pub proof fn the_players_meet(invite: InviteView, key: Seq<u8>, wasm: Seq<u8>)
    ensures
        ({
            let params = agreed_params(invite, key);
            let contract = contract_of(wasm, params);
            let offer = OfferView { v: invite::OFFER_FORMAT, params, contract };
            &&& offered_contract(offer, wasm) == Ok::<Seq<u8>, SessionErrorView>(contract)
            &&& params.nonce == invite.nonce
            &&& invite.side is White ==> params.key_of(Color::White) == invite.public_key
                && params.key_of(Color::Black) == key
            &&& invite.side is Black ==> params.key_of(Color::Black) == invite.public_key
                && params.key_of(Color::White) == key
        }),
{
}

/// Two builds that derive different contracts from the same parameters never
/// go unnoticed: the offer is refused, and both ids are named.
pub proof fn a_build_mismatch_is_loud(params: ParamsView, theirs: Seq<u8>, ours: Seq<u8>)
    requires
        contract_of(theirs, params) != contract_of(ours, params),
    ensures
        ({
            let offer = OfferView {
                v: invite::OFFER_FORMAT,
                params,
                contract: contract_of(theirs, params),
            };
            offered_contract(offer, ours) == Err::<Seq<u8>, SessionErrorView>(
                SessionErrorView::OfferMismatch {
                    derived: contract_of(ours, params),
                    offered: contract_of(theirs, params),
                },
            )
        }),
{
}

// ---------------------------------------------------------------------------
// The game a label stands for.
// ---------------------------------------------------------------------------

/// The value of a [`BoundGame`].
#[verifier::ext_equal]
pub struct BoundView {
    pub label: Seq<char>,
    pub public_key: Seq<u8>,
    pub side: Side,
    pub params: ParamsView,
    pub game_id: Seq<u8>,
    pub contract: Seq<u8>,
    pub previous: Option<Seq<u8>>,
}

/// A key with the game it is bound to.
#[derive(Debug, PartialEq, Eq)]
pub struct BoundGame {
    pub label: String,
    pub public_key: KeyBytes,
    pub side: Side,
    pub params: GameParams,
    pub game_id: GameId,
    pub contract: [u8; 32],
    /// The contract the game was bound to before it was migrated.
    pub previous: Option<[u8; 32]>,
}

impl View for BoundGame {
    type V = BoundView;

    open spec fn view(&self) -> BoundView {
        BoundView {
            label: self.label@,
            public_key: self.public_key@,
            side: self.side,
            params: self.params@,
            game_id: self.game_id@,
            contract: self.contract@,
            previous: cbor::option_view(self.previous),
        }
    }
}

/// The first of the games that has the label.
pub open spec fn first_labelled(games: Seq<GameSummaryView>, label: Seq<char>) -> Option<
    GameSummaryView,
>
    decreases games.len(),
{
    if games.len() == 0 {
        None
    } else if games[0].label == label {
        Some(games[0])
    } else {
        first_labelled(games.drop_first(), label)
    }
}

/// The game in a summary, where it is bound.
pub open spec fn bound_in(s: GameSummaryView) -> Option<BoundView> {
    match (s.game_id, s.side, s.params, s.contract) {
        (Some(game_id), Some(side), Some(params), Some(contract)) => Some(
            BoundView {
                label: s.label,
                public_key: s.public_key,
                side,
                params,
                game_id,
                contract,
                previous: s.previous,
            },
        ),
        _ => None,
    }
}

/// The game that a label stands for, going by the list of games.
pub open spec fn bound_game(response: ResponseView, label: Seq<char>) -> Result<
    BoundView,
    SessionErrorView,
> {
    match response {
        ResponseView::Games(games) => match first_labelled(games, label) {
            None => Err(SessionErrorView::NoKey(label)),
            Some(s) => match bound_in(s) {
                None => Err(SessionErrorView::NotBound(label)),
                Some(g) => Ok(g),
            },
        },
        _ => Err(refusal_in(Asked::ListGames, response)),
    }
}

/// The place of the first game that has the label.
fn find_label(games: &Vec<GameSummary>, label: &str) -> (r: Option<usize>)
    ensures
        match r {
            Some(i) => i < games.len() && first_labelled(
                delegate_api::summary_views(games@),
                label@,
            ) == Some(games@[i as int]@) && games@[i as int].label@ == label@,
            None => first_labelled(delegate_api::summary_views(games@), label@) is None,
        },
{
    let ghost all = delegate_api::summary_views(games@);
    let mut i: usize = 0;
    assert(all.skip(0) =~= all);
    while i < games.len()
        invariant
            i <= games.len(),
            all == delegate_api::summary_views(games@),
            first_labelled(all, label@) == first_labelled(all.skip(i as int), label@),
        decreases games.len() - i,
    {
        assert(all.skip(i as int)[0] == games@[i as int]@);
        assert(all.skip(i as int).drop_first() =~= all.skip(i + 1));
        if same_text(games[i].label.as_str(), label) {
            return Some(i);
        }
        i += 1;
    }
    None
}

/// The game that a label stands for, going by the list of games.
pub fn select_game(response: Response, label: &str) -> (r: Result<BoundGame, SessionError>)
    ensures
        match r {
            Ok(g) => bound_game(response@, label@) == Ok::<BoundView, SessionErrorView>(g@)
                && g@.label == label@,
            Err(e) => bound_game(response@, label@) == Err::<BoundView, SessionErrorView>(e@),
        },
{
    match response {
        Response::Games(games) => match find_label(&games, label) {
            None => Err(SessionError::NoKey(label.to_owned())),
            Some(i) => {
                let s = &games[i];
                match (s.game_id, s.side, &s.params, s.contract) {
                    (Some(game_id), Some(side), Some(params), Some(contract)) => Ok(
                        BoundGame {
                            label: s.label.clone(),
                            public_key: s.public_key,
                            side,
                            params: params.clone(),
                            game_id,
                            contract,
                            previous: s.previous,
                        },
                    ),
                    _ => Err(SessionError::NotBound(label.to_owned())),
                }
            },
        },
        _ => Err(refused(Asked::ListGames, response)),
    }
}

/// What is wrong with opening a game under a build of the contract; nothing
/// where the build derives the contract the game is bound to.
pub open spec fn mismatch(game: BoundView, wasm: Seq<u8>) -> Option<SessionErrorView> {
    let derived = contract_of(wasm, game.params);
    if derived == game.contract {
        None
    } else {
        Some(
            SessionErrorView::BoundMismatch {
                label: game.label,
                derived,
                recorded: game.contract,
            },
        )
    }
}

/// Whether a build of the contract derives the contract a game is bound to. A
/// build that does not would read and write another contract.
pub fn check_build(game: &BoundGame, wasm: &[u8]) -> (r: Result<(), SessionError>)
    ensures
        match r {
            Ok(_) => mismatch(game@, wasm@) is None,
            Err(e) => mismatch(game@, wasm@) == Some(e@),
        },
{
    let derived = contract_id(wasm, &game.params);
    if same_bytes(derived.as_slice(), game.contract.as_slice()) {
        Ok(())
    } else {
        Err(
            SessionError::BoundMismatch {
                label: game.label.clone(),
                derived,
                recorded: game.contract,
            },
        )
    }
}

// ---------------------------------------------------------------------------
// Reading a game.
// ---------------------------------------------------------------------------

/// The state in what a contract was found to hold. A contract that is not
/// there, or holds no bytes, is a game nobody has moved in yet.
pub open spec fn fetched(raw: Option<Seq<u8>>) -> Result<Map<Seq<u8>, RecordView>, SessionErrorView> {
    match raw {
        None => Ok(Map::empty()),
        Some(b) => if b.len() == 0 {
            Ok(Map::empty())
        } else {
            match state::decoded_state(b) {
                Some(m) => Ok(m),
                None => Err(SessionErrorView::StateUnreadable),
            }
        },
    }
}

/// The value of bytes that may be missing.
pub open spec fn raw_view(raw: Option<Vec<u8>>) -> Option<Seq<u8>> {
    match raw {
        Some(b) => Some(b@),
        None => None,
    }
}

/// The state in what a contract was found to hold.
pub fn fetch_state(raw: &Option<Vec<u8>>) -> (r: Result<GameState, SessionError>)
    ensures
        match r {
            Ok(s) => fetched(raw_view(*raw)) == Ok::<_, SessionErrorView>(s@),
            Err(e) => fetched(raw_view(*raw)) == Err::<Map<Seq<u8>, RecordView>, _>(e@),
        },
{
    match raw {
        None => Ok(GameState::empty()),
        Some(b) => if b.len() == 0 {
            Ok(GameState::empty())
        } else {
            match GameState::decode(b.as_slice()) {
                Some(s) => Ok(s),
                None => Err(SessionError::StateUnreadable),
            }
        },
    }
}

/// The value of a [`GameView`].
#[verifier::ext_equal]
pub struct Scene {
    pub label: Seq<char>,
    pub side: Side,
    pub params: ParamsView,
    pub game_id: Seq<u8>,
    pub contract: Seq<u8>,
    pub state: Map<Seq<u8>, RecordView>,
    pub status: StatusView,
}

/// Everything a screen needs about one bound game. The state stands beside the
/// status because the status names the records of the chain by id only.
#[derive(Debug)]
pub struct GameView {
    pub label: String,
    pub side: Side,
    pub params: GameParams,
    pub game_id: GameId,
    pub contract: [u8; 32],
    pub state: GameState,
    pub status: Status,
}

impl View for GameView {
    type V = Scene;

    open spec fn view(&self) -> Scene {
        Scene {
            label: self.label@,
            side: self.side,
            params: self.params@,
            game_id: self.game_id@,
            contract: self.contract@,
            state: self.state@,
            status: self.status@,
        }
    }
}

impl Clone for GameView {
    fn clone(&self) -> (r: GameView)
        ensures
            r@ == self@,
    {
        GameView {
            label: self.label.clone(),
            side: self.side,
            params: self.params.clone(),
            game_id: self.game_id,
            contract: self.contract,
            state: self.state.clone(),
            status: self.status.clone(),
        }
    }
}

/// A bound game with the state it was found in.
pub open spec fn scene_of(game: BoundView, m: Map<Seq<u8>, RecordView>) -> Scene {
    Scene {
        label: game.label,
        side: game.side,
        params: game.params,
        game_id: game.game_id,
        contract: game.contract,
        state: m,
        status: project::projected(m, game.params),
    }
}

/// The status of a scene is that of its state.
pub open spec fn coherent(scene: Scene) -> bool {
    scene.status == project::projected(scene.state, scene.params)
}

/// A bound game with the state it was found in.
pub fn open_game(game: &BoundGame, state: GameState) -> (r: GameView)
    ensures
        r@ == scene_of(game@, state@),
        coherent(r@),
{
    let status = project(&state, &game.params);
    GameView {
        label: game.label.clone(),
        side: game.side,
        params: game.params.clone(),
        game_id: game.game_id,
        contract: game.contract,
        state,
        status,
    }
}

/// The record makes this move.
pub open spec fn makes(r: RecordView, uci: Seq<char>) -> bool {
    match r.body {
        BodyView::Move { uci: u, .. } => u == uci,
        _ => false,
    }
}

/// The moves that a list of ids names, in the order of the list. An id that
/// names no move is passed over.
pub open spec fn moves_along(chain: Seq<Seq<u8>>, m: Map<Seq<u8>, RecordView>) -> Seq<Seq<char>>
    decreases chain.len(),
{
    if chain.len() == 0 {
        Seq::empty()
    } else {
        let rest = moves_along(chain.drop_last(), m);
        let k = chain.last();
        if m.contains_key(k) {
            match m[k].body {
                BodyView::Move { uci, .. } => rest.push(uci),
                _ => rest,
            }
        } else {
            rest
        }
    }
}

/// The accepted moves, in the order of play. They follow the chain: the record
/// set is in the order of its ids, which has nothing to do with it.
pub fn moves_in_order(view: &GameView) -> (r: Vec<String>)
    ensures
        project::text_views(r@) == moves_along(view@.status.chain, view@.state),
{
    let ghost chain = view@.status.chain;
    let ghost m = view@.state;
    let mut out: Vec<String> = Vec::new();
    let mut i: usize = 0;
    assert(project::text_views(out@) =~= moves_along(chain.take(0), m));
    while i < view.status.chain.len()
        invariant
            i <= view.status.chain.len(),
            chain == view@.status.chain,
            m == view@.state,
            project::text_views(out@) == moves_along(chain.take(i as int), m),
        decreases view.status.chain.len() - i,
    {
        let ghost prior = out@;
        assert(chain.take(i + 1).drop_last() =~= chain.take(i as int));
        assert(chain.take(i + 1).last() == view.status.chain@[i as int]@);
        match view.state.records.get(&view.status.chain[i]) {
            Some(rec) => match &rec.body {
                Body::Move { uci, .. } => {
                    out.push(uci.clone());
                    assert(project::text_views(out@) =~= project::text_views(prior).push(uci@));
                },
                _ => {},
            },
            None => {},
        }
        i += 1;
    }
    assert(chain.take(i as int) =~= chain);
    out
}

proof fn moves_along_all(chain: Seq<Seq<u8>>, m: Map<Seq<u8>, RecordView>)
    requires
        forall|i: int|
            0 <= i < chain.len() ==> m.contains_key(#[trigger] chain[i]) && m[chain[i]].body is Move,
    ensures
        moves_along(chain, m).len() == chain.len(),
        forall|i: int|
            0 <= i < chain.len() ==> makes(m[chain[i]], #[trigger] moves_along(chain, m)[i]),
    decreases chain.len(),
{
    if chain.len() > 0 {
        let front = chain.drop_last();
        assert forall|i: int| 0 <= i < front.len() implies m.contains_key(#[trigger] front[i])
            && m[front[i]].body is Move by {
            assert(front[i] == chain[i]);
        }
        moves_along_all(front, m);
        assert(m.contains_key(chain[chain.len() - 1]));
        assert forall|i: int| 0 <= i < chain.len() implies makes(
            m[chain[i]],
            #[trigger] moves_along(chain, m)[i],
        ) by {
            if i < front.len() {
                assert(front[i] == chain[i]);
                assert(moves_along(front, m)[i] == moves_along(chain, m)[i]);
            }
        }
    }
}

/// The history of a game that was opened has every move of the chain: as many
/// as there are plies, each the move of the record the chain names there.
pub proof fn the_history_is_whole(scene: Scene)
    requires
        coherent(scene),
    ensures
        moves_along(scene.status.chain, scene.state).len() == scene.status.ply,
        forall|i: int|
            0 <= i < scene.status.ply ==> makes(
                scene.state[scene.status.chain[i]],
                #[trigger] moves_along(scene.status.chain, scene.state)[i],
            ),
{
    chain::the_chain_is_linked(scene.state, scene.params);
    let list = scene.status.chain;
    assert forall|i: int| 0 <= i < list.len() implies scene.state.contains_key(#[trigger] list[i])
        && scene.state[list[i]].body is Move by {
        assert(chain::linked_at(scene.state, scene.params, list, i));
    }
    moves_along_all(list, scene.state);
}

// ---------------------------------------------------------------------------
// What to sign next. The checks are there to give a good error before the
// delegate is asked; the guarantees are the delegate's.
// ---------------------------------------------------------------------------

/// The move to sign: in turn, in the current position, on top of the head.
pub open spec fn planned_move(scene: Scene, uci: Seq<char>) -> Result<BodyView, SessionErrorView> {
    if scene.status.decision is Some {
        Err(SessionErrorView::GameOver)
    } else if Side::of(scene.status.turn) != scene.side {
        Err(SessionErrorView::NotYourTurn)
    } else if !project::moves_listed(project::projected(scene.state, scene.params)).contains(uci) {
        Err(SessionErrorView::NotLegal(uci))
    } else if scene.status.ply >= 65535 {
        Err(SessionErrorView::NoPlyLeft)
    } else {
        Ok(
            BodyView::Move {
                ply: (scene.status.ply + 1) as u16,
                parent: project::head_of(scene.status.chain, scene.params),
                uci,
            },
        )
    }
}

/// The move to sign, where it is our turn and the move is legal.
pub fn plan_move(view: &GameView, uci: &str) -> (r: Result<Body, SessionError>)
    ensures
        match r {
            Ok(b) => planned_move(view@, uci@) == Ok::<BodyView, SessionErrorView>(b@),
            Err(e) => planned_move(view@, uci@) == Err::<BodyView, SessionErrorView>(e@),
        },
{
    if view.status.is_over() {
        return Err(SessionError::GameOver);
    }
    if Side::from(view.status.turn) != view.side {
        return Err(SessionError::NotYourTurn);
    }
    let legal = legal_moves(&view.state, &view.params);
    if !listed(&legal, uci) {
        return Err(SessionError::NotLegal(uci.to_owned()));
    }
    if view.status.ply == u16::MAX {
        return Err(SessionError::NoPlyLeft);
    }
    Ok(
        Body::Move {
            ply: view.status.ply + 1,
            parent: view.status.head(&view.params),
            uci: uci.to_owned(),
        },
    )
}

/// The resignation to sign. It does not depend on the position.
pub open spec fn planned_resignation(scene: Scene) -> Result<BodyView, SessionErrorView> {
    if scene.status.decision is Some {
        Err(SessionErrorView::GameOver)
    } else {
        Ok(BodyView::Resign)
    }
}

/// The resignation to sign, where the game is not over.
pub fn plan_resignation(view: &GameView) -> (r: Result<Body, SessionError>)
    ensures
        match r {
            Ok(b) => planned_resignation(view@) == Ok::<BodyView, SessionErrorView>(b@),
            Err(e) => planned_resignation(view@) == Err::<BodyView, SessionErrorView>(e@),
        },
{
    if view.status.is_over() {
        return Err(SessionError::GameOver);
    }
    Ok(Body::Resign)
}

/// The draw offer to sign, anchored to the head, so that it expires once the
/// game moves on.
pub open spec fn planned_offer(scene: Scene) -> Result<BodyView, SessionErrorView> {
    if scene.status.decision is Some {
        Err(SessionErrorView::GameOver)
    } else {
        Ok(
            BodyView::DrawOffer {
                ply: scene.status.ply as u16,
                at: project::head_of(scene.status.chain, scene.params),
            },
        )
    }
}

/// The draw offer to sign, where the game is not over.
pub fn plan_offer(view: &GameView) -> (r: Result<Body, SessionError>)
    ensures
        match r {
            Ok(b) => planned_offer(view@) == Ok::<BodyView, SessionErrorView>(b@),
            Err(e) => planned_offer(view@) == Err::<BodyView, SessionErrorView>(e@),
        },
{
    if view.status.is_over() {
        return Err(SessionError::GameOver);
    }
    Ok(Body::DrawOffer { ply: view.status.ply, at: view.status.head(&view.params) })
}

/// The record is a draw offer at the head, by this side.
pub open spec fn is_live_offer(r: RecordView, params: ParamsView, head: Seq<u8>, by: Color) -> bool {
    match r.body {
        BodyView::DrawOffer { at, .. } => at == head && params.color_of(r.signer) == Some(by),
        _ => false,
    }
}

/// The first of these ids that is a live draw offer by this side.
pub open spec fn first_live_offer(
    ids: Seq<Seq<u8>>,
    m: Map<Seq<u8>, RecordView>,
    params: ParamsView,
    head: Seq<u8>,
    by: Color,
) -> Option<Seq<u8>>
    decreases ids.len(),
{
    if ids.len() == 0 {
        None
    } else if is_live_offer(m[ids[0]], params, head, by) {
        Some(ids[0])
    } else {
        first_live_offer(ids.drop_first(), m, params, head, by)
    }
}

/// The colour of a side.
pub open spec fn color_of_side(side: Side) -> Color {
    match side {
        Side::White => Color::White,
        Side::Black => Color::Black,
    }
}

/// The acceptance to sign: of the opponent's draw offer at the head, the one
/// with the smallest id if there are several.
pub open spec fn planned_acceptance(scene: Scene) -> Result<BodyView, SessionErrorView> {
    if scene.status.decision is Some {
        Err(SessionErrorView::GameOver)
    } else {
        match first_live_offer(
            bytemap::ascending(scene.state.dom()),
            scene.state,
            scene.params,
            project::head_of(scene.status.chain, scene.params),
            color_of_side(scene.side).opposite(),
        ) {
            None => Err(SessionErrorView::NoLiveOffer),
            Some(offer) => Ok(BodyView::DrawAccept { ply: scene.status.ply as u16, offer }),
        }
    }
}

/// The place of the first live draw offer by a side.
fn find_live_offer(state: &GameState, params: &GameParams, head: &RecordId, by: Color) -> (r:
    Option<RecordId>)
    ensures
        match r {
            Some(id) => first_live_offer(
                bytemap::ascending(state@.dom()),
                state@,
                params@,
                head@,
                by,
            ) == Some(id@),
            None => first_live_offer(
                bytemap::ascending(state@.dom()),
                state@,
                params@,
                head@,
                by,
            ) is None,
        },
{
    let ghost ids = bytemap::ascending(state@.dom());
    let n: usize = state.records.len();
    let mut i: usize = 0;
    assert(ids.skip(0) =~= ids);
    while i < n
        invariant
            i <= n,
            n == ids.len(),
            ids == bytemap::ascending(state@.dom()),
            ids == state.records.ids(),
            first_live_offer(ids, state@, params@, head@, by) == first_live_offer(
                ids.skip(i as int),
                state@,
                params@,
                head@,
                by,
            ),
        decreases n - i,
    {
        assert(ids.skip(i as int)[0] == ids[i as int]);
        assert(ids.skip(i as int).drop_first() =~= ids.skip(i + 1));
        let rec = state.records.value_at(i);
        let live: bool = match &rec.body {
            Body::DrawOffer { at, .. } => same_bytes(at.as_slice(), head.as_slice()) && rec.color(
                params,
            ) == Some(by),
            _ => false,
        };
        if live {
            return Some(*state.records.id_at(i));
        }
        i += 1;
    }
    None
}

/// The acceptance of the opponent's live draw offer; refused where there is
/// none.
pub fn plan_acceptance(view: &GameView) -> (r: Result<Body, SessionError>)
    ensures
        match r {
            Ok(b) => planned_acceptance(view@) == Ok::<BodyView, SessionErrorView>(b@),
            Err(e) => planned_acceptance(view@) == Err::<BodyView, SessionErrorView>(e@),
        },
{
    if view.status.is_over() {
        return Err(SessionError::GameOver);
    }
    let head = view.status.head(&view.params);
    let ours = Color::from(view.side);
    match find_live_offer(&view.state, &view.params, &head, ours.other()) {
        None => Err(SessionError::NoLiveOffer),
        Some(offer) => Ok(Body::DrawAccept { ply: view.status.ply, offer }),
    }
}

/// The claim to sign, by the player to move, where threefold repetition or the
/// fifty-move rule gives a ground for one.
pub open spec fn planned_claim(scene: Scene) -> Result<BodyView, SessionErrorView> {
    if scene.status.decision is Some {
        Err(SessionErrorView::GameOver)
    } else if scene.status.turn != color_of_side(scene.side) {
        Err(SessionErrorView::NotYoursToClaim)
    } else if scene.status.repetitions < project::THREEFOLD && scene.status.halfmove_clock
        < project::FIFTY_MOVE_HALFMOVES {
        Err(
            SessionErrorView::NothingToClaim {
                repetitions: scene.status.repetitions,
                halfmoves: scene.status.halfmove_clock,
            },
        )
    } else {
        Ok(
            BodyView::DrawClaim {
                ply: scene.status.ply as u16,
                at: project::head_of(scene.status.chain, scene.params),
            },
        )
    }
}

/// The draw claim to sign. A claim without a ground is ignored by everybody,
/// so none is made.
pub fn plan_claim(view: &GameView) -> (r: Result<Body, SessionError>)
    ensures
        match r {
            Ok(b) => planned_claim(view@) == Ok::<BodyView, SessionErrorView>(b@),
            Err(e) => planned_claim(view@) == Err::<BodyView, SessionErrorView>(e@),
        },
{
    if view.status.is_over() {
        return Err(SessionError::GameOver);
    }
    if view.status.turn != Color::from(view.side) {
        return Err(SessionError::NotYoursToClaim);
    }
    if view.status.repetitions < project::THREEFOLD && view.status.halfmove_clock
        < project::FIFTY_MOVE_HALFMOVES {
        return Err(
            SessionError::NothingToClaim {
                repetitions: view.status.repetitions,
                halfmoves: view.status.halfmove_clock,
            },
        );
    }
    Ok(Body::DrawClaim { ply: view.status.ply, at: view.status.head(&view.params) })
}

/// A move at a given ply, on top of whatever the chain has before that ply.
pub open spec fn planned_move_at(scene: Scene, ply: u16, uci: Seq<char>) -> Result<
    BodyView,
    SessionErrorView,
> {
    if ply <= 1 {
        Ok(BodyView::Move { ply, parent: scene.params.genesis(), uci })
    } else if ply - 2 < scene.status.chain.len() {
        Ok(BodyView::Move { ply, parent: scene.status.chain[ply - 2], uci })
    } else {
        Err(SessionErrorView::NoParent { ply })
    }
}

/// A move at a given ply, without any check of turn or legality: it puts the
/// delegate's own guard to the test. The parent is the record before that ply,
/// which need not be the head.
pub fn plan_move_at(view: &GameView, ply: u16, uci: &str) -> (r: Result<Body, SessionError>)
    ensures
        match r {
            Ok(b) => planned_move_at(view@, ply, uci@) == Ok::<BodyView, SessionErrorView>(b@),
            Err(e) => planned_move_at(view@, ply, uci@) == Err::<BodyView, SessionErrorView>(e@),
        },
{
    let parent: RecordId = if ply <= 1 {
        view.params.genesis()
    } else {
        let at: usize = (ply - 2) as usize;
        if at < view.status.chain.len() {
            view.status.chain[at]
        } else {
            return Err(SessionError::NoParent { ply });
        }
    };
    Ok(Body::Move { ply, parent, uci: uci.to_owned() })
}

// ---------------------------------------------------------------------------
// Moving a game to another build's contract.
// ---------------------------------------------------------------------------

/// The value of a [`MigrateOutcome`].
#[verifier::ext_equal]
pub enum MigrateView {
    AlreadyCurrent { contract: Seq<u8> },
    Migrated { from: Seq<u8>, to: Seq<u8>, records: nat },
}

/// What a migration did.
#[derive(Clone, Copy, Debug, PartialEq, Eq)]
pub enum MigrateOutcome {
    /// This build already derives the recorded id. Nothing to do.
    AlreadyCurrent { contract: [u8; 32] },
    Migrated { from: [u8; 32], to: [u8; 32], records: usize },
}

impl View for MigrateOutcome {
    type V = MigrateView;

    open spec fn view(&self) -> MigrateView {
        match self {
            MigrateOutcome::AlreadyCurrent { contract } => MigrateView::AlreadyCurrent {
                contract: contract@,
            },
            MigrateOutcome::Migrated { from, to, records } => MigrateView::Migrated {
                from: from@,
                to: to@,
                records: *records as nat,
            },
        }
    }
}

/// The state to carry over, read from the contract a game is bound to. Where
/// the contract is gone there is nothing to fall back on, and an empty state is
/// never put in its place.
pub open spec fn carried_over(from: Seq<u8>, raw: Option<Seq<u8>>) -> Result<
    Map<Seq<u8>, RecordView>,
    SessionErrorView,
> {
    match raw {
        None => Err(SessionErrorView::OldContractGone(from)),
        Some(b) => if b.len() == 0 {
            Ok(Map::empty())
        } else {
            match state::decoded_state(b) {
                Some(m) => Ok(m),
                None => Err(SessionErrorView::OldStateUnreadable),
            }
        },
    }
}

/// The state to carry over, read from the contract a game is bound to.
pub fn read_old_state(from: &[u8; 32], raw: &Option<Vec<u8>>) -> (r: Result<
    GameState,
    SessionError,
>)
    ensures
        match r {
            Ok(s) => carried_over(from@, raw_view(*raw)) == Ok::<_, SessionErrorView>(s@),
            Err(e) => carried_over(from@, raw_view(*raw)) == Err::<
                Map<Seq<u8>, RecordView>,
                _,
            >(e@),
        },
{
    match raw {
        None => Err(SessionError::OldContractGone(*from)),
        Some(b) => if b.len() == 0 {
            Ok(GameState::empty())
        } else {
            match GameState::decode(b.as_slice()) {
                Some(s) => Ok(s),
                None => Err(SessionError::OldStateUnreadable),
            }
        },
    }
}

// ---------------------------------------------------------------------------
// Following a game.
// ---------------------------------------------------------------------------

/// The state in a notification. No bytes are nothing to merge, not an error.
pub open spec fn state_payload(raw: Seq<u8>) -> Result<
    Option<Map<Seq<u8>, RecordView>>,
    SessionErrorView,
> {
    if raw.len() == 0 {
        Ok(None)
    } else {
        match state::decoded_state(raw) {
            Some(m) => Ok(Some(m)),
            None => Err(SessionErrorView::BadStatePayload),
        }
    }
}

/// The delta in a notification. No bytes are nothing to merge, not an error.
pub open spec fn delta_payload(raw: Seq<u8>) -> Result<Option<Seq<RecordView>>, SessionErrorView> {
    if raw.len() == 0 {
        Ok(None)
    } else {
        match state::decoded_list(raw) {
            Some(list) => Ok(Some(list)),
            None => Err(
                SessionErrorView::BadDeltaPayload(
                    cbor::complaint_of(raw, contract::BAD_DELTA@),
                ),
            ),
        }
    }
}

/// The state in a notification. Bytes that cannot be read are reported: passed
/// over, they would leave a board that silently never moves.
pub fn decode_state_payload(raw: &[u8]) -> (r: Result<Option<GameState>, SessionError>)
    ensures
        match r {
            Ok(None) => state_payload(raw@) == Ok::<Option<Map<Seq<u8>, RecordView>>, SessionErrorView>(None),
            Ok(Some(s)) => state_payload(raw@) == Ok::<_, SessionErrorView>(Some(s@)),
            Err(e) => state_payload(raw@) == Err::<Option<Map<Seq<u8>, RecordView>>, _>(e@),
        },
{
    if raw.len() == 0 {
        return Ok(None);
    }
    match GameState::decode(raw) {
        Some(s) => Ok(Some(s)),
        None => Err(SessionError::BadStatePayload),
    }
}

/// The delta in a notification. Bytes that cannot be read are reported.
pub fn decode_delta_payload(raw: &[u8]) -> (r: Result<Option<Delta>, SessionError>)
    ensures
        match r {
            Ok(None) => delta_payload(raw@) == Ok::<Option<Seq<RecordView>>, SessionErrorView>(None),
            Ok(Some(d)) => delta_payload(raw@) == Ok::<_, SessionErrorView>(
                Some(state::views(d@)),
            ),
            Err(e) => delta_payload(raw@) == Err::<Option<Seq<RecordView>>, _>(e@),
        },
{
    if raw.len() == 0 {
        return Ok(None);
    }
    match decode_delta(raw) {
        Some(d) => Ok(Some(d)),
        None => Err(SessionError::BadDeltaPayload(cbor::complaint(raw, contract::BAD_DELTA))),
    }
}

/// What taking in a whole state makes of the state held, and what went wrong.
pub open spec fn with_state(
    m: Map<Seq<u8>, RecordView>,
    raw: Seq<u8>,
    params: ParamsView,
) -> (Map<Seq<u8>, RecordView>, Option<SessionErrorView>) {
    match state_payload(raw) {
        Ok(None) => (m, None),
        Ok(Some(incoming)) => (state::merge_of(m, incoming, params), None),
        Err(e) => (m, Some(e)),
    }
}

/// What taking in a delta makes of the state held, and what went wrong.
pub open spec fn with_delta(
    m: Map<Seq<u8>, RecordView>,
    raw: Seq<u8>,
    params: ParamsView,
) -> (Map<Seq<u8>, RecordView>, Option<SessionErrorView>) {
    match delta_payload(raw) {
        Ok(None) => (m, None),
        Ok(Some(list)) => (state::trimmed(state::absorbed_all(m, list, params), params), None),
        Err(e) => (m, Some(e)),
    }
}

/// What taking in a notification makes of the state held, and what went wrong.
pub open spec fn with_update(
    m: Map<Seq<u8>, RecordView>,
    update: UpdateView,
    params: ParamsView,
) -> (Map<Seq<u8>, RecordView>, Option<SessionErrorView>) {
    match update {
        UpdateView::State(raw) => with_state(m, raw, params),
        UpdateView::Delta(raw) => with_delta(m, raw, params),
        UpdateView::StateAndDelta { state, delta } => {
            let (next, e) = with_state(m, state, params);
            if e is Some {
                (next, e)
            } else {
                with_delta(next, delta, params)
            }
        },
        _ => (m, None),
    }
}

/// Whether a notification is of a kind that carries records.
pub open spec fn carries_records(update: UpdateView) -> bool {
    update is State || update is Delta || update is StateAndDelta
}

/// Take in a whole state.
fn take_state(held: &mut GameState, raw: &[u8], params: &GameParams) -> (r: Result<
    (),
    SessionError,
>)
    ensures
        final(held)@ == with_state(old(held)@, raw@, params@).0,
        match r {
            Ok(_) => with_state(old(held)@, raw@, params@).1 is None,
            Err(e) => with_state(old(held)@, raw@, params@).1 == Some(e@),
        },
{
    match decode_state_payload(raw) {
        Ok(None) => Ok(()),
        Ok(Some(incoming)) => {
            held.merge(&incoming, params);
            Ok(())
        },
        Err(e) => Err(e),
    }
}

/// Take in a delta.
fn take_delta(held: &mut GameState, raw: &[u8], params: &GameParams) -> (r: Result<
    (),
    SessionError,
>)
    ensures
        final(held)@ == with_delta(old(held)@, raw@, params@).0,
        match r {
            Ok(_) => with_delta(old(held)@, raw@, params@).1 is None,
            Err(e) => with_delta(old(held)@, raw@, params@).1 == Some(e@),
        },
{
    match decode_delta_payload(raw) {
        Ok(None) => Ok(()),
        Ok(Some(delta)) => {
            held.apply_delta(&delta, params);
            Ok(())
        },
        Err(e) => Err(e),
    }
}

/// Take in a notification. What arrives is merged, never put in the place of
/// what is held. Kinds that carry no records are passed over: `false` is
/// returned for them.
pub fn take_update(held: &mut GameState, update: &UpdateData, params: &GameParams) -> (r: Result<
    bool,
    SessionError,
>)
    ensures
        final(held)@ == with_update(old(held)@, update@, params@).0,
        match r {
            Ok(taken) => with_update(old(held)@, update@, params@).1 is None && taken
                == carries_records(update@),
            Err(e) => with_update(old(held)@, update@, params@).1 == Some(e@),
        },
{
    match update {
        UpdateData::State(raw) => match take_state(held, raw.as_slice(), params) {
            Ok(_) => Ok(true),
            Err(e) => Err(e),
        },
        UpdateData::Delta(raw) => match take_delta(held, raw.as_slice(), params) {
            Ok(_) => Ok(true),
            Err(e) => Err(e),
        },
        UpdateData::StateAndDelta { state, delta } => match take_state(
            held,
            state.as_slice(),
            params,
        ) {
            Ok(_) => match take_delta(held, delta.as_slice(), params) {
                Ok(_) => Ok(true),
                Err(e) => Err(e),
            },
            Err(e) => Err(e),
        },
        _ => Ok(false),
    }
}

/// A notification that carries a state and one that carries the same records as
/// a delta leave the same state behind.
pub proof fn states_and_deltas_say_the_same(
    m: Map<Seq<u8>, RecordView>,
    incoming: Map<Seq<u8>, RecordView>,
    as_state: Seq<u8>,
    as_delta: Seq<u8>,
    params: ParamsView,
)
    requires
        state::well_formed(incoming),
        state_payload(as_state) == Ok::<_, SessionErrorView>(Some(incoming)),
        delta_payload(as_delta) == Ok::<_, SessionErrorView>(Some(state::listing(incoming))),
    ensures
        with_update(m, UpdateView::State(as_state), params) == with_update(
            m,
            UpdateView::Delta(as_delta),
            params,
        ),
{
    algebra::offering_all_is_union(m, incoming, params);
}

/// What a merge holds has the bodies and signers of what was merged.
proof fn merged_agrees(
    a: Map<Seq<u8>, RecordView>,
    b: Map<Seq<u8>, RecordView>,
    c: Map<Seq<u8>, RecordView>,
    params: ParamsView,
)
    requires
        algebra::agree(a, c),
        algebra::agree(b, c),
    ensures
        algebra::agree(state::merge_of(a, b, params), c),
{
    let u = state::merge_of(a, b, params);
    assert forall|k: Seq<u8>| #[trigger] u.contains_key(k) && c.contains_key(k) implies u[k].body
        == c[k].body && u[k].signer == c[k].signer by {
        assert(state::joined(a, b, params).contains_key(k));
        if a.contains_key(k) {
            assert(a.contains_key(k) && c.contains_key(k));
        }
        if b.contains_key(k) {
            assert(b.contains_key(k) && c.contains_key(k));
        }
    }
}

/// Two notifications that carry states leave the same state behind, whichever
/// comes first. What does not verify in them changes nothing.
pub proof fn notifications_come_in_any_order(
    m: Map<Seq<u8>, RecordView>,
    first: Map<Seq<u8>, RecordView>,
    second: Map<Seq<u8>, RecordView>,
    raw1: Seq<u8>,
    raw2: Seq<u8>,
    params: ParamsView,
)
    requires
        algebra::sound(m, params),
        state::well_formed(first),
        state::well_formed(second),
        algebra::agree(m, first),
        algebra::agree(m, second),
        algebra::agree(first, second),
        state_payload(raw1) == Ok::<_, SessionErrorView>(Some(first)),
        state_payload(raw2) == Ok::<_, SessionErrorView>(Some(second)),
    ensures
        with_state(with_state(m, raw1, params).0, raw2, params) == with_state(
            with_state(m, raw2, params).0,
            raw1,
            params,
        ),
{
    let none = Map::<Seq<u8>, RecordView>::empty();
    let f = state::merge_of(none, first, params);
    let s = state::merge_of(none, second, params);
    algebra::agree_symmetric(first, second);
    algebra::agree_symmetric(m, first);
    algebra::agree_symmetric(m, second);
    algebra::merge_is_sound(none, first, params);
    algebra::merge_is_sound(none, second, params);
    algebra::merge_is_sound(m, first, params);
    algebra::merge_is_sound(m, second, params);
    // What verifies in a state agrees with whatever the state agrees with.
    merged_agrees(none, first, m, params);
    merged_agrees(none, second, m, params);
    merged_agrees(none, first, second, params);
    algebra::agree_symmetric(f, second);
    merged_agrees(none, second, f, params);
    algebra::agree_symmetric(f, m);
    algebra::agree_symmetric(s, m);
    algebra::agree_symmetric(s, f);
    merged_agrees(m, first, second, params);
    merged_agrees(m, second, first, params);
    // The rest may be left out.
    algebra::filtering_may_wait(m, first, params);
    algebra::filtering_may_wait(m, second, params);
    algebra::filtering_may_wait(state::merge_of(m, first, params), second, params);
    algebra::filtering_may_wait(state::merge_of(m, second, params), first, params);
    algebra::merge_associates(m, f, s, params);
    algebra::merge_associates(m, s, f, params);
    algebra::merge_commutes(f, s, params);
}

// ---------------------------------------------------------------------------
// An opponent who stayed behind.
// ---------------------------------------------------------------------------

/// Somebody else signed a record that the previous contract holds and the
/// current one does not.
pub open spec fn left_behind(
    current: Map<Seq<u8>, RecordView>,
    previous: Map<Seq<u8>, RecordView>,
    ours: Seq<u8>,
) -> bool {
    exists|k: Seq<u8>| #[trigger]
        previous.contains_key(k) && !current.contains_key(k) && previous[k].signer != ours
}

/// Whether the opponent moved on the contract a game was migrated from. That
/// they have records there says nothing: it holds the whole game up to the
/// migration. Neither do records of our own.
pub fn opponent_moved_on_previous(current: &GameState, previous: &GameState, ours: &KeyBytes) -> (r:
    bool)
    ensures
        r == left_behind(current@, previous@, ours@),
{
    let ghost ids = previous.records.ids();
    proof {
        use_type_invariant(&previous.records);
        bytemap::ascending_lists(previous@.dom());
    }
    let n: usize = previous.records.len();
    let mut i: usize = 0;
    while i < n
        invariant
            i <= n,
            n == ids.len(),
            ids == previous.records.ids(),
            forall|j: int|
                0 <= j < i ==> current@.contains_key(#[trigger] ids[j]) || previous@[ids[j]].signer
                    == ours@,
            forall|j: int| 0 <= j < n ==> previous@.contains_key(#[trigger] ids[j]),
        decreases n - i,
    {
        assert(previous@.contains_key(ids[i as int]));
        if !current.records.contains_key(previous.records.id_at(i)) && !same_bytes(
            previous.records.value_at(i).signer.as_slice(),
            ours.as_slice(),
        ) {
            return true;
        }
        i += 1;
    }
    proof {
        assert forall|k: Seq<u8>| #[trigger] previous@.contains_key(k) implies current@.contains_key(
            k,
        ) || previous@[k].signer == ours@ by {
            assert(previous@.dom().contains(k));
            let j = choose|j: int| 0 <= j < ids.len() && ids[j] == k;
            assert(ids[j] == k);
        }
    }
    false
}

/// A migration that everybody followed leaves nobody behind, however many
/// records the previous contract holds.
pub proof fn nobody_is_behind_after_a_shared_migration(
    current: Map<Seq<u8>, RecordView>,
    previous: Map<Seq<u8>, RecordView>,
    ours: Seq<u8>,
)
    requires
        previous.dom().subset_of(current.dom()),
    ensures
        !left_behind(current, previous, ours),
{
    assert forall|k: Seq<u8>| #[trigger] previous.contains_key(k) implies current.contains_key(
        k,
    ) by {
        assert(previous.dom().contains(k));
    }
}

// ---------------------------------------------------------------------------
// What holds of the answers.
// ---------------------------------------------------------------------------

/// A refusal by the delegate is passed on as it is, whatever was asked, and no
/// answer is taken for one to another question.
pub proof fn a_refusal_is_passed_on(x: RefusalView, to: Asked, label: Seq<char>, r: ResponseView)
    ensures
        key_in(ResponseView::Refused(x)) == Err::<Seq<u8>, SessionErrorView>(
            SessionErrorView::Refused(x),
        ),
        not_bound(to, ResponseView::Refused(x)) == Some(SessionErrorView::Refused(x)),
        delta_in(ResponseView::Refused(x)) == Err::<Seq<u8>, SessionErrorView>(
            SessionErrorView::Refused(x),
        ),
        bound_game(ResponseView::Refused(x), label) == Err::<BoundView, SessionErrorView>(
            SessionErrorView::Refused(x),
        ),
        key_in(r) is Ok <==> r is GameKey,
        not_bound(to, r) is None <==> r is Bound,
        delta_in(r) is Ok <==> r is Signed,
        bound_game(r, label) is Ok ==> r is Games,
{
}

/// The game that is found by a label has that label, and is one of those that
/// are listed; there is none exactly where no listed game has the label.
proof fn labelled(games: Seq<GameSummaryView>, label: Seq<char>)
    ensures
        match first_labelled(games, label) {
            Some(s) => s.label == label && games.contains(s),
            None => forall|i: int| 0 <= i < games.len() ==> (#[trigger] games[i]).label != label,
        },
    decreases games.len(),
{
    if games.len() > 0 && games[0].label != label {
        let rest = games.drop_first();
        labelled(rest, label);
        match first_labelled(rest, label) {
            Some(s) => {
                let i = rest.index_of(s);
                assert(games[i + 1] == s);
            },
            None => {
                assert forall|i: int| 0 <= i < games.len() implies (#[trigger] games[i]).label
                    != label by {
                    if i > 0 {
                        assert(rest[i - 1] == games[i]);
                    }
                }
            },
        }
    } else if games.len() > 0 {
        assert(games[0] == first_labelled(games, label)->0);
    }
}

/// A game is opened under the label it is listed with. A label that is not
/// listed has no key, and one that is listed without a game is bound to none.
pub proof fn a_label_stands_for_its_own_game(games: Seq<GameSummaryView>, label: Seq<char>)
    ensures
        match bound_game(ResponseView::Games(games), label) {
            Ok(g) => g.label == label && exists|i: int|
                0 <= i < games.len() && (#[trigger] games[i]).label == label && games[i].params
                    == Some(g.params) && games[i].contract == Some(g.contract) && games[i].game_id
                    == Some(g.game_id) && games[i].side == Some(g.side) && games[i].public_key
                    == g.public_key && games[i].previous == g.previous,
            Err(SessionErrorView::NoKey(l)) => l == label && forall|i: int|
                0 <= i < games.len() ==> (#[trigger] games[i]).label != label,
            Err(SessionErrorView::NotBound(l)) => l == label && exists|i: int|
                0 <= i < games.len() && (#[trigger] games[i]).label == label && (games[i].game_id
                    is None || games[i].side is None || games[i].params is None
                    || games[i].contract is None),
            Err(_) => false,
        },
{
    labelled(games, label);
    match first_labelled(games, label) {
        Some(s) => {
            let i = games.index_of(s);
            assert(games[i] == s);
        },
        None => {},
    }
}

/// What was bound is found again: once the delegate has stored a game, the
/// label leads from the list of games to the game, its parameters, its side, its
/// contract and the contract before it.
pub proof fn what_was_bound_is_found(
    before: Map<Seq<u8>, Seq<u8>>,
    rec: crate::delegate_policy::GameRecordView,
    after: Map<Seq<u8>, Seq<u8>>,
    origin: Option<Seq<u8>>,
    games: Seq<GameSummaryView>,
)
    requires
        crate::delegate::stores(before, rec, after),
        crate::delegate::tells_of(before, origin, rec.label),
        crate::delegate::lists_all_games(after, origin, games),
    ensures
        bound_game(ResponseView::Games(games), rec.label) matches Ok(g) && {
            &&& g.label == rec.label
            &&& g.params == rec.params
            &&& g.game_id == rec.params.game_id()
            &&& g.side == rec.side
            &&& g.contract == rec.contract
            &&& g.previous == rec.previous
            &&& g.public_key == crate::crypto::public_key(
                crate::secrets::seed_in(before, rec.label)->0,
            )
        },
{
    let label = rec.label;
    crate::delegate::a_bound_game_can_be_played(before, rec, after, origin, BodyView::Resign);
    crate::secrets::namespaces_never_meet(label, label, rec.params.game_id());
    assert(crate::secrets::owner_in(after, label) == crate::secrets::owner_in(before, label));
    assert(crate::secrets::seed_in(after, label) == crate::secrets::seed_in(before, label));
    assert(crate::delegate::tells_of(after, origin, label));
    labelled(games, label);
    let i = choose|i: int| 0 <= i < games.len() && (#[trigger] games[i]).label == label;
    let s = first_labelled(games, label)->0;
    let j = games.index_of(s);
    assert(games[j].label == label);
}

// ---------------------------------------------------------------------------
// What is planned takes effect.
// ---------------------------------------------------------------------------

/// A resignation can be signed exactly while the game is undecided, and once
/// its record is there, the opponent has won.
pub proof fn a_planned_resignation_loses(scene: Scene, k: Seq<u8>, r: RecordView)
    requires
        coherent(scene),
        !scene.state.contains_key(k),
        scene.params.color_of(r.signer) == Some(color_of_side(scene.side)),
    ensures
        planned_resignation(scene) is Ok <==> scene.status.decision is None,
        planned_resignation(scene) == Ok::<BodyView, SessionErrorView>(r.body)
            ==> project::projected(scene.state.insert(k, r), scene.params).decision == Some(
            project::Decision {
                winner: Some(color_of_side(scene.side).opposite()),
                reason: project::Reason::Resignation,
            },
        ),
{
    if planned_resignation(scene) == Ok::<BodyView, SessionErrorView>(r.body) {
        chain::a_resignation_takes_effect(
            scene.state,
            scene.params,
            k,
            r,
            color_of_side(scene.side),
        );
    }
}

/// A claim can be signed exactly where it ends the game: once its record is
/// there, the game is drawn; and where none can be signed in an undecided game,
/// no claim of ours would have ended it.
pub proof fn a_planned_claim_draws(scene: Scene, k: Seq<u8>, r: RecordView)
    requires
        coherent(scene),
        !scene.state.contains_key(k),
        scene.params.color_of(r.signer) == Some(color_of_side(scene.side)),
        r.body is DrawClaim,
    ensures
        planned_claim(scene) == Ok::<BodyView, SessionErrorView>(r.body) ==> (project::projected(
            scene.state.insert(k, r),
            scene.params,
        ).decision matches Some(d) && d.winner is None && (d.reason
            == project::Reason::ThreefoldClaim || d.reason == project::Reason::FiftyMoveClaim)),
        planned_claim(scene) is Err && scene.status.decision is None ==> project::projected(
            scene.state.insert(k, r),
            scene.params,
        ) == scene.status,
{
    if scene.status.decision is None {
        chain::a_claim_takes_effect(scene.state, scene.params, k, r);
    }
}

/// The first live offer among some ids is one of them, and live; there is none
/// exactly where none of them is.
proof fn live_offer(
    ids: Seq<Seq<u8>>,
    m: Map<Seq<u8>, RecordView>,
    params: ParamsView,
    head: Seq<u8>,
    by: Color,
)
    ensures
        match first_live_offer(ids, m, params, head, by) {
            Some(id) => ids.contains(id) && is_live_offer(m[id], params, head, by),
            None => forall|i: int|
                0 <= i < ids.len() ==> !is_live_offer(m[#[trigger] ids[i]], params, head, by),
        },
    decreases ids.len(),
{
    if ids.len() > 0 && !is_live_offer(m[ids[0]], params, head, by) {
        let rest = ids.drop_first();
        live_offer(rest, m, params, head, by);
        match first_live_offer(rest, m, params, head, by) {
            Some(id) => {
                let i = rest.index_of(id);
                assert(ids[i + 1] == id);
            },
            None => {
                assert forall|i: int| 0 <= i < ids.len() implies !is_live_offer(
                    m[#[trigger] ids[i]],
                    params,
                    head,
                    by,
                ) by {
                    if i > 0 {
                        assert(rest[i - 1] == ids[i]);
                    }
                }
            },
        }
    } else if ids.len() > 0 {
        assert(ids[0] == first_live_offer(ids, m, params, head, by)->0);
    }
}

/// An acceptance can be signed exactly where it ends the game: once its record
/// is there, the draw is agreed; and where none can be signed in an undecided
/// game, no acceptance of ours would have ended it.
pub proof fn a_planned_acceptance_draws(scene: Scene, k: Seq<u8>, r: RecordView)
    requires
        coherent(scene),
        scene.state.dom().finite(),
        !scene.state.contains_key(k),
        scene.params.color_of(r.signer) == Some(color_of_side(scene.side)),
        r.body is DrawAccept,
    ensures
        planned_acceptance(scene) == Ok::<BodyView, SessionErrorView>(r.body)
            ==> project::projected(scene.state.insert(k, r), scene.params).decision == Some(
            project::Decision { winner: None, reason: project::Reason::DrawAgreement },
        ),
        planned_acceptance(scene) is Err && scene.status.decision is None ==> project::projected(
            scene.state.insert(k, r),
            scene.params,
        ) == scene.status,
{
    if scene.status.decision is None {
        let ids = bytemap::ascending(scene.state.dom());
        bytemap::ascending_lists(scene.state.dom());
        let head = project::head_of(scene.status.chain, scene.params);
        live_offer(ids, scene.state, scene.params, head, color_of_side(scene.side).opposite());
        chain::an_acceptance_takes_effect(scene.state, scene.params, k, r);
        let offer = r.body->DrawAccept_offer;
        if scene.state.contains_key(offer) {
            assert(scene.state.dom().contains(offer));
            let i = choose|i: int| 0 <= i < ids.len() && ids[i] == offer;
            assert(ids[i] == offer);
        }
    }
}

/// An offer reaches the opponent: once the record of a planned offer is there,
/// the game stands as it did, and the opponent has a draw to accept.
pub proof fn a_planned_offer_can_be_accepted(scene: Scene, k: Seq<u8>, r: RecordView)
    requires
        coherent(scene),
        scene.state.dom().finite(),
        !scene.state.contains_key(k),
        scene.params.color_of(r.signer) == Some(color_of_side(scene.side)),
        planned_offer(scene) == Ok::<BodyView, SessionErrorView>(r.body),
        forall|j: Seq<u8>| #[trigger]
            scene.state.contains_key(j) ==> !(scene.state[j].body is DrawAccept
                && scene.state[j].body->DrawAccept_offer == k),
    ensures
        ({
            let more = scene.state.insert(k, r);
            let theirs = Scene {
                side: Side::of(color_of_side(scene.side).opposite()),
                state: more,
                status: project::projected(more, scene.params),
                ..scene
            };
            &&& theirs.status == scene.status
            &&& planned_acceptance(theirs) is Ok
        }),
{
    let more = scene.state.insert(k, r);
    chain::an_offer_alone_changes_nothing(scene.state, scene.params, k, r);
    let ids = bytemap::ascending(more.dom());
    bytemap::ascending_lists(more.dom());
    let head = project::head_of(scene.status.chain, scene.params);
    live_offer(ids, more, scene.params, head, color_of_side(scene.side));
    assert(more.dom().contains(k));
    let i = choose|i: int| 0 <= i < ids.len() && ids[i] == k;
    assert(ids[i] == k);
    assert(is_live_offer(more[k], scene.params, head, color_of_side(scene.side)));
}

/// Only one of the two players can move at a time, and while one can, both can
/// resign and offer a draw.
pub proof fn the_players_move_in_turn(scene: Scene, other: Scene, uci: Seq<char>)
    requires
        planned_move(scene, uci) is Ok,
        other == (Scene { side: Side::of(color_of_side(scene.side).opposite()), ..scene }),
    ensures
        planned_move(other, uci) == Err::<BodyView, SessionErrorView>(
            SessionErrorView::NotYourTurn,
        ),
        planned_resignation(scene) is Ok && planned_resignation(other) is Ok,
        planned_offer(scene) is Ok && planned_offer(other) is Ok,
        planned_claim(other) == Err::<BodyView, SessionErrorView>(
            SessionErrorView::NotYoursToClaim,
        ),
{
}

/// In a game that is over nothing can be planned, by either player.
pub proof fn nothing_is_planned_after_the_end(scene: Scene, uci: Seq<char>)
    requires
        scene.status.decision is Some,
    ensures
        planned_move(scene, uci) == Err::<BodyView, SessionErrorView>(SessionErrorView::GameOver),
        planned_resignation(scene) == Err::<BodyView, SessionErrorView>(SessionErrorView::GameOver),
        planned_offer(scene) == Err::<BodyView, SessionErrorView>(SessionErrorView::GameOver),
        planned_acceptance(scene) == Err::<BodyView, SessionErrorView>(SessionErrorView::GameOver),
        planned_claim(scene) == Err::<BodyView, SessionErrorView>(SessionErrorView::GameOver),
{
}

/// A move that is planned in turn is the one that goes on top of the chain: at
/// the ply after it, on the last of its ids, as it would be planned at that ply
/// without asking whether it is legal.
pub proof fn a_planned_move_goes_on_top(scene: Scene, uci: Seq<char>)
    requires
        coherent(scene),
        planned_move(scene, uci) is Ok,
    ensures
        planned_move(scene, uci)->Ok_0 is Move,
        planned_move(scene, uci)->Ok_0->Move_ply == scene.status.ply + 1,
        planned_move(scene, uci)->Ok_0->Move_uci == uci,
        planned_move_at(scene, planned_move(scene, uci)->Ok_0->Move_ply, uci) == planned_move(
            scene,
            uci,
        ),
{
}

/// A move can be planned at every ply that the chain reaches and the one after
/// it, on the id before it, and at no other; before the first ply, it is on top
/// of the beginning of the game too.
pub proof fn a_move_is_planned_on_the_one_before(scene: Scene, ply: u16, uci: Seq<char>)
    requires
        coherent(scene),
        1 <= ply,
    ensures
        planned_move_at(scene, ply, uci) is Ok <==> ply <= scene.status.ply + 1,
        planned_move_at(scene, ply, uci) matches Ok(body) ==> body == (BodyView::Move {
            ply,
            parent: project::head_of(scene.status.chain.take(ply - 1), scene.params),
            uci,
        }),
        planned_move_at(scene, 0, uci) == Ok::<BodyView, SessionErrorView>(
            BodyView::Move { ply: 0, parent: scene.params.genesis(), uci },
        ),
{
}

/// What a client plans from a state, the delegate does not call illegal when it
/// holds that state itself.
pub proof fn a_planned_move_is_not_called_illegal(scene: Scene, uci: Seq<char>, raw: Seq<u8>)
    requires
        coherent(scene),
        state::decoded_state(raw) == Some(scene.state),
        planned_move(scene, uci) is Ok,
    ensures
        !crate::delegate::shown_illegal(
            Some(raw),
            scene.params,
            planned_move(scene, uci)->Ok_0,
        ),
{
}

// ---------------------------------------------------------------------------
// What holds of what is read.
// ---------------------------------------------------------------------------

/// The same bytes are read in the same way, whether a game is opened, migrated
/// or followed; only where there is no contract at all do they differ: to open
/// one that is not there yet is to find nobody has moved, and to migrate one that
/// is gone is an error that names it.
pub proof fn the_same_bytes_read_the_same(from: Seq<u8>, raw: Seq<u8>)
    ensures
        fetched(Some(raw)) is Ok <==> carried_over(from, Some(raw)) is Ok,
        fetched(Some(raw)) is Ok ==> fetched(Some(raw))->Ok_0 == carried_over(
            from,
            Some(raw),
        )->Ok_0,
        state_payload(raw) is Ok <==> fetched(Some(raw)) is Ok,
        state_payload(raw) matches Ok(Some(m)) ==> fetched(Some(raw))->Ok_0 == m,
        state_payload(raw) matches Ok(None) ==> fetched(Some(raw))->Ok_0 == Map::<
            Seq<u8>,
            RecordView,
        >::empty(),
        fetched(None) == Ok::<_, SessionErrorView>(Map::<Seq<u8>, RecordView>::empty()),
        carried_over(from, None) == Err::<Map<Seq<u8>, RecordView>, SessionErrorView>(
            SessionErrorView::OldContractGone(from),
        ),
{
}

/// A notification that cannot be read leaves what is held as it was, unless it
/// carries both a state and a delta and only the delta is bad: the state it
/// carries is then taken in. One that can be read is taken in as what it carries,
/// a state before a delta.
pub proof fn a_notification_is_taken_in_as_what_it_carries(
    m: Map<Seq<u8>, RecordView>,
    raw: Seq<u8>,
    delta: Seq<u8>,
    params: ParamsView,
)
    ensures
        with_update(m, UpdateView::State(raw), params).1 is Some ==> with_update(
            m,
            UpdateView::State(raw),
            params,
        ).0 == m,
        with_update(m, UpdateView::Delta(delta), params).1 is Some ==> with_update(
            m,
            UpdateView::Delta(delta),
            params,
        ).0 == m,
        ({
            let first = with_update(m, UpdateView::State(raw), params);
            with_update(m, UpdateView::StateAndDelta { state: raw, delta }, params) == if first.1
                is Some {
                first
            } else {
                with_update(first.0, UpdateView::Delta(delta), params)
            }
        }),
        raw.len() == 0 ==> with_update(m, UpdateView::State(raw), params) == (
            m,
            None::<SessionErrorView>,
        ) && with_update(m, UpdateView::Delta(raw), params) == (m, None::<SessionErrorView>),
{
}

/// The opponent is behind for each record they signed that only the previous
/// contract holds, and for no other: not for one of ours, and not for one that
/// the current contract holds as well.
pub proof fn only_what_the_opponent_left_counts(
    current: Map<Seq<u8>, RecordView>,
    previous: Map<Seq<u8>, RecordView>,
    ours: Seq<u8>,
    k: Seq<u8>,
    r: RecordView,
)
    requires
        !previous.contains_key(k),
    ensures
        !left_behind(current, Map::<Seq<u8>, RecordView>::empty(), ours),
        left_behind(current, previous.insert(k, r), ours) <==> left_behind(current, previous, ours)
            || r.signer != ours && !current.contains_key(k),
{
    let more = previous.insert(k, r);
    assert(more.contains_key(k));
    if left_behind(current, previous, ours) {
        let j = choose|j: Seq<u8>| #[trigger]
            previous.contains_key(j) && !current.contains_key(j) && previous[j].signer != ours;
        assert(more.contains_key(j));
    }
    if left_behind(current, more, ours) {
        let j = choose|j: Seq<u8>| #[trigger]
            more.contains_key(j) && !current.contains_key(j) && more[j].signer != ours;
        if j != k {
            assert(previous.contains_key(j));
        }
    }
}

/// A client that follows a game takes in what the contract takes: an update that
/// the contract accepts leaves the client with the same state.
pub proof fn a_client_takes_in_what_the_contract_takes(
    m: Map<Seq<u8>, RecordView>,
    update: UpdateView,
    params: ParamsView,
)
    requires
        algebra::sound(m, params),
        algebra::settled(m, params),
        update is State || update is Delta,
    ensures
        contract::update_applied(m, update, params) matches Ok(next) ==> with_update(
            m,
            update,
            params,
        ) == (next, None::<SessionErrorView>),
{
    algebra::empty_is_the_identity(m, params);
}

/// Of several offers that could be accepted, the one with the smallest id is.
pub proof fn the_smallest_offer_is_accepted(scene: Scene, k: Seq<u8>)
    requires
        scene.state.dom().finite(),
        scene.state.contains_key(k),
        is_live_offer(
            scene.state[k],
            scene.params,
            project::head_of(scene.status.chain, scene.params),
            color_of_side(scene.side).opposite(),
        ),
        scene.status.decision is None,
    ensures
        planned_acceptance(scene) matches Ok(BodyView::DrawAccept { offer, .. })
            && crate::bytes::lex_le(offer, k),
{
    let ids = bytemap::ascending(scene.state.dom());
    bytemap::ascending_lists(scene.state.dom());
    let head = project::head_of(scene.status.chain, scene.params);
    let by = color_of_side(scene.side).opposite();
    assert(scene.state.dom().contains(k));
    let i = choose|i: int| 0 <= i < ids.len() && ids[i] == k;
    first_comes_first(ids, scene.state, scene.params, head, by, i);
}

proof fn first_comes_first(
    ids: Seq<Seq<u8>>,
    m: Map<Seq<u8>, RecordView>,
    params: ParamsView,
    head: Seq<u8>,
    by: Color,
    i: int,
)
    requires
        bytemap::is_ascending(ids),
        0 <= i < ids.len(),
        is_live_offer(m[ids[i]], params, head, by),
    ensures
        first_live_offer(ids, m, params, head, by) matches Some(id) && crate::bytes::lex_le(
            id,
            ids[i],
        ),
    decreases ids.len(),
{
    if is_live_offer(m[ids[0]], params, head, by) {
        if i > 0 {
            assert(crate::bytes::lex_lt(ids[0], ids[i]));
        }
    } else {
        let rest = ids.drop_first();
        assert forall|a: int, b: int| 0 <= a < b < rest.len() implies crate::bytes::lex_lt(
            #[trigger] rest[a],
            #[trigger] rest[b],
        ) by {
            assert(crate::bytes::lex_lt(ids[a + 1], ids[b + 1]));
        }
        assert(rest[i - 1] == ids[i]);
        first_comes_first(rest, m, params, head, by, i - 1);
    }
}

/// Every legal move can be planned by the player to move, and nothing else can;
/// a draw can be offered in every undecided game, at the head of it.
pub proof fn every_legal_move_can_be_planned(scene: Scene, uci: Seq<char>)
    requires
        coherent(scene),
        scene.status.ply < 65535,
    ensures
        planned_move(scene, uci) is Ok <==> {
            &&& scene.status.decision is None
            &&& color_of_side(scene.side) == scene.status.turn
            &&& project::moves_listed(scene.status).contains(uci)
        },
        planned_offer(scene) is Ok <==> scene.status.decision is None,
        planned_offer(scene) matches Ok(body) ==> body is DrawOffer && body->DrawOffer_at
            == project::head_of(scene.status.chain, scene.params) && body->DrawOffer_ply
            == scene.status.ply,
{
}

/// A game that this build cannot open is refused with both contracts named, the
/// one that this build derives and the one that the game is bound to, and with
/// the label to migrate; one that it can open is not refused.
pub proof fn a_bound_mismatch_names_both(game: BoundView, wasm: Seq<u8>)
    ensures
        mismatch(game, wasm) is None <==> contract_of(wasm, game.params) == game.contract,
        mismatch(game, wasm) matches Some(e) ==> e == (SessionErrorView::BoundMismatch {
            label: game.label,
            derived: contract_of(wasm, game.params),
            recorded: game.contract,
        }),
{
}

/// A move out of turn is refused for that, whatever it is; in turn, one that is
/// not legal is refused by its own text. A claim out of turn is refused for that;
/// in turn, one without ground is refused with what was counted.
pub proof fn a_refused_plan_says_why(scene: Scene, uci: Seq<char>)
    requires
        coherent(scene),
        scene.status.decision is None,
    ensures
        color_of_side(scene.side) != scene.status.turn ==> planned_move(scene, uci) == Err::<
            BodyView,
            SessionErrorView,
        >(SessionErrorView::NotYourTurn) && planned_claim(scene) == Err::<
            BodyView,
            SessionErrorView,
        >(SessionErrorView::NotYoursToClaim),
        color_of_side(scene.side) == scene.status.turn && !project::moves_listed(
            scene.status,
        ).contains(uci) ==> planned_move(scene, uci) == Err::<BodyView, SessionErrorView>(
            SessionErrorView::NotLegal(uci),
        ),
        color_of_side(scene.side) == scene.status.turn && scene.status.repetitions < 3
            && scene.status.halfmove_clock < 100 ==> planned_claim(scene) == Err::<
            BodyView,
            SessionErrorView,
        >(
            SessionErrorView::NothingToClaim {
                repetitions: scene.status.repetitions,
                halfmoves: scene.status.halfmove_clock,
            },
        ),
{
}

/// An acceptance and a claim are for the ply the game stands at, and a claim for
/// its head.
pub proof fn a_draw_is_for_where_the_game_stands(scene: Scene)
    requires
        coherent(scene),
        scene.status.ply <= 65535,
    ensures
        planned_acceptance(scene) matches Ok(body) ==> body is DrawAccept && body.ply() == Some(
            scene.status.ply as u16,
        ),
        planned_claim(scene) matches Ok(body) ==> body is DrawClaim && body.ply() == Some(
            scene.status.ply as u16,
        ) && body->DrawClaim_at == project::head_of(scene.status.chain, scene.params),
{
}

} // verus!
