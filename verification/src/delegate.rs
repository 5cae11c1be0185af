//! The delegate that holds per-game signing keys: it answers requests from what
//! is in the secret store.

use vstd::prelude::*;
use crate::bytes::{array32, same_text};
use crate::cbor;
use crate::crypto;
use crate::delegate_api;
use crate::delegate_api::{
    EntropyQuality, GameSummary, GameSummaryView, Refusal, RefusalView, Request, RequestView,
    Response, ResponseView,
};
use crate::delegate_policy;
use crate::delegate_policy::{
    classify_host_entropy, decide_bind, decide_rebind, decide_sign, derive_seed, same_origin,
    BindDecision, GameRecordView, HostEntropy, RebindDecision, SignDecision,
};
use crate::project;
use crate::project::project as project_state;
use crate::secrets;
use crate::secrets::SecretStore;
use crate::state;
use crate::state::GameState;
use crate::types;
use crate::types::{Body, BodyView, GameParams, ParamsView, Record, RecordView};

verus! {

// ---------------------------------------------------------------------------
// Entropy of the host.
// ---------------------------------------------------------------------------

/// `freenet_stdlib::rand::rand_bytes`: so many bytes from the host. Which ones,
/// nothing is said; outside a host they are all zero.
#[verifier::external_body]
fn host_draw(number: u32) -> (r: Vec<u8>)
    requires
        number <= 512,
    ensures
        r@.len() == number,
{
    freenet_stdlib::rand::rand_bytes(number)
}

/// One draw, with a failed one counted as zeros.
fn draw_or_zeros(drawn: Vec<u8>) -> (r: [u8; 32])
    ensures
        r@ == if drawn@.len() == 32 {
            drawn@
        } else {
            delegate_policy::zeros()
        },
{
    match array32(drawn.as_slice()) {
        Some(b) => b,
        None => {
            let zero: [u8; 32] = [0u8; 32];
            assert(zero@ =~= delegate_policy::zeros());
            zero
        },
    }
}

/// Two independent draws, so that a dead source can be told from a live one. A
/// live answer is never all zeros.
pub fn probe_host_entropy() -> (r: HostEntropy)
    ensures
        r matches HostEntropy::Live(b) ==> !delegate_policy::all_zero(b@),
{
    let first = draw_or_zeros(host_draw(32));
    let second = draw_or_zeros(host_draw(32));
    classify_host_entropy(first, second)
}

// ---------------------------------------------------------------------------
// Creating a key.
// ---------------------------------------------------------------------------

/// The seed that a label's key is made of.
pub open spec fn seed_for(
    host: HostEntropy,
    caller: Option<Seq<u8>>,
    label: Seq<char>,
) -> Seq<u8> {
    crypto::sha256(delegate_policy::seed_input(host, caller, label))
}

/// The quality of a key made with this host.
pub open spec fn quality_for(host: HostEntropy) -> EntropyQuality {
    if host is Live {
        EntropyQuality::HostBacked
    } else {
        EntropyQuality::Degraded
    }
}

/// What is stored for a new key: who made it, its quality, and the seed.
pub open spec fn with_key(
    store: Map<Seq<u8>, Seq<u8>>,
    origin: Option<Seq<u8>>,
    label: Seq<char>,
    seed: Seq<u8>,
    quality: EntropyQuality,
) -> Map<Seq<u8>, Seq<u8>> {
    let owned = match origin {
        Some(id) => store.insert(secrets::named(secrets::OWNER_PREFIX@, label), id),
        None => store,
    };
    owned.insert(
        secrets::named(secrets::QUALITY_PREFIX@, label),
        cbor::cbor_bytes(cbor::Cbor::Text(quality.text())),
    ).insert(secrets::named(secrets::KEY_PREFIX@, label), seed)
}

/// What is stored apart from a label's key, its quality, and who made it.
pub open spec fn without_key(
    store: Map<Seq<u8>, Seq<u8>>,
    label: Seq<char>,
) -> Map<Seq<u8>, Seq<u8>> {
    store.remove(secrets::named(secrets::KEY_PREFIX@, label)).remove(
        secrets::named(secrets::QUALITY_PREFIX@, label),
    ).remove(secrets::named(secrets::OWNER_PREFIX@, label))
}

/// The refusal of a request to create a key, if it is refused before anything
/// is written.
pub open spec fn create_refusal(
    store: Map<Seq<u8>, Seq<u8>>,
    host: HostEntropy,
    caller: Option<Seq<u8>>,
    label: Seq<char>,
) -> Option<RefusalView> {
    if store.contains_key(secrets::named(secrets::KEY_PREFIX@, label)) {
        Some(RefusalView::LabelExists)
    } else if host is Dead && delegate_policy::contribution(caller) is None {
        Some(RefusalView::NoEntropy)
    } else {
        None
    }
}

/// The answer to a request to create a key, with this host. Where a write
/// fails, nothing of the label is left behind.
#[verifier::opaque]
pub open spec fn creates(
    host: HostEntropy,
    label: Seq<char>,
    caller: Option<Seq<u8>>,
    origin: Option<Seq<u8>>,
    before: Map<Seq<u8>, Seq<u8>>,
    dependable: bool,
    after: Map<Seq<u8>, Seq<u8>>,
    r: ResponseView,
) -> bool {
    let seed = seed_for(host, caller, label);
    match create_refusal(before, host, caller, label) {
        Some(e) => r == ResponseView::Refused(e) && after == before,
        None => {
            ||| {
                &&& r == (ResponseView::GameKey {
                    label,
                    public_key: crypto::public_key(seed),
                    entropy: quality_for(host),
                })
                &&& after == with_key(before, origin, label, seed, quality_for(host))
                &&& secrets::quality_in(after, label) == Some(quality_for(host))
                &&& secrets::seed_in(after, label) == Some(seed)
            }
            ||| {
                &&& !dependable
                &&& r == ResponseView::Refused(RefusalView::StoreFailed)
                &&& after == without_key(before, label)
            }
        },
    }
}

/// The answer to a request to create a key, whatever the host contributes.
#[verifier::opaque]
pub open spec fn creates_somehow(
    label: Seq<char>,
    caller: Option<Seq<u8>>,
    origin: Option<Seq<u8>>,
    before: Map<Seq<u8>, Seq<u8>>,
    dependable: bool,
    after: Map<Seq<u8>, Seq<u8>>,
    r: ResponseView,
) -> bool {
    exists|host: HostEntropy| #[trigger]
        creates(host, label, caller, origin, before, dependable, after, r)
}

/// Forget a label's key, its quality, and who made it.
fn forget_key<S: SecretStore>(store: &mut S, label: &str)
    ensures
        final(store).contents() == without_key(old(store).contents(), label@),
{
    store.remove(secrets::key_secret(label).as_slice());
    store.remove(secrets::quality_secret(label).as_slice());
    store.remove(secrets::owner_secret(label).as_slice());
}

/// Put down who made a label's key, its quality, and the seed, in that order.
/// Returns false if a write fails.
fn store_key<S: SecretStore>(
    store: &mut S,
    origin: Option<[u8; 32]>,
    label: &str,
    seed: &[u8; 32],
    quality: EntropyQuality,
) -> (ok: bool)
    ensures
        ok ==> final(store).contents() == with_key(
            old(store).contents(),
            cbor::option_view(origin),
            label@,
            seed@,
            quality,
        ),
        !ok ==> without_key(final(store).contents(), label@) == without_key(
            old(store).contents(),
            label@,
        ),
        ok ==> secrets::quality_in(final(store).contents(), label@) == Some(quality),
        ok ==> secrets::seed_in(final(store).contents(), label@) == Some(seed@),
        old(store).dependable() ==> ok,
{
    let ghost before = store.contents();
    if let Some(id) = origin {
        if !store.set(secrets::owner_secret(label).as_slice(), id.as_slice()) {
            return false;
        }
    }
    assert(without_key(store.contents(), label@) =~= without_key(before, label@));
    let encoded = quality.encode();
    if !store.set(secrets::quality_secret(label).as_slice(), encoded.as_slice()) {
        return false;
    }
    assert(without_key(store.contents(), label@) =~= without_key(before, label@));
    proof {
        secrets::namespaces_never_meet(label@, label@, seed@);
    }
    store.set(secrets::key_secret(label).as_slice(), seed.as_slice())
}

/// Create a signing key for a label that has none.
///
/// Where a write fails, what was written is taken back: a key without an owner
/// would look like that of a caller without an origin, and a retry would find
/// the label taken.
pub fn handle_create_game_key<S: SecretStore>(
    store: &mut S,
    origin: Option<[u8; 32]>,
    label: String,
    caller_entropy: Option<[u8; 32]>,
    host: HostEntropy,
) -> (r: Response)
    ensures
        creates(
            host,
            label@,
            cbor::option_view(caller_entropy),
            cbor::option_view(origin),
            old(store).contents(),
            old(store).dependable(),
            final(store).contents(),
            r@,
        ),
{
    proof {
        reveal(creates);
    }
    if store.get(secrets::key_secret(label.as_str()).as_slice()).is_some() {
        return Response::Refused(Refusal::LabelExists);
    }
    let (seed, quality) = match derive_seed(host, caller_entropy, label.as_str()) {
        Ok(v) => v,
        Err(refusal) => return Response::Refused(refusal),
    };
    let key = crypto::signing_key(&seed);
    let public = crypto::verifying_key(&key);
    let public_key = crypto::verifying_key_bytes(&public);
    if !store_key(store, origin, label.as_str(), &seed, quality) {
        forget_key(store, label.as_str());
        return Response::Refused(Refusal::StoreFailed);
    }
    Response::GameKey { label, public_key, entropy: quality }
}

// ---------------------------------------------------------------------------
// Binding and rebinding.
// ---------------------------------------------------------------------------

/// The record to store for a request to bind, or the refusal.
pub open spec fn bind_answer(
    store: Map<Seq<u8>, Seq<u8>>,
    origin: Option<Seq<u8>>,
    label: Seq<char>,
    params: ParamsView,
    contract: Seq<u8>,
) -> Result<GameRecordView, RefusalView> {
    match secrets::seed_in(store, label) {
        None => Err(RefusalView::UnknownLabel),
        Some(seed) => {
            let existing = secrets::bound_game_in(store, label);
            let other = secrets::game_in(store, params.game_id());
            if secrets::owner_in(store, label) != origin {
                Err(RefusalView::WrongOrigin)
            } else if existing is None && (other matches Some(rec) && rec.label != label) {
                Err(RefusalView::AlreadyBound { game_id: params.game_id() })
            } else {
                delegate_policy::bind_outcome(
                    existing,
                    label,
                    crypto::public_key(seed),
                    params,
                    contract,
                    match secrets::quality_in(store, label) {
                        Some(q) => q,
                        None => EntropyQuality::Degraded,
                    },
                    origin,
                )
            }
        },
    }
}

/// A game record was stored, and is found again by its game and by its label.
pub open spec fn stores(
    before: Map<Seq<u8>, Seq<u8>>,
    rec: GameRecordView,
    after: Map<Seq<u8>, Seq<u8>>,
) -> bool {
    &&& after == secrets::with_game(before, rec)
    &&& secrets::game_in(after, rec.params.game_id()) == Some(rec)
    &&& secrets::bound_game_in(after, rec.label) == Some(rec)
}

/// A write of a game record failed: nothing was stored, or the record without
/// the way to it from its label.
pub open spec fn stores_in_part(
    before: Map<Seq<u8>, Seq<u8>>,
    rec: GameRecordView,
    after: Map<Seq<u8>, Seq<u8>>,
) -> bool {
    ||| after == before
    ||| {
        &&& after == secrets::with_record(before, rec)
        &&& secrets::game_in(after, rec.params.game_id()) == Some(rec)
    }
}

/// The answer to a bind or rebind: a refusal leaves the store alone; otherwise
/// the record is stored and the game named, unless a write fails.
#[verifier::opaque]
pub open spec fn binds(
    answer: Result<GameRecordView, RefusalView>,
    before: Map<Seq<u8>, Seq<u8>>,
    dependable: bool,
    after: Map<Seq<u8>, Seq<u8>>,
    r: ResponseView,
) -> bool {
    match answer {
        Err(e) => r == ResponseView::Refused(e) && after == before,
        Ok(rec) => {
            ||| {
                &&& r == (ResponseView::Bound { game_id: rec.params.game_id() })
                &&& stores(before, rec, after)
            }
            ||| {
                &&& !dependable
                &&& r == ResponseView::Refused(RefusalView::StoreFailed)
                &&& stores_in_part(before, rec, after)
            }
        },
    }
}

/// Bind the key for a label to a game.
///
/// A label belongs to whoever created it. One delegate does not hold both
/// sides of a game under two labels: the second bind would overwrite the first
/// player's ply counter.
pub fn handle_bind_game<S: SecretStore>(
    store: &mut S,
    origin: Option<[u8; 32]>,
    label: String,
    params: GameParams,
    contract: [u8; 32],
) -> (r: Response)
    ensures
        binds(
            bind_answer(
                old(store).contents(),
                cbor::option_view(origin),
                label@,
                params@,
                contract@,
            ),
            old(store).contents(),
            old(store).dependable(),
            final(store).contents(),
            r@,
        ),
{
    proof {
        reveal(binds);
    }
    let seed = match secrets::load_seed(store, label.as_str()) {
        Some(s) => s,
        None => return Response::Refused(Refusal::UnknownLabel),
    };
    let owner = secrets::load_owner(store, label.as_str());
    if !same_origin(&owner, &origin) {
        return Response::Refused(Refusal::WrongOrigin);
    }
    let key = crypto::signing_key(&seed);
    let public = crypto::verifying_key(&key);
    let public_key = crypto::verifying_key_bytes(&public);
    let existing = secrets::load_bound_game(store, label.as_str());
    if existing.is_none() {
        let game_id = params.game_id();
        if let Some(other) = secrets::load_game(store, &game_id) {
            if !same_text(other.label.as_str(), label.as_str()) {
                return Response::Refused(Refusal::AlreadyBound { game_id });
            }
        }
    }
    let quality: EntropyQuality = match secrets::load_quality(store, label.as_str()) {
        Some(q) => q,
        None => EntropyQuality::Degraded,
    };
    match decide_bind(
        existing.as_ref(),
        label.as_str(),
        public_key,
        &params,
        contract,
        quality,
        origin,
    ) {
        BindDecision::Refuse(refusal) => Response::Refused(refusal),
        BindDecision::Bind { record } => {
            let game_id = record.game_id();
            if !secrets::store_game(store, &record) {
                return Response::Refused(Refusal::StoreFailed);
            }
            Response::Bound { game_id }
        },
    }
}

/// Point `label`'s bound game at another contract instance.
pub fn handle_rebind_game<S: SecretStore>(
    store: &mut S,
    origin: Option<[u8; 32]>,
    label: String,
    contract: [u8; 32],
) -> (r: Response)
    ensures
        binds(
            delegate_policy::rebind_outcome(
                secrets::bound_game_in(old(store).contents(), label@),
                label@,
                contract@,
                cbor::option_view(origin),
            ),
            old(store).contents(),
            old(store).dependable(),
            final(store).contents(),
            r@,
        ),
{
    proof {
        reveal(binds);
    }
    let existing = secrets::load_bound_game(store, label.as_str());
    match decide_rebind(existing.as_ref(), label.as_str(), contract, origin) {
        RebindDecision::Refuse(refusal) => Response::Refused(refusal),
        RebindDecision::Rebind { record } => {
            let game_id = record.game_id();
            if !secrets::store_game(store, &record) {
                return Response::Refused(Refusal::StoreFailed);
            }
            Response::Bound { game_id }
        },
    }
}

// ---------------------------------------------------------------------------
// Signing.
// ---------------------------------------------------------------------------

/// The local replica of the contract shows that the move is illegal: the game
/// is over, or the replica is at this ply and the move is none of the legal
/// ones. Without a replica, or with one at another ply, nothing is known.
pub open spec fn shown_illegal(
    local: Option<Seq<u8>>,
    params: ParamsView,
    body: BodyView,
) -> bool {
    match body {
        BodyView::Move { ply, uci, .. } => match local {
            Some(raw) => match state::decoded_state(raw) {
                Some(m) => {
                    let status = project::projected(m, params);
                    status.decision is Some || status.ply + 1 == ply && !project::moves_listed(
                        status,
                    ).contains(uci)
                },
                None => false,
            },
            None => false,
        },
        _ => false,
    }
}

/// The bytes of a replica, if there is one.
pub open spec fn raw_view(local: Option<Vec<u8>>) -> Option<Seq<u8>> {
    match local {
        Some(v) => Some(v@),
        None => None,
    }
}

/// Whether a text is in a list of texts.
pub(crate) fn listed(list: &Vec<String>, text: &str) -> (r: bool)
    ensures
        r == project::text_views(list@).contains(text@),
{
    let ghost all = project::text_views(list@);
    let mut i: usize = 0;
    while i < list.len()
        invariant
            i <= list.len(),
            all == project::text_views(list@),
            forall|j: int| 0 <= j < i ==> #[trigger] all[j] != text@,
        decreases list.len() - i,
    {
        if same_text(list[i].as_str(), text) {
            assert(all[i as int] == text@);
            return true;
        }
        i += 1;
    }
    false
}

/// Whether a local replica shows that a move is illegal.
///
/// Best-effort only. The ply counter is the actual guarantee; requiring a
/// replica here would let a cold cache lock a player out of their own game.
pub fn locally_known_to_be_illegal(
    local: &Option<Vec<u8>>,
    params: &GameParams,
    body: &Body,
) -> (r: bool)
    ensures
        r == shown_illegal(raw_view(*local), params@, body@),
{
    let (ply, uci) = match body {
        Body::Move { ply, uci, .. } => (*ply, uci),
        _ => return false,
    };
    let raw = match local {
        Some(raw) => raw,
        None => return false,
    };
    let state = match GameState::decode(raw.as_slice()) {
        Some(s) => s,
        None => return false,
    };
    let status = project_state(&state, params);
    if status.is_over() {
        return true;
    }
    // Only judge when the local replica agrees about which ply is next.
    if status.ply as u32 + 1 != ply as u32 {
        return false;
    }
    let moves = project::legal_moves(&state, params);
    !listed(&moves, uci.as_str())
}

/// The record to store before signing and the seed to sign with, or the
/// refusal.
pub open spec fn sign_answer(
    store: Map<Seq<u8>, Seq<u8>>,
    origin: Option<Seq<u8>>,
    game: Seq<u8>,
    body: BodyView,
    local: Option<Seq<u8>>,
) -> Result<(GameRecordView, Seq<u8>), RefusalView> {
    match secrets::game_in(store, game) {
        None => Err(RefusalView::UnknownGame),
        Some(rec) => match secrets::seed_in(store, rec.label) {
            None => Err(RefusalView::UnknownLabel),
            Some(seed) => if shown_illegal(local, rec.params, body) {
                Err(RefusalView::IllegalMove)
            } else {
                match delegate_policy::sign_outcome(rec, body, origin) {
                    Ok(next) => Ok((next, seed)),
                    Err(e) => Err(e),
                }
            },
        },
    }
}

/// The record that a seed signs.
pub open spec fn signed_by(seed: Seq<u8>, params: ParamsView, body: BodyView) -> RecordView {
    RecordView {
        body,
        signer: crypto::public_key(seed),
        sig: crypto::signature_over(seed, types::payload(params.game_id(), body)),
    }
}

/// The answer to a request to sign: a refusal leaves the store alone; a
/// signature is only given once the record that guards it is stored, and what
/// the key of a player signs, within the ply cap, is valid.
pub open spec fn signs(
    answer: Result<(GameRecordView, Seq<u8>), RefusalView>,
    body: BodyView,
    before: Map<Seq<u8>, Seq<u8>>,
    dependable: bool,
    after: Map<Seq<u8>, Seq<u8>>,
    r: ResponseView,
) -> bool {
    match answer {
        Err(e) => r == ResponseView::Refused(e) && after == before,
        Ok((rec, seed)) => {
            ||| {
                &&& r == (ResponseView::Signed { record: signed_by(seed, rec.params, body) })
                &&& signed_by(seed, rec.params, body).valid(rec.params) <==> {
                    &&& rec.params.color_of(crypto::public_key(seed)) is Some
                    &&& body.ply() matches Some(p) ==> p <= types::MAX_PLY
                }
                &&& stores(before, rec, after)
            }
            ||| {
                &&& !dependable
                &&& r == ResponseView::Refused(RefusalView::StoreFailed)
                &&& stores_in_part(before, rec, after)
            }
        },
    }
}

/// Sign a body, given what the node knows of the contract.
pub fn sign_with_replica<S: SecretStore>(
    store: &mut S,
    origin: Option<[u8; 32]>,
    game_id: [u8; 32],
    body: Body,
    local: Option<Vec<u8>>,
) -> (r: Response)
    ensures
        signs(
            sign_answer(
                old(store).contents(),
                cbor::option_view(origin),
                game_id@,
                body@,
                raw_view(local),
            ),
            body@,
            old(store).contents(),
            old(store).dependable(),
            final(store).contents(),
            r@,
        ),
{
    let record = match secrets::load_game(store, &game_id) {
        Some(r) => r,
        None => return Response::Refused(Refusal::UnknownGame),
    };
    let seed = match secrets::load_seed(store, record.label.as_str()) {
        Some(s) => s,
        None => return Response::Refused(Refusal::UnknownLabel),
    };
    if locally_known_to_be_illegal(&local, &record.params, &body) {
        return Response::Refused(Refusal::IllegalMove);
    }
    match decide_sign(&record, &body, origin) {
        SignDecision::Refuse(refusal) => Response::Refused(refusal),
        SignDecision::Sign { updated } => {
            // Persist before handing out the signature: a signature whose ply
            // was not recorded could be followed by a different one.
            if !secrets::store_game(store, &updated) {
                return Response::Refused(Refusal::StoreFailed);
            }
            let key = crypto::signing_key(&seed);
            let signed = Record::sign(&key, &record.params, body);
            Response::Signed { record: signed }
        },
    }
}

/// What the node holds of the contract of a game, where the game is known.
pub open spec fn replica_of<S: SecretStore>(store: S, game: Seq<u8>) -> Option<Seq<u8>> {
    match secrets::game_in(store.contents(), game) {
        Some(rec) => store.replica(rec.contract),
        None => None,
    }
}

/// Sign a body. The node's local state of the contract that the game is bound
/// to, if it has any, is consulted first.
pub fn handle_sign<S: SecretStore>(
    store: &mut S,
    origin: Option<[u8; 32]>,
    game_id: [u8; 32],
    body: Body,
) -> (r: Response)
    ensures
        signs(
            sign_answer(
                old(store).contents(),
                cbor::option_view(origin),
                game_id@,
                body@,
                replica_of(*old(store), game_id@),
            ),
            body@,
            old(store).contents(),
            old(store).dependable(),
            final(store).contents(),
            r@,
        ),
{
    let local: Option<Vec<u8>> = match secrets::load_game(store, &game_id) {
        Some(record) => store.contract_state(&record.contract),
        None => None,
    };
    assert(raw_view(local) == replica_of(*store, game_id@));
    sign_with_replica(store, origin, game_id, body, local)
}

// ---------------------------------------------------------------------------
// Listing.
// ---------------------------------------------------------------------------

/// What is told of one label, if it has a key.
pub open spec fn summary_in(
    store: Map<Seq<u8>, Seq<u8>>,
    label: Seq<char>,
) -> Option<GameSummaryView> {
    match secrets::seed_in(store, label) {
        None => None,
        Some(seed) => Some(
            match secrets::bound_game_in(store, label) {
                Some(rec) => GameSummaryView {
                    label,
                    public_key: crypto::public_key(seed),
                    game_id: Some(rec.params.game_id()),
                    side: Some(rec.side),
                    last_signed_ply: rec.last_signed_ply,
                    entropy: Some(rec.entropy),
                    params: Some(rec.params),
                    contract: Some(rec.contract),
                    previous: rec.previous,
                },
                None => GameSummaryView {
                    label,
                    public_key: crypto::public_key(seed),
                    game_id: None,
                    side: None,
                    last_signed_ply: 0,
                    entropy: secrets::quality_in(store, label),
                    params: None,
                    contract: None,
                    previous: None,
                },
            },
        ),
    }
}

/// What is told of a list of labels: only of those that the caller created.
pub open spec fn summaries_in(
    store: Map<Seq<u8>, Seq<u8>>,
    origin: Option<Seq<u8>>,
    labels: Seq<Seq<char>>,
) -> Seq<GameSummaryView>
    decreases labels.len(),
{
    if labels.len() == 0 {
        Seq::empty()
    } else {
        let before = summaries_in(store, origin, labels.drop_last());
        let label = labels.last();
        match summary_in(store, label) {
            Some(s) => if secrets::owner_in(store, label) == origin {
                before.push(s)
            } else {
                before
            },
            None => before,
        }
    }
}

/// What is told of one label.
fn summarize_label<S: SecretStore>(store: &S, label: &String) -> (r: Option<GameSummary>)
    ensures
        match r {
            Some(s) => summary_in(store.contents(), label@) == Some(s@),
            None => summary_in(store.contents(), label@) is None,
        },
{
    let seed = match secrets::load_seed(store, label.as_str()) {
        Some(s) => s,
        None => return None,
    };
    let key = crypto::signing_key(&seed);
    let public = crypto::verifying_key(&key);
    let public_key = crypto::verifying_key_bytes(&public);
    match secrets::load_bound_game(store, label.as_str()) {
        Some(record) => {
            let game_id = record.game_id();
            Some(
                GameSummary {
                    label: label.clone(),
                    public_key,
                    game_id: Some(game_id),
                    side: Some(record.side),
                    last_signed_ply: record.last_signed_ply,
                    entropy: Some(record.entropy),
                    contract: Some(record.contract),
                    previous: record.previous,
                    params: Some(record.params),
                },
            )
        },
        None => Some(
            GameSummary {
                label: label.clone(),
                public_key,
                game_id: None,
                side: None,
                last_signed_ply: 0,
                entropy: secrets::load_quality(store, label.as_str()),
                params: None,
                contract: None,
                previous: None,
            },
        ),
    }
}

/// What is told of a list of labels: only of those that the caller created.
pub fn summarize_labels<S: SecretStore>(
    store: &S,
    origin: Option<[u8; 32]>,
    labels: &Vec<String>,
) -> (r: Vec<GameSummary>)
    ensures
        delegate_api::summary_views(r@) == summaries_in(
            store.contents(),
            cbor::option_view(origin),
            project::text_views(labels@),
        ),
{
    let ghost all = project::text_views(labels@);
    let mut games: Vec<GameSummary> = Vec::new();
    let mut i: usize = 0;
    assert(delegate_api::summary_views(games@) =~= Seq::empty());
    while i < labels.len()
        invariant
            i <= labels.len(),
            all == project::text_views(labels@),
            delegate_api::summary_views(games@) == summaries_in(
                store.contents(),
                cbor::option_view(origin),
                all.take(i as int),
            ),
        decreases labels.len() - i,
    {
        let label = &labels[i];
        assert(all.take(i + 1).drop_last() =~= all.take(i as int));
        assert(all.take(i + 1).last() == label@);
        // Only labels created by this same origin are visible. Otherwise any
        // web app could enumerate every label the user holds.
        let owner = secrets::load_owner(store, label.as_str());
        if same_origin(&owner, &origin) {
            if let Some(s) = summarize_label(store, label) {
                let ghost prior = games@;
                games.push(s);
                assert(delegate_api::summary_views(games@) =~= delegate_api::summary_views(
                    prior,
                ).push(s@));
            }
        }
        i += 1;
    }
    assert(all.take(i as int) =~= all);
    games
}

/// The games are what is told of exactly the labels with a key that the caller
/// created, in strictly ascending order of their labels, so that none comes
/// twice.
pub open spec fn lists_all_games(
    store: Map<Seq<u8>, Seq<u8>>,
    origin: Option<Seq<u8>>,
    games: Seq<GameSummaryView>,
) -> bool {
    &&& secrets::labels_ascend(games.map_values(|g: GameSummaryView| g.label))
    &&& forall|i: int|
        0 <= i < games.len() ==> tells_of(store, origin, (#[trigger] games[i]).label) && summary_in(
            store,
            games[i].label,
        ) == Some(games[i])
    &&& forall|label: Seq<char>| #[trigger]
        tells_of(store, origin, label) ==> exists|i: int|
            0 <= i < games.len() && (#[trigger] games[i]).label == label
}

/// The caller created the label, and there is a key for it.
pub open spec fn tells_of(
    store: Map<Seq<u8>, Seq<u8>>,
    origin: Option<Seq<u8>>,
    label: Seq<char>,
) -> bool {
    secrets::owner_in(store, label) == origin && secrets::seed_in(store, label) is Some
}

/// What is told of labels that ascend is told in that order, of each that the
/// caller created, once.
proof fn summaries_follow_the_labels(
    store: Map<Seq<u8>, Seq<u8>>,
    origin: Option<Seq<u8>>,
    labels: Seq<Seq<char>>,
)
    requires
        secrets::labels_ascend(labels),
    ensures
        secrets::labels_ascend(
            summaries_in(store, origin, labels).map_values(|g: GameSummaryView| g.label),
        ),
        forall|i: int|
            0 <= i < summaries_in(store, origin, labels).len() ==> tells_of(
                store,
                origin,
                (#[trigger] summaries_in(store, origin, labels)[i]).label,
            ) && labels.contains(summaries_in(store, origin, labels)[i].label) && summary_in(
                store,
                summaries_in(store, origin, labels)[i].label,
            ) == Some(summaries_in(store, origin, labels)[i]),
        forall|label: Seq<char>| #[trigger]
            labels.contains(label) && tells_of(store, origin, label) ==> exists|i: int|
                0 <= i < summaries_in(store, origin, labels).len() && (
                #[trigger] summaries_in(store, origin, labels)[i]).label == label,
    decreases labels.len(),
{
    let games = summaries_in(store, origin, labels);
    let names = games.map_values(|g: GameSummaryView| g.label);
    if labels.len() > 0 {
        let front = labels.drop_last();
        let last = labels.last();
        let before = summaries_in(store, origin, front);
        let earlier = before.map_values(|g: GameSummaryView| g.label);
        assert(secrets::labels_ascend(front)) by {
            assert forall|i: int, j: int| 0 <= i < j < front.len() implies crate::bytes::lex_lt(
                crate::bytes::text_bytes(#[trigger] front[i]),
                crate::bytes::text_bytes(#[trigger] front[j]),
            ) by {
                assert(front[i] == labels[i] && front[j] == labels[j]);
            }
        }
        summaries_follow_the_labels(store, origin, front);
        assert forall|i: int| 0 <= i < games.len() implies tells_of(
            store,
            origin,
            (#[trigger] games[i]).label,
        ) && labels.contains(games[i].label) && summary_in(store, games[i].label) == Some(
            games[i],
        ) by {
            if i < before.len() {
                assert(games[i] == before[i]);
                let t = front.index_of(before[i].label);
                assert(labels[t] == before[i].label);
            } else {
                assert(labels[labels.len() - 1] == last);
            }
        }
        assert forall|i: int, j: int| 0 <= i < j < names.len() implies crate::bytes::lex_lt(
            crate::bytes::text_bytes(#[trigger] names[i]),
            crate::bytes::text_bytes(#[trigger] names[j]),
        ) by {
            assert(games[i] == before[i]);
            assert(names[i] == earlier[i]);
            if j < before.len() {
                assert(games[j] == before[j]);
                assert(names[j] == earlier[j]);
            } else {
                let t = front.index_of(before[i].label);
                assert(front[t] == labels[t]);
                assert(names[j] == labels[labels.len() - 1]);
            }
        }
        assert forall|label: Seq<char>| #[trigger]
            labels.contains(label) && tells_of(store, origin, label) implies exists|i: int|
            0 <= i < games.len() && (#[trigger] games[i]).label == label by {
            let t = labels.index_of(label);
            if t < front.len() {
                assert(front[t] == label);
                assert(front.contains(label));
                let i = choose|i: int|
                    0 <= i < before.len() && (#[trigger] before[i]).label == label;
                assert(games[i] == before[i]);
            } else {
                assert(games[before.len() as int].label == label);
            }
        }
    }
}

/// List the games of the caller, in the order in which the store lists their
/// labels. A dependable store leaves none out.
pub fn handle_list_games<S: SecretStore>(store: &S, origin: Option<[u8; 32]>) -> (r: Response)
    ensures
        r@ == ResponseView::Games(
            summaries_in(
                store.contents(),
                cbor::option_view(origin),
                secrets::labels_listed(*store),
            ),
        ),
        store.dependable() ==> (r@ matches ResponseView::Games(games) && lists_all_games(
            store.contents(),
            cbor::option_view(origin),
            games,
        )),
{
    let labels = secrets::list_labels(store);
    let games = summarize_labels(store, origin, &labels);
    proof {
        if store.dependable() {
            let held = store.contents();
            let by = cbor::option_view(origin);
            let all = project::text_views(labels@);
            summaries_follow_the_labels(held, by, all);
            assert forall|label: Seq<char>| #[trigger] tells_of(held, by, label) implies exists|
                i: int,
            |
                0 <= i < delegate_api::summary_views(games@).len() && (
                #[trigger] delegate_api::summary_views(games@)[i]).label == label by {
                assert(held.contains_key(secrets::named(secrets::KEY_PREFIX@, label)));
                assert(all.contains(label));
            }
        }
    }
    Response::Games(games)
}

// ---------------------------------------------------------------------------
// Dispatch.
// ---------------------------------------------------------------------------

/// What an answer to a request may be, where the store is as `store` before.
pub open spec fn answers<S: SecretStore>(
    request: RequestView,
    origin: Option<Seq<u8>>,
    store: S,
    after: Map<Seq<u8>, Seq<u8>>,
    r: ResponseView,
) -> bool {
    let before = store.contents();
    let dependable = store.dependable();
    match request {
        RequestView::CreateGameKey { label, caller_entropy } => creates_somehow(
            label,
            caller_entropy,
            origin,
            before,
            dependable,
            after,
            r,
        ),
        RequestView::BindGame { label, params, contract } => binds(
            bind_answer(before, origin, label, params, contract),
            before,
            dependable,
            after,
            r,
        ),
        RequestView::Rebind { label, contract } => binds(
            delegate_policy::rebind_outcome(
                secrets::bound_game_in(before, label),
                label,
                contract,
                origin,
            ),
            before,
            dependable,
            after,
            r,
        ),
        RequestView::Sign { game_id, body } => signs(
            sign_answer(before, origin, game_id, body, replica_of(store, game_id)),
            body,
            before,
            dependable,
            after,
            r,
        ),
        RequestView::ListGames => {
            &&& after == before
            &&& r == ResponseView::Games(
                summaries_in(before, origin, secrets::labels_listed(store)),
            )
            &&& dependable ==> (r matches ResponseView::Games(games) && lists_all_games(
                before,
                origin,
                games,
            ))
        },
    }
}

/// Answer a request.
pub fn handle<S: SecretStore>(
    store: &mut S,
    origin: Option<[u8; 32]>,
    request: Request,
) -> (r: Response)
    ensures
        answers(
            request@,
            cbor::option_view(origin),
            *old(store),
            final(store).contents(),
            r@,
        ),
{
    match request {
        Request::CreateGameKey { label, caller_entropy } => {
            let host = probe_host_entropy();
            proof {
                reveal(creates_somehow);
            }
            handle_create_game_key(store, origin, label, caller_entropy, host)
        },
        Request::BindGame { label, params, contract } => handle_bind_game(
            store,
            origin,
            label,
            params,
            contract,
        ),
        Request::Rebind { label, contract } => handle_rebind_game(store, origin, label, contract),
        Request::Sign { game_id, body } => handle_sign(store, origin, game_id, body),
        Request::ListGames => handle_list_games(store, origin),
    }
}

/// The bytes a delegate answers a message with: the answer to the request, or
/// the refusal of bytes that hold none. Those leave the store alone.
pub fn handle_message<S: SecretStore>(
    store: &mut S,
    origin: Option<[u8; 32]>,
    message: &[u8],
) -> (r: Vec<u8>)
    ensures
        match delegate_api::decoded_request(message@) {
            Some(request) => delegate_api::decoded_response(r@) matches Some(response) && answers(
                request,
                cbor::option_view(origin),
                *old(store),
                final(store).contents(),
                response,
            ),
            None => {
                &&& delegate_api::decoded_response(r@) == Some(
                    ResponseView::Refused(
                        RefusalView::Malformed(
                            cbor::complaint_of(message@, delegate_api::UNREADABLE@),
                        ),
                    ),
                )
                &&& *final(store) == *old(store)
            },
        },
{
    match Request::decode(message) {
        Ok(request) => {
            let response = handle(store, origin, request);
            response.encode()
        },
        Err(refusal) => Response::Refused(refusal).encode(),
    }
}

// ---------------------------------------------------------------------------
// Laws.
// ---------------------------------------------------------------------------

/// The record under a game is of that game, and its label leads to it.
pub open spec fn filed_right(store: Map<Seq<u8>, Seq<u8>>, game: Seq<u8>) -> bool {
    secrets::game_in(store, game) matches Some(rec) ==> rec.params.game_id() == game
        && secrets::bound_in(store, rec.label) == Some(game)
}

/// Every game record is filed under its own game, and its label leads to it.
pub open spec fn books_kept(store: Map<Seq<u8>, Seq<u8>>) -> bool {
    forall|game: Seq<u8>| #[trigger] filed_right(store, game)
}

/// The guard of one game did not weaken: the counter did not go back, and where
/// it stayed, so did the digest beside it.
pub open spec fn guard_kept(before: GameRecordView, after: GameRecordView) -> bool {
    &&& after.label == before.label
    &&& after.params == before.params
    &&& after.side == before.side
    &&& after.last_signed_ply >= before.last_signed_ply
    &&& after.last_signed_ply == before.last_signed_ply ==> after.last_move_body_hash
        == before.last_move_body_hash
}

/// The game is still there, and its guard did not weaken.
pub open spec fn still_guarded(
    before: Map<Seq<u8>, Seq<u8>>,
    after: Map<Seq<u8>, Seq<u8>>,
    game: Seq<u8>,
) -> bool {
    secrets::game_in(before, game) matches Some(rec) ==> (secrets::game_in(after, game)
        matches Some(next) && guard_kept(rec, next))
}

/// The guards of all games did not weaken.
pub open spec fn guards_kept(
    before: Map<Seq<u8>, Seq<u8>>,
    after: Map<Seq<u8>, Seq<u8>>,
) -> bool {
    forall|game: Seq<u8>| #[trigger] still_guarded(before, after, game)
}

/// Storing a record touches no other game, and no other label's binding.
proof fn storing_touches_one_game(
    before: Map<Seq<u8>, Seq<u8>>,
    rec: GameRecordView,
    after: Map<Seq<u8>, Seq<u8>>,
)
    requires
        stores(before, rec, after),
    ensures
        forall|game: Seq<u8>|
            game != rec.params.game_id() ==> #[trigger] secrets::game_in(after, game)
                == secrets::game_in(before, game),
        forall|label: Seq<char>|
            label != rec.label ==> #[trigger] secrets::bound_in(after, label)
                == secrets::bound_in(before, label),
        secrets::bound_in(after, rec.label) == Some(rec.params.game_id()),
{
    let id = rec.params.game_id();
    assert forall|game: Seq<u8>| game != id implies #[trigger] secrets::game_in(after, game)
        == secrets::game_in(before, game) by {
        secrets::namespaces_never_meet(rec.label, rec.label, game);
        if secrets::game_name(game) == secrets::game_name(id) {
            crate::bytes::split_equal(
                crate::bytes::text_bytes(secrets::GAME_PREFIX@),
                game,
                crate::bytes::text_bytes(secrets::GAME_PREFIX@),
                id,
            );
        }
    }
    assert forall|label: Seq<char>| label != rec.label implies #[trigger] secrets::bound_in(
        after,
        label,
    ) == secrets::bound_in(before, label) by {
        secrets::namespaces_never_meet(label, label, id);
        secrets::labels_never_share(secrets::BIND_PREFIX@, label, rec.label);
    }
}

/// Storing a record keeps the books and the guards, where the record guards
/// its game at least as well as what it replaces, and its label had no other
/// game.
proof fn storing_keeps_the_books(
    before: Map<Seq<u8>, Seq<u8>>,
    rec: GameRecordView,
    after: Map<Seq<u8>, Seq<u8>>,
)
    requires
        books_kept(before),
        stores(before, rec, after),
        secrets::game_in(before, rec.params.game_id()) matches Some(held) ==> guard_kept(held, rec),
        secrets::bound_game_in(before, rec.label) matches Some(held) ==> held.params.game_id()
            == rec.params.game_id(),
    ensures
        books_kept(after),
        guards_kept(before, after),
{
    let id = rec.params.game_id();
    storing_touches_one_game(before, rec, after);
    assert forall|game: Seq<u8>| #[trigger] filed_right(after, game) by {
        if game != id {
            assert(secrets::game_in(after, game) == secrets::game_in(before, game));
            assert(filed_right(before, game));
            if secrets::game_in(before, game) is Some {
                let x = secrets::game_in(before, game)->0;
                if x.label == rec.label {
                    assert(secrets::bound_in(before, rec.label) == Some(game));
                    assert(secrets::bound_game_in(before, rec.label) == Some(x));
                } else {
                    assert(secrets::bound_in(after, x.label) == secrets::bound_in(
                        before,
                        x.label,
                    ));
                }
            }
        }
    }
    assert forall|game: Seq<u8>| #[trigger] still_guarded(before, after, game) by {
        if game != id {
            assert(secrets::game_in(after, game) == secrets::game_in(before, game));
        }
    }
}

/// A record that takes the place of one of the same game and label, stored in
/// full or in part, keeps the books and the guards.
proof fn replacing_keeps_the_books(
    before: Map<Seq<u8>, Seq<u8>>,
    held: GameRecordView,
    rec: GameRecordView,
    after: Map<Seq<u8>, Seq<u8>>,
)
    requires
        books_kept(before),
        secrets::game_in(before, rec.params.game_id()) == Some(held),
        guard_kept(held, rec),
        stores(before, rec, after) || stores_in_part(before, rec, after),
    ensures
        books_kept(after),
        guards_kept(before, after),
{
    let id = rec.params.game_id();
    assert(filed_right(before, id));
    assert(secrets::bound_game_in(before, rec.label) == Some(held));
    if stores(before, rec, after) {
        storing_keeps_the_books(before, rec, after);
    } else {
        storing_in_part_keeps_the_guards(before, rec, after);
        assert forall|game: Seq<u8>| #[trigger] filed_right(after, game) by {
            assert(filed_right(before, game));
            secrets::namespaces_never_meet(rec.label, rec.label, id);
            if game != id && secrets::game_name(game) == secrets::game_name(id) {
                crate::bytes::split_equal(
                    crate::bytes::text_bytes(secrets::GAME_PREFIX@),
                    game,
                    crate::bytes::text_bytes(secrets::GAME_PREFIX@),
                    id,
                );
            }
            if secrets::game_in(after, game) is Some {
                let label = secrets::game_in(after, game)->0.label;
                secrets::namespaces_never_meet(label, label, id);
            }
        }
    }
}

/// Creating a key, or taking back what was written of it, touches no game and
/// no binding.
proof fn creating_keeps_the_books(
    before: Map<Seq<u8>, Seq<u8>>,
    origin: Option<Seq<u8>>,
    label: Seq<char>,
    seed: Seq<u8>,
    quality: EntropyQuality,
    after: Map<Seq<u8>, Seq<u8>>,
)
    requires
        books_kept(before),
        after == with_key(before, origin, label, seed, quality) || after == without_key(
            before,
            label,
        ),
    ensures
        books_kept(after),
        guards_kept(before, after),
{
    assert forall|game: Seq<u8>| #[trigger] secrets::game_in(after, game) == secrets::game_in(
        before,
        game,
    ) by {
        secrets::namespaces_never_meet(label, label, game);
    }
    assert forall|other: Seq<char>| #[trigger] secrets::bound_in(after, other)
        == secrets::bound_in(before, other) by {
        secrets::namespaces_never_meet(label, other, seed);
        secrets::namespaces_never_meet(other, label, seed);
    }
    assert forall|game: Seq<u8>| #[trigger] filed_right(after, game) by {
        assert(secrets::game_in(after, game) == secrets::game_in(before, game));
        assert(filed_right(before, game));
        if secrets::game_in(before, game) is Some {
            let x = secrets::game_in(before, game)->0;
            assert(secrets::bound_in(after, x.label) == secrets::bound_in(before, x.label));
        }
    }
    assert forall|game: Seq<u8>| #[trigger] still_guarded(before, after, game) by {
        assert(secrets::game_in(after, game) == secrets::game_in(before, game));
    }
}

/// A record that was stored without the way to it from its label weakens no
/// guard, where it guards its game at least as well as what it replaces.
proof fn storing_in_part_keeps_the_guards(
    before: Map<Seq<u8>, Seq<u8>>,
    rec: GameRecordView,
    after: Map<Seq<u8>, Seq<u8>>,
)
    requires
        stores_in_part(before, rec, after),
        secrets::game_in(before, rec.params.game_id()) matches Some(held) ==> guard_kept(held, rec),
    ensures
        guards_kept(before, after),
{
    let id = rec.params.game_id();
    assert forall|game: Seq<u8>| #[trigger] still_guarded(before, after, game) by {
        if game != id && secrets::game_name(game) == secrets::game_name(id) {
            crate::bytes::split_equal(
                crate::bytes::text_bytes(secrets::GAME_PREFIX@),
                game,
                crate::bytes::text_bytes(secrets::GAME_PREFIX@),
                id,
            );
        }
    }
}

/// Whatever the delegate is asked, and whoever asks: no answer weakens the
/// guard of any game, and none but that to a failed bind brings the books into
/// disorder.
pub proof fn no_request_weakens_a_guard<S: SecretStore>(
    request: RequestView,
    origin: Option<Seq<u8>>,
    store: S,
    after: Map<Seq<u8>, Seq<u8>>,
    r: ResponseView,
)
    requires
        books_kept(store.contents()),
        answers(request, origin, store, after, r),
    ensures
        guards_kept(store.contents(), after),
        !(request is BindGame && r == ResponseView::Refused(RefusalView::StoreFailed))
            ==> books_kept(after),
{
    let before = store.contents();
    let dependable = store.dependable();
    match request {
        RequestView::CreateGameKey { label, caller_entropy } => {
            reveal(creates_somehow);
            reveal(creates);
            let host = choose|host: HostEntropy| #[trigger]
                creates(host, label, caller_entropy, origin, before, dependable, after, r);
            if create_refusal(before, host, caller_entropy, label) is None {
                creating_keeps_the_books(
                    before,
                    origin,
                    label,
                    seed_for(host, caller_entropy, label),
                    quality_for(host),
                    after,
                );
            }
        },
        RequestView::BindGame { label, params, contract } => {
            reveal(binds);
            match bind_answer(before, origin, label, params, contract) {
                Err(_) => {},
                Ok(rec) => {
                    binding_keeps_the_guard(before, origin, label, params, contract, rec);
                    if r == ResponseView::Refused(RefusalView::StoreFailed) {
                        storing_in_part_keeps_the_guards(before, rec, after);
                    } else {
                        storing_keeps_the_books(before, rec, after);
                    }
                },
            }
        },
        RequestView::Rebind { label, contract } => {
            reveal(binds);
            let existing = secrets::bound_game_in(before, label);
            match delegate_policy::rebind_outcome(existing, label, contract, origin) {
                Err(_) => {},
                Ok(rec) => {
                    let held = existing->0;
                    let game = secrets::bound_in(before, label)->0;
                    assert(secrets::game_in(before, game) == Some(held));
                    assert(filed_right(before, game));
                    replacing_keeps_the_books(before, held, rec, after);
                },
            }
        },
        RequestView::Sign { game_id, body } => {
            match sign_answer(before, origin, game_id, body, replica_of(store, game_id)) {
                Err(_) => {},
                Ok((rec, seed)) => {
                    let held = secrets::game_in(before, game_id)->0;
                    assert(secrets::game_in(before, game_id) == Some(held));
                    assert(filed_right(before, game_id));
                    assert(secrets::bound_game_in(before, held.label) == Some(held));
                    replacing_keeps_the_books(before, held, rec, after);
                },
            }
        },
        RequestView::ListGames => {},
    }
}

proof fn binding_keeps_the_guard(
    before: Map<Seq<u8>, Seq<u8>>,
    origin: Option<Seq<u8>>,
    label: Seq<char>,
    params: ParamsView,
    contract: Seq<u8>,
    rec: GameRecordView,
)
    requires
        books_kept(before),
        bind_answer(before, origin, label, params, contract) == Ok::<GameRecordView, RefusalView>(
            rec,
        ),
    ensures
        secrets::game_in(before, rec.params.game_id()) matches Some(held) ==> guard_kept(held, rec),
        secrets::bound_game_in(before, rec.label) matches Some(held) ==> held.params.game_id()
            == rec.params.game_id(),
{
    match secrets::bound_game_in(before, label) {
        Some(held) => {
            let game = secrets::bound_in(before, label)->0;
            assert(secrets::game_in(before, game) == Some(held));
            assert(filed_right(before, game));
            assert(held.params.game_id() == game);
            assert(rec == held);
            assert(secrets::bound_in(before, held.label) == Some(game));
        },
        None => {
            assert(rec.label == label && rec.params == params);
            match secrets::game_in(before, params.game_id()) {
                Some(other) => {
                    assert(other.label == label);
                    assert(filed_right(before, params.game_id()));
                    assert(secrets::bound_in(before, label) == Some(params.game_id()));
                },
                None => {},
            }
        },
    }
}

/// A signature is only given for what the guard allows: once a move was signed
/// at a ply, no request for another move at that ply is granted, as long as the
/// guard of the game has not weakened since.
pub proof fn a_signed_ply_is_never_signed_otherwise(
    store: Map<Seq<u8>, Seq<u8>>,
    signed: GameRecordView,
    now: Map<Seq<u8>, Seq<u8>>,
    origin: Option<Seq<u8>>,
    game: Seq<u8>,
    body: BodyView,
    local: Option<Seq<u8>>,
)
    requires
        secrets::game_in(store, game) == Some(signed),
        guards_kept(store, now),
        body is Move,
        body.ply()->0 == signed.last_signed_ply,
        delegate_policy::body_digest(body) != signed.last_move_body_hash,
    ensures
        sign_answer(now, origin, game, body, local) is Err,
{
    assert(still_guarded(store, now, game));
}

/// A replica that is missing, cannot be read, or shows an undecided game at
/// another ply than the one before the move says nothing: the answer is the one
/// that is given without any replica. What is no move is never held against a
/// replica.
pub proof fn a_replica_that_is_behind_says_nothing(
    store: Map<Seq<u8>, Seq<u8>>,
    origin: Option<Seq<u8>>,
    game: Seq<u8>,
    body: BodyView,
    local: Option<Seq<u8>>,
)
    requires
        ({
            ||| local is None
            ||| state::decoded_state(local->0) is None
            ||| secrets::game_in(store, game) is None
            ||| body !is Move
            ||| {
                let status = project::projected(
                    state::decoded_state(local->0)->0,
                    secrets::game_in(store, game)->0.params,
                );
                status.decision is None && status.ply + 1 != body->Move_ply
            }
        }),
    ensures
        sign_answer(store, origin, game, body, local) == sign_answer(
            store,
            origin,
            game,
            body,
            None,
        ),
{
}

/// A replica of an undecided game at the ply before the move judges by the moves
/// that are legal there: a listed move is answered as without any replica, and
/// another is refused as illegal.
pub proof fn a_replica_at_the_ply_before_judges(
    store: Map<Seq<u8>, Seq<u8>>,
    origin: Option<Seq<u8>>,
    game: Seq<u8>,
    body: BodyView,
    m: Map<Seq<u8>, RecordView>,
    raw: Seq<u8>,
)
    requires
        body is Move,
        state::decoded_state(raw) == Some(m),
        secrets::game_in(store, game) matches Some(rec) && secrets::seed_in(store, rec.label)
            is Some && project::projected(m, rec.params).decision is None && project::projected(
            m,
            rec.params,
        ).ply + 1 == body->Move_ply,
    ensures
        ({
            let answer = sign_answer(store, origin, game, body, Some(raw));
            let status = project::projected(m, secrets::game_in(store, game)->0.params);
            if project::moves_listed(status).contains(body->Move_uci) {
                answer == sign_answer(store, origin, game, body, None)
            } else {
                answer == Err::<(GameRecordView, Seq<u8>), RefusalView>(RefusalView::IllegalMove)
            }
        }),
{
}

/// No move is signed in a game that the replica shows to be over, at whatever
/// ply.
pub proof fn no_move_is_signed_after_the_end(
    store: Map<Seq<u8>, Seq<u8>>,
    origin: Option<Seq<u8>>,
    game: Seq<u8>,
    body: BodyView,
    m: Map<Seq<u8>, RecordView>,
    raw: Seq<u8>,
)
    requires
        body is Move,
        state::decoded_state(raw) == Some(m),
        secrets::game_in(store, game) matches Some(rec) && secrets::seed_in(store, rec.label)
            is Some && project::projected(m, rec.params).decision is Some,
    ensures
        sign_answer(store, origin, game, body, Some(raw)) == Err::<
            (GameRecordView, Seq<u8>),
            RefusalView,
        >(RefusalView::IllegalMove),
{
}

/// Without a replica, what was signed before decides alone: no move is called
/// illegal, and the answer is that of the policy.
pub proof fn the_counter_alone_decides_without_a_replica(
    store: Map<Seq<u8>, Seq<u8>>,
    origin: Option<Seq<u8>>,
    game: Seq<u8>,
    body: BodyView,
)
    requires
        secrets::game_in(store, game) matches Some(rec) && secrets::seed_in(store, rec.label)
            is Some,
    ensures
        ({
            let rec = secrets::game_in(store, game)->0;
            let answer = sign_answer(store, origin, game, body, None);
            &&& delegate_policy::sign_outcome(rec, body, origin) is Ok <==> answer is Ok
            &&& answer matches Ok((next, seed)) ==> Some(seed) == secrets::seed_in(
                store,
                rec.label,
            )
            &&& answer matches Err(e) ==> e != RefusalView::IllegalMove
        }),
{
}

/// A replica can only ever stand in the way of a signature: what is signed with
/// one is signed in the same way without one.
pub proof fn a_replica_grants_nothing(
    store: Map<Seq<u8>, Seq<u8>>,
    origin: Option<Seq<u8>>,
    game: Seq<u8>,
    body: BodyView,
    local: Option<Seq<u8>>,
)
    requires
        sign_answer(store, origin, game, body, local) is Ok,
    ensures
        sign_answer(store, origin, game, body, local) == sign_answer(
            store,
            origin,
            game,
            body,
            None,
        ),
{
}

/// A key answers to the origin that made it and to no other: that origin can
/// bind it to a game it plays in, where the label and the game are both still
/// free, and another origin can bind it to none.
pub proof fn a_new_key_can_be_bound(
    store: Map<Seq<u8>, Seq<u8>>,
    origin: Option<Seq<u8>>,
    other: Option<Seq<u8>>,
    label: Seq<char>,
    seed: Seq<u8>,
    quality: EntropyQuality,
    params: ParamsView,
    contract: Seq<u8>,
)
    requires
        seed.len() == 32,
        origin matches Some(id) ==> id.len() == 32,
        origin is None ==> secrets::owner_in(store, label) is None,
        secrets::bound_game_in(store, label) is None,
        secrets::game_in(store, params.game_id()) is None,
        other != origin,
    ensures
        ({
            let after = with_key(store, origin, label, seed, quality);
            let bound = bind_answer(after, origin, label, params, contract);
            &&& bound is Ok <==> params.color_of(crypto::public_key(seed)) is Some
            &&& bound matches Ok(rec) ==> {
                &&& rec.label == label
                &&& rec.params == params
                &&& rec.contract == contract
                &&& rec.origin == origin
                &&& rec.last_signed_ply == 0
                &&& rec.entropy == match secrets::quality_in(after, label) {
                    Some(q) => q,
                    None => EntropyQuality::Degraded,
                }
                &&& rec.side == delegate_api::Side::of(params.color_of(crypto::public_key(seed))->0)
            }
            &&& bind_answer(after, other, label, params, contract) == Err::<
                GameRecordView,
                RefusalView,
            >(RefusalView::WrongOrigin)
            &&& tells_of(after, origin, label)
            &&& !tells_of(after, other, label)
        }),
{
    let after = with_key(store, origin, label, seed, quality);
    secrets::namespaces_never_meet(label, label, params.game_id());
    assert(secrets::seed_in(after, label) == Some(seed));
    assert(secrets::owner_in(after, label) == origin);
    assert(secrets::bound_in(after, label) == secrets::bound_in(store, label));
    assert(secrets::game_in(after, params.game_id()) == secrets::game_in(store, params.game_id()));
    if secrets::bound_in(store, label) is Some {
        let game = secrets::bound_in(store, label)->0;
        secrets::namespaces_never_meet(label, label, game);
        assert(secrets::game_in(after, game) == secrets::game_in(store, game));
    }
    assert(secrets::bound_game_in(after, label) is None);
}

/// A label whose key is taken can not be taken again, and one that is free can
/// be wherever there is any entropy at all.
pub proof fn a_label_is_taken_once(
    store: Map<Seq<u8>, Seq<u8>>,
    origin: Option<Seq<u8>>,
    label: Seq<char>,
    seed: Seq<u8>,
    quality: EntropyQuality,
    host: HostEntropy,
    caller: Option<Seq<u8>>,
)
    ensures
        create_refusal(with_key(store, origin, label, seed, quality), host, caller, label) == Some(
            RefusalView::LabelExists,
        ),
        create_refusal(without_key(store, label), host, caller, label) is None <==> (host is Live
            || (caller matches Some(c) && exists|i: int| 0 <= i < c.len() && c[i] != 0)),
{
    secrets::namespaces_never_meet(label, label, seed);
}

/// A game that was bound is listed with the label, the side, the contract and
/// the ply that its record holds, and the key signs its moves from then on: what
/// the policy grants on that record is granted.
pub proof fn a_bound_game_can_be_played(
    before: Map<Seq<u8>, Seq<u8>>,
    rec: GameRecordView,
    after: Map<Seq<u8>, Seq<u8>>,
    origin: Option<Seq<u8>>,
    body: BodyView,
)
    requires
        stores(before, rec, after),
        secrets::seed_in(before, rec.label) is Some,
    ensures
        summary_in(after, rec.label) matches Some(s) && {
            &&& s.label == rec.label
            &&& s.public_key == crypto::public_key(secrets::seed_in(before, rec.label)->0)
            &&& s.game_id == Some(rec.params.game_id())
            &&& s.params == Some(rec.params)
            &&& s.side == Some(rec.side)
            &&& s.contract == Some(rec.contract)
            &&& s.previous == rec.previous
            &&& s.last_signed_ply == rec.last_signed_ply
            &&& s.entropy == Some(rec.entropy)
        },
        sign_answer(after, origin, rec.params.game_id(), body, None) is Ok
            <==> delegate_policy::sign_outcome(rec, body, origin) is Ok,
        sign_answer(after, origin, rec.params.game_id(), body, None) matches Ok((_, seed)) ==> seed
            == secrets::seed_in(before, rec.label)->0,
{
    secrets::namespaces_never_meet(rec.label, rec.label, rec.params.game_id());
    assert(secrets::seed_in(after, rec.label) == secrets::seed_in(before, rec.label));
}

/// A game or a label that the store knows nothing of is answered with a refusal
/// that says which of the two is missing.
pub proof fn what_is_not_known_is_refused(
    store: Map<Seq<u8>, Seq<u8>>,
    origin: Option<Seq<u8>>,
    label: Seq<char>,
    game: Seq<u8>,
    params: ParamsView,
    contract: Seq<u8>,
    body: BodyView,
    local: Option<Seq<u8>>,
)
    ensures
        secrets::game_in(store, game) is None ==> sign_answer(store, origin, game, body, local)
            == Err::<(GameRecordView, Seq<u8>), RefusalView>(RefusalView::UnknownGame),
        secrets::seed_in(store, label) is None ==> bind_answer(
            store,
            origin,
            label,
            params,
            contract,
        ) == Err::<GameRecordView, RefusalView>(RefusalView::UnknownLabel),
        secrets::seed_in(store, label) is None ==> summary_in(store, label) is None,
{
}

/// A game is played under one label: while a record of it stands under one, no
/// other label that has no game yet can be bound to it. Who did not make the key
/// is not told so much.
pub proof fn a_game_is_played_under_one_label(
    store: Map<Seq<u8>, Seq<u8>>,
    label: Seq<char>,
    params: ParamsView,
    contract: Seq<u8>,
)
    requires
        secrets::seed_in(store, label) is Some,
        secrets::bound_game_in(store, label) is None,
        secrets::game_in(store, params.game_id()) matches Some(rec) && rec.label != label,
    ensures
        bind_answer(store, secrets::owner_in(store, label), label, params, contract) == Err::<
            GameRecordView,
            RefusalView,
        >(RefusalView::AlreadyBound { game_id: params.game_id() }),
        forall|origin: Option<Seq<u8>>|
            origin != secrets::owner_in(store, label) ==> #[trigger] bind_answer(
                store,
                origin,
                label,
                params,
                contract,
            ) == Err::<GameRecordView, RefusalView>(RefusalView::WrongOrigin),
{
}

/// Nobody is told of another's keys, and everybody of all of their own: the list
/// has exactly the labels with a key that the caller made, and asking for it
/// changes nothing.
pub proof fn everybody_is_told_of_their_own<S: SecretStore>(
    origin: Option<Seq<u8>>,
    store: S,
    after: Map<Seq<u8>, Seq<u8>>,
    r: ResponseView,
    label: Seq<char>,
)
    requires
        store.dependable(),
        answers(RequestView::ListGames, origin, store, after, r),
    ensures
        after == store.contents(),
        r is Games,
        (exists|i: int| 0 <= i < r->Games_0.len() && (#[trigger] r->Games_0[i]).label == label) <==> (
        secrets::seed_in(store.contents(), label) is Some && secrets::owner_in(
            store.contents(),
            label,
        ) == origin),
{
    let games = r->Games_0;
    if tells_of(store.contents(), origin, label) {
        let i = choose|i: int| 0 <= i < games.len() && (#[trigger] games[i]).label == label;
        assert(games[i].label == label);
    }
    if exists|i: int| 0 <= i < games.len() && (#[trigger] games[i]).label == label {
        let i = choose|i: int| 0 <= i < games.len() && (#[trigger] games[i]).label == label;
        assert(tells_of(store.contents(), origin, games[i].label));
    }
}

/// A key that is given is kept: the public key in the answer belongs to the seed
/// that now stands under the label, where there was none, and so does the quality
/// in the answer. It is the caller's from then on, and nothing else of anybody's
/// has changed.
pub proof fn a_key_that_is_given_is_kept<S: SecretStore>(
    label: Seq<char>,
    caller: Option<Seq<u8>>,
    origin: Option<Seq<u8>>,
    store: S,
    after: Map<Seq<u8>, Seq<u8>>,
    r: ResponseView,
    other: Seq<char>,
    game: Seq<u8>,
)
    requires
        answers(
            RequestView::CreateGameKey { label, caller_entropy: caller },
            origin,
            store,
            after,
            r,
        ),
        r is GameKey,
        origin matches Some(id) ==> id.len() == 32,
        origin is None ==> secrets::owner_in(store.contents(), label) is None,
        other != label,
    ensures
        r->GameKey_label == label,
        secrets::seed_in(after, label) matches Some(seed) && r->GameKey_public_key
            == crypto::public_key(seed),
        secrets::quality_in(after, label) == Some(r->GameKey_entropy),
        secrets::seed_in(store.contents(), label) is None,
        secrets::owner_in(after, label) == origin,
        secrets::bound_in(store.contents(), label) is None ==> (summary_in(after, label) matches Some(s)
            && s.label == label && s.public_key == r->GameKey_public_key && s.entropy == Some(
            r->GameKey_entropy,
        ) && s.game_id is None && s.side is None && s.params is None && s.contract is None
            && s.last_signed_ply == 0),
        secrets::seed_in(after, other) == secrets::seed_in(store.contents(), other),
        secrets::owner_in(after, other) == secrets::owner_in(store.contents(), other),
        secrets::game_in(after, game) == secrets::game_in(store.contents(), game),
{
    reveal(creates_somehow);
    reveal(creates);
    let before = store.contents();
    let host = choose|host: HostEntropy| #[trigger]
        creates(host, label, caller, origin, before, store.dependable(), after, r);
    secrets::namespaces_never_meet(label, label, game);
    secrets::namespaces_never_meet(label, other, game);
    secrets::namespaces_never_meet(other, label, game);
    secrets::labels_never_share(secrets::KEY_PREFIX@, label, other);
    secrets::labels_never_share(secrets::OWNER_PREFIX@, label, other);
    assert(after == with_key(before, origin, label, seed_for(host, caller, label), quality_for(host)));
}

/// A game that is said to be bound is bound: the answer names the game that was
/// asked for, its record is found under it and under the label, and the label is
/// one whose key the caller made and that plays in the game.
pub proof fn a_game_said_to_be_bound_is<S: SecretStore>(
    label: Seq<char>,
    params: ParamsView,
    contract: Seq<u8>,
    origin: Option<Seq<u8>>,
    store: S,
    after: Map<Seq<u8>, Seq<u8>>,
    r: ResponseView,
)
    requires
        answers(RequestView::BindGame { label, params, contract }, origin, store, after, r),
        r is Bound,
        secrets::bound_game_in(store.contents(), label) is None,
    ensures
        r->Bound_game_id == params.game_id(),
        secrets::game_in(after, params.game_id()) matches Some(rec) && {
            &&& rec.label == label
            &&& rec.params == params
            &&& rec.contract == contract
            &&& rec.origin == origin
            &&& rec.last_signed_ply == 0
            &&& secrets::bound_game_in(after, label) == Some(rec)
        },
        secrets::owner_in(store.contents(), label) == origin,
        secrets::seed_in(store.contents(), label) matches Some(seed) && params.color_of(
            crypto::public_key(seed),
        ) is Some,
{
    reveal(binds);
}

/// No signature is given out before the ply it is for is on record: once a move
/// is signed, the record of the game has its ply and its digest, and the signature
/// is over the body that was asked for, by the key under the game's label.
pub proof fn a_signature_follows_its_record<S: SecretStore>(
    game: Seq<u8>,
    body: BodyView,
    origin: Option<Seq<u8>>,
    store: S,
    after: Map<Seq<u8>, Seq<u8>>,
    r: ResponseView,
)
    requires
        books_kept(store.contents()),
        answers(RequestView::Sign { game_id: game, body }, origin, store, after, r),
        r is Signed,
    ensures
        secrets::game_in(store.contents(), game) matches Some(held) && {
            let record = r->Signed_record;
            let seed = secrets::seed_in(store.contents(), held.label);
            &&& held.origin == origin
            &&& record.body == body
            &&& seed is Some && record.signer == crypto::public_key(seed->0) && record.sig
                == crypto::signature_over(seed->0, types::payload(game, body))
            &&& secrets::game_in(after, game) matches Some(now) && now.params == held.params
                && now.label == held.label && (body is Move ==> now.last_signed_ply
                == body.ply()->0 && now.last_move_body_hash == delegate_policy::body_digest(body))
                && (body !is Move ==> now == held)
        },
{
    assert(filed_right(store.contents(), game));
}

/// A store that can be depended on never gets in the way: what is granted is
/// done, and what is refused leaves everything as it was.
pub proof fn a_dependable_store_is_no_excuse<S: SecretStore>(
    request: RequestView,
    origin: Option<Seq<u8>>,
    store: S,
    after: Map<Seq<u8>, Seq<u8>>,
    r: ResponseView,
)
    requires
        store.dependable(),
        answers(request, origin, store, after, r),
    ensures
        r is Refused ==> after == store.contents(),
        request matches RequestView::Sign { game_id, body } ==> (r is Signed <==> sign_answer(
            store.contents(),
            origin,
            game_id,
            body,
            replica_of(store, game_id),
        ) is Ok),
        request matches RequestView::BindGame { label, params, contract } ==> (r is Bound
            <==> bind_answer(store.contents(), origin, label, params, contract) is Ok),
        request matches RequestView::CreateGameKey { label, .. } ==> (store.contents().contains_key(
            secrets::named(secrets::KEY_PREFIX@, label),
        ) ==> r == ResponseView::Refused(RefusalView::LabelExists)),
        request matches RequestView::CreateGameKey { label, caller_entropy: Some(c) } ==> (
        !store.contents().contains_key(secrets::named(secrets::KEY_PREFIX@, label)) && (
        exists|i: int| 0 <= i < c.len() && c[i] != 0) ==> r is GameKey),
{
    reveal(creates_somehow);
    reveal(creates);
    reveal(binds);
    match request {
        RequestView::CreateGameKey { label, caller_entropy } => {
            let host = choose|host: HostEntropy| #[trigger]
                creates(
                    host,
                    label,
                    caller_entropy,
                    origin,
                    store.contents(),
                    store.dependable(),
                    after,
                    r,
                );
        },
        _ => {},
    }
}

/// The node's own replica is the one of the contract that the game is bound to:
/// where the game was migrated, what the contract before holds has no say.
pub proof fn the_replica_is_of_the_bound_contract<S: SecretStore>(
    store: S,
    game: Seq<u8>,
    rec: GameRecordView,
)
    requires
        secrets::game_in(store.contents(), game) == Some(rec),
    ensures
        replica_of(store, game) == store.replica(rec.contract),
{
}

/// A key is called securely random exactly if the host contributed to it.
pub proof fn the_quality_is_the_hosts(
    host: HostEntropy,
    label: Seq<char>,
    caller: Option<Seq<u8>>,
    origin: Option<Seq<u8>>,
    before: Map<Seq<u8>, Seq<u8>>,
    dependable: bool,
    after: Map<Seq<u8>, Seq<u8>>,
    r: ResponseView,
)
    requires
        creates(host, label, caller, origin, before, dependable, after, r),
        r is GameKey,
    ensures
        r->GameKey_entropy is HostBacked <==> host is Live,
{
    reveal(creates);
}

/// A game that is said to be moved is: its record is found under the label, with
/// the contract that was asked for, and it remembers the one it left.
pub proof fn a_game_said_to_be_moved_is<S: SecretStore>(
    label: Seq<char>,
    contract: Seq<u8>,
    origin: Option<Seq<u8>>,
    store: S,
    after: Map<Seq<u8>, Seq<u8>>,
    r: ResponseView,
)
    requires
        answers(RequestView::Rebind { label, contract }, origin, store, after, r),
        r is Bound,
    ensures
        secrets::bound_game_in(store.contents(), label) matches Some(held) && {
            &&& held.origin == origin
            &&& r->Bound_game_id == held.params.game_id()
            &&& secrets::bound_game_in(after, label) == Some(
                GameRecordView {
                    contract,
                    previous: if contract == held.contract {
                        held.previous
                    } else {
                        Some(held.contract)
                    },
                    ..held
                },
            )
        },
{
    reveal(binds);
}

/// A key that could not be written leaves nothing behind: neither the seed nor
/// who made it nor its quality stands under the label, the label is free again,
/// and no other label is touched.
pub proof fn a_key_that_failed_leaves_nothing(
    store: Map<Seq<u8>, Seq<u8>>,
    label: Seq<char>,
    other: Seq<char>,
    game: Seq<u8>,
)
    requires
        other != label,
    ensures
        ({
            let after = without_key(store, label);
            &&& secrets::seed_in(after, label) is None
            &&& secrets::owner_in(after, label) is None
            &&& secrets::quality_in(after, label) is None
            &&& summary_in(after, label) is None
            &&& secrets::seed_in(after, other) == secrets::seed_in(store, other)
            &&& secrets::owner_in(after, other) == secrets::owner_in(store, other)
            &&& secrets::quality_in(after, other) == secrets::quality_in(store, other)
            &&& secrets::bound_in(after, label) == secrets::bound_in(store, label)
            &&& secrets::game_in(after, game) == secrets::game_in(store, game)
        }),
{
    secrets::namespaces_never_meet(label, label, game);
    secrets::namespaces_never_meet(label, other, game);
    secrets::namespaces_never_meet(other, label, game);
    secrets::labels_never_share(secrets::KEY_PREFIX@, label, other);
    secrets::labels_never_share(secrets::OWNER_PREFIX@, label, other);
    secrets::labels_never_share(secrets::QUALITY_PREFIX@, label, other);
}

} // verus!
