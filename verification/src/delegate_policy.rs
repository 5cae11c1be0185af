//! The delegate's decisions.
//!
//! Pure: no I/O, no clock, no randomness. Everything the delegate decides is
//! decided here, from what it has recorded itself.

use vstd::prelude::*;
use crate::bytes;
use crate::bytes::{append_bytes, same_bytes, same_text};
use crate::cbor;
use crate::cbor::{Cbor, Item};
use crate::crypto;
use crate::delegate_api;
use crate::delegate_api::{EntropyQuality, Refusal, RefusalView, Side};
use crate::types;
use crate::types::{color_at_ply, Body, BodyView, GameParams, KeyBytes, ParamsView, MAX_PLY};

verus! {

/// Separates seeds from every other digest.
pub const DOMAIN_KEYGEN: &'static str = "adjourn-v1/keygen";

/// Separates the digests that recognise a retry from every other digest.
pub const DOMAIN_BODY: &'static str = "adjourn-v1/delegate-body";

/// Layout version of a persisted [`GameRecord`].
///
/// The delegate's secrets outlive the delegate: a later one reads what an
/// earlier one wrote. The version is checked before any other field is trusted,
/// so that a record in another layout is never read with its ply counter
/// defaulted to zero.
pub const GAME_RECORD_FORMAT: u8 = 3;

// ---------------------------------------------------------------------------
// Entropy.
// ---------------------------------------------------------------------------

/// The result of probing the host's randomness.
#[derive(Clone, Copy, Debug, PartialEq, Eq)]
pub enum HostEntropy {
    Live([u8; 32]),
    Dead,
}

/// Every byte is zero.
pub open spec fn all_zero(b: Seq<u8>) -> bool {
    forall|i: int| 0 <= i < b.len() ==> b[i] == 0
}

/// 32 bytes of zero.
pub open spec fn zeros() -> Seq<u8> {
    Seq::new(32, |i: int| 0u8)
}

/// Whether every byte is zero.
fn is_zero(b: &[u8; 32]) -> (r: bool)
    ensures
        r == all_zero(b@),
{
    let mut i: usize = 0;
    while i < 32
        invariant
            i <= 32,
            forall|j: int| 0 <= j < i ==> b@[j] == 0,
        decreases 32 - i,
    {
        if b[i] != 0 {
            return false;
        }
        i += 1;
    }
    true
}

/// What two independent draws from the host say of it.
pub open spec fn classified(first: [u8; 32], second: [u8; 32]) -> HostEntropy {
    if all_zero(first@) || first@ == second@ {
        HostEntropy::Dead
    } else {
        HostEntropy::Live(first)
    }
}

/// Classify two independent draws from the host.
///
/// All zeros is what a missing source gives, and two equal draws are what a
/// dead one gives; a live one repeats 32 bytes with negligible probability.
pub fn classify_host_entropy(first: [u8; 32], second: [u8; 32]) -> (r: HostEntropy)
    ensures
        r == classified(first, second),
        match r {
            HostEntropy::Live(b) => b == first && !all_zero(first@) && first@ != second@,
            HostEntropy::Dead => all_zero(first@) || first@ == second@,
        },
{
    if is_zero(&first) || same_bytes(first.as_slice(), second.as_slice()) {
        HostEntropy::Dead
    } else {
        HostEntropy::Live(first)
    }
}

/// What a caller really contributes: zeros are no entropy.
pub open spec fn contribution(caller: Option<Seq<u8>>) -> Option<Seq<u8>> {
    match caller {
        Some(c) => if all_zero(c) {
            None
        } else {
            Some(c)
        },
        None => None,
    }
}

/// What the host contributes.
pub open spec fn host_bytes(host: HostEntropy) -> Seq<u8> {
    match host {
        HostEntropy::Live(h) => h@,
        HostEntropy::Dead => zeros(),
    }
}

/// What goes into a seed: both contributions, and the label with its length.
pub open spec fn seed_input(
    host: HostEntropy,
    caller: Option<Seq<u8>>,
    label: Seq<char>,
) -> Seq<u8> {
    let label_bytes = bytes::text_bytes(label);
    bytes::text_bytes(DOMAIN_KEYGEN@) + host_bytes(host) + (match contribution(caller) {
        Some(c) => c,
        None => zeros(),
    }) + vstd::bytes::spec_u32_to_le_bytes(label_bytes.len() as u32) + label_bytes
}

/// Mix the available entropy into a signing-key seed.
///
/// Fails closed: with neither a live host nor a caller that contributes, there
/// is no seed. A seed without the host's contribution is marked as degraded.
pub fn derive_seed(
    host: HostEntropy,
    caller: Option<[u8; 32]>,
    label: &str,
) -> (r: Result<([u8; 32], EntropyQuality), Refusal>)
    ensures
        match r {
            Ok((seed, quality)) => {
                &&& seed@ == crypto::sha256(seed_input(host, cbor::option_view(caller), label@))
                &&& quality == if host is Live {
                    EntropyQuality::HostBacked
                } else {
                    EntropyQuality::Degraded
                }
                &&& host is Live || contribution(cbor::option_view(caller)) is Some
            },
            Err(e) => {
                &&& e@ == RefusalView::NoEntropy
                &&& host is Dead
                &&& contribution(cbor::option_view(caller)) is None
            },
        },
{
    let zero: [u8; 32] = [0u8; 32];
    assert(zero@ =~= zeros());
    let (given, gives): ([u8; 32], bool) = match caller {
        Some(c) => if is_zero(&c) {
            (zero, false)
        } else {
            (c, true)
        },
        None => (zero, false),
    };
    let (drawn, quality): ([u8; 32], EntropyQuality) = match host {
        HostEntropy::Live(h) => (h, EntropyQuality::HostBacked),
        HostEntropy::Dead => {
            if !gives {
                return Err(Refusal::NoEntropy);
            }
            (zero, EntropyQuality::Degraded)
        },
    };
    let label_bytes = label.as_bytes();
    #[verifier::truncate]
    let length: u32 = label_bytes.len() as u32;
    let mut buf: Vec<u8> = Vec::new();
    append_bytes(&mut buf, DOMAIN_KEYGEN.as_bytes());
    append_bytes(&mut buf, drawn.as_slice());
    append_bytes(&mut buf, given.as_slice());
    let length_bytes = vstd::bytes::u32_to_le_bytes(length);
    append_bytes(&mut buf, length_bytes.as_slice());
    append_bytes(&mut buf, label_bytes);
    assert(buf@ =~= seed_input(host, cbor::option_view(caller), label@));
    Ok((crypto::digest(buf.as_slice()), quality))
}

// ---------------------------------------------------------------------------
// What the delegate knows about a game.
// ---------------------------------------------------------------------------

/// The value of a [`GameRecord`].
#[verifier::ext_equal]
pub struct GameRecordView {
    pub format: u8,
    pub label: Seq<char>,
    pub params: ParamsView,
    pub side: Side,
    pub origin: Option<Seq<u8>>,
    pub contract: Seq<u8>,
    pub previous: Option<Seq<u8>>,
    pub entropy: EntropyQuality,
    pub last_signed_ply: u16,
    pub last_move_body_hash: Seq<u8>,
}

/// What the delegate knows about one game. Persisted in the secret store.
#[derive(Debug, PartialEq, Eq)]
pub struct GameRecord {
    /// Always [`GAME_RECORD_FORMAT`] when written. Checked before anything
    /// else on read.
    pub format: u8,
    pub label: String,
    pub params: GameParams,
    pub side: Side,
    /// The web app that bound this game, or `None` for a client that the
    /// runtime attests no origin for. Matched exactly on every later call.
    pub origin: Option<[u8; 32]>,
    /// Contract instance id of the game.
    pub contract: [u8; 32],
    /// Contract instance id this game was bound to before a migration, or
    /// `None` if it has never been migrated.
    pub previous: Option<[u8; 32]>,
    /// Quality of the entropy this game's key was generated with.
    pub entropy: EntropyQuality,
    /// Highest ply signed so far. 0 means none; plies are 1-indexed.
    pub last_signed_ply: u16,
    /// Digest of the move signed at `last_signed_ply`, so an identical retry
    /// can be told apart from a different move at the same ply.
    pub last_move_body_hash: [u8; 32],
}

impl View for GameRecord {
    type V = GameRecordView;

    open spec fn view(&self) -> GameRecordView {
        GameRecordView {
            format: self.format,
            label: self.label@,
            params: self.params@,
            side: self.side,
            origin: cbor::option_view(self.origin),
            contract: self.contract@,
            previous: cbor::option_view(self.previous),
            entropy: self.entropy,
            last_signed_ply: self.last_signed_ply,
            last_move_body_hash: self.last_move_body_hash@,
        }
    }
}

impl Clone for GameRecord {
    fn clone(&self) -> (r: GameRecord)
        ensures
            r@ == self@,
    {
        GameRecord {
            format: self.format,
            label: self.label.clone(),
            params: self.params.clone(),
            side: self.side,
            origin: self.origin,
            contract: self.contract,
            previous: self.previous,
            entropy: self.entropy,
            last_signed_ply: self.last_signed_ply,
            last_move_body_hash: self.last_move_body_hash,
        }
    }
}

impl GameRecordView {
    /// The record as a CBOR document.
    pub open spec fn tree(self) -> Cbor {
        Cbor::Table(
            seq![
                cbor::row("v"@, Cbor::Int(self.format as int)),
                cbor::row("label"@, Cbor::Text(self.label)),
                cbor::row("params"@, self.params.tree()),
                cbor::row("side"@, Cbor::Text(self.side.text())),
                cbor::row("origin"@, cbor::nullable(self.origin)),
                cbor::row("contract"@, Cbor::Bytes(self.contract)),
                cbor::row("previous"@, cbor::nullable(self.previous)),
                cbor::row("entropy"@, Cbor::Text(self.entropy.text())),
                cbor::row("last_signed_ply"@, Cbor::Int(self.last_signed_ply as int)),
                cbor::row("last_move_body_hash"@, Cbor::Bytes(self.last_move_body_hash)),
            ],
        )
    }

    /// Its byte strings have the sizes of keys and ids.
    pub open spec fn sized(self) -> bool {
        &&& self.params.sized()
        &&& self.origin matches Some(b) ==> b.len() == 32
        &&& self.contract.len() == 32
        &&& self.previous matches Some(b) ==> b.len() == 32
        &&& self.last_move_body_hash.len() == 32
    }
}

/// Read a game record out of a document. A record without `previous` is one
/// that was never migrated.
pub open spec fn parse_game_record(c: Cbor) -> Option<GameRecordView> {
    match cbor::as_table(c) {
        None => None,
        Some(s) => match (
            cbor::number_at(s, "v"@, 255),
            cbor::text_at(s, "label"@),
            delegate_api::params_at(s, "params"@),
            delegate_api::side_at(s, "side"@),
            cbor::nullable_at(s, "origin"@),
            cbor::sized_at(s, "contract"@, 32),
            cbor::nullable_or_absent_at(s, "previous"@),
            delegate_api::entropy_at(s, "entropy"@),
            cbor::number_at(s, "last_signed_ply"@, 65535),
            cbor::sized_at(s, "last_move_body_hash"@, 32),
        ) {
            (
                Some(format),
                Some(label),
                Some(params),
                Some(side),
                Some(origin),
                Some(contract),
                Some(previous),
                Some(entropy),
                Some(ply),
                Some(hash),
            ) => Some(
                GameRecordView {
                    format: format as u8,
                    label,
                    params,
                    side,
                    origin,
                    contract,
                    previous,
                    entropy,
                    last_signed_ply: ply as u16,
                    last_move_body_hash: hash,
                },
            ),
            _ => None,
        },
    }
}

/// The game record that a byte string holds.
pub open spec fn decoded_game_record(raw: Seq<u8>) -> Option<GameRecordView> {
    match cbor::document(raw) {
        Some(c) => parse_game_record(c),
        None => None,
    }
}

/// A game record reads back from its document.
pub proof fn game_record_reads_back(x: GameRecordView)
    requires
        x.sized(),
    ensures
        parse_game_record(x.tree()) == Some(x),
        cbor::writable(x.tree()),
{
    delegate_api::names_differ();
    reveal_with_fuel(cbor::plain, 2);
    types::params_read_back(x.params);
    cbor::plain_deeper(x.params.tree(), 1, 7);
    let s = x.tree()->Table_0;
    cbor::present(s, 0, "v"@);
    cbor::present(s, 1, "label"@);
    cbor::present(s, 2, "params"@);
    cbor::present(s, 3, "side"@);
    cbor::present(s, 4, "origin"@);
    cbor::present(s, 5, "contract"@);
    cbor::present(s, 6, "previous"@);
    cbor::present(s, 7, "entropy"@);
    cbor::present(s, 8, "last_signed_ply"@);
    cbor::present(s, 9, "last_move_body_hash"@);
}

impl GameRecord {
    /// The id of the game.
    pub fn game_id(&self) -> (r: [u8; 32])
        ensures
            r@ == self@.params.game_id(),
    {
        self.params.game_id()
    }

    /// The record as a CBOR document.
    pub fn to_item(&self) -> (r: Item)
        ensures
            r@ == self@.tree(),
    {
        let mut m: Vec<(Item, Item)> = Vec::new();
        cbor::push_row(&mut m, "v", Item::Int(self.format as i128));
        cbor::push_row(&mut m, "label", cbor::text_item(self.label.as_str()));
        cbor::push_row(&mut m, "params", self.params.to_item());
        cbor::push_row(&mut m, "side", cbor::text_item(self.side.name()));
        cbor::push_row(&mut m, "origin", cbor::nullable_item(&self.origin));
        cbor::push_row(&mut m, "contract", cbor::bytes_item(self.contract.as_slice()));
        cbor::push_row(&mut m, "previous", cbor::nullable_item(&self.previous));
        cbor::push_row(&mut m, "entropy", cbor::text_item(self.entropy.name()));
        cbor::push_row(&mut m, "last_signed_ply", Item::Int(self.last_signed_ply as i128));
        cbor::push_row(
            &mut m,
            "last_move_body_hash",
            cbor::bytes_item(self.last_move_body_hash.as_slice()),
        );
        assert(cbor::pair_trees(m@) =~= self@.tree()->Table_0);
        Item::Table(m)
    }

    /// Read a record out of a CBOR document.
    pub fn from_item(item: &Item) -> (r: Option<GameRecord>)
        ensures
            match r {
                Some(x) => parse_game_record(item@) == Some(x@),
                None => parse_game_record(item@) is None,
            },
    {
        match cbor::table_of(item) {
            None => None,
            Some(m) => match (
                delegate_api::byte_field(m, "v"),
                cbor::text_field(m, "label"),
                delegate_api::params_field(m, "params"),
                delegate_api::side_field(m, "side"),
                cbor::nullable_field(m, "origin"),
                cbor::field32(m, "contract"),
                cbor::nullable_or_absent_field(m, "previous"),
                delegate_api::entropy_field(m, "entropy"),
                types::ply_field(m, "last_signed_ply"),
                cbor::field32(m, "last_move_body_hash"),
            ) {
                (
                    Some(format),
                    Some(label),
                    Some(params),
                    Some(side),
                    Some(origin),
                    Some(contract),
                    Some(previous),
                    Some(entropy),
                    Some(last_signed_ply),
                    Some(last_move_body_hash),
                ) => Some(
                    GameRecord {
                        format,
                        label,
                        params,
                        side,
                        origin,
                        contract,
                        previous,
                        entropy,
                        last_signed_ply,
                        last_move_body_hash,
                    },
                ),
                _ => None,
            },
        }
    }

    /// The record as bytes. It reads back as the same record.
    pub fn encode(&self) -> (r: Vec<u8>)
        ensures
            r@ == cbor::cbor_bytes(self@.tree()),
            decoded_game_record(r@) == Some(self@),
    {
        proof {
            game_record_reads_back(self@);
        }
        cbor::write(self.to_item())
    }

    /// Read a record; `None` where the bytes are malformed.
    pub fn decode(raw: &[u8]) -> (r: Option<GameRecord>)
        ensures
            match r {
                Some(x) => decoded_game_record(raw@) == Some(x@),
                None => decoded_game_record(raw@) is None,
            },
    {
        match cbor::read(raw) {
            Some(item) => GameRecord::from_item(&item),
            None => None,
        }
    }
}

/// A record in the current layout. The layout before it lacked `previous`; any
/// other layout is refused.
pub open spec fn migrated(rec: GameRecordView) -> Option<GameRecordView> {
    if rec.format == GAME_RECORD_FORMAT {
        Some(rec)
    } else if rec.format == 2 {
        Some(GameRecordView { format: GAME_RECORD_FORMAT, previous: None, ..rec })
    } else {
        None
    }
}

/// Bring a decoded record up to [`GAME_RECORD_FORMAT`], or refuse it. Every
/// field but the version and `previous` carries over unchanged.
pub fn migrate_record(rec: GameRecord) -> (r: Option<GameRecord>)
    ensures
        match r {
            Some(x) => migrated(rec@) == Some(x@),
            None => migrated(rec@) is None,
        },
{
    if rec.format == GAME_RECORD_FORMAT {
        Some(rec)
    } else if rec.format == 2 {
        Some(GameRecord { format: GAME_RECORD_FORMAT, previous: None, ..rec })
    } else {
        None
    }
}

/// The digest that recognises a body.
pub open spec fn body_digest(b: BodyView) -> Seq<u8> {
    crypto::sha256(bytes::text_bytes(DOMAIN_BODY@) + types::body_encoding(b))
}

/// Domain-separated hash of a body, used only to recognise an identical retry.
pub fn body_hash(body: &Body) -> (r: [u8; 32])
    ensures
        r@ == body_digest(body@),
{
    let mut buf: Vec<u8> = Vec::new();
    append_bytes(&mut buf, DOMAIN_BODY.as_bytes());
    let encoded = types::body_bytes(body);
    append_bytes(&mut buf, encoded.as_slice());
    assert(buf@ =~= bytes::text_bytes(DOMAIN_BODY@) + types::body_encoding(body@));
    crypto::digest(buf.as_slice())
}

/// Whether two optional ids are the same.
pub fn same_origin(a: &Option<[u8; 32]>, b: &Option<[u8; 32]>) -> (r: bool)
    ensures
        r == (cbor::option_view(*a) == cbor::option_view(*b)),
{
    match (a, b) {
        (Some(x), Some(y)) => same_bytes(x.as_slice(), y.as_slice()),
        (None, None) => true,
        _ => false,
    }
}

// ---------------------------------------------------------------------------
// Binding.
// ---------------------------------------------------------------------------

/// The record of a game that was just bound.
pub open spec fn fresh_record(
    label: Seq<char>,
    params: ParamsView,
    side: Side,
    contract: Seq<u8>,
    entropy: EntropyQuality,
    origin: Option<Seq<u8>>,
) -> GameRecordView {
    GameRecordView {
        format: GAME_RECORD_FORMAT,
        label,
        params,
        side,
        origin,
        contract,
        previous: None,
        entropy,
        last_signed_ply: 0,
        last_move_body_hash: zeros(),
    }
}

/// The record to store for a bind, or the refusal.
pub open spec fn bind_outcome(
    existing: Option<GameRecordView>,
    label: Seq<char>,
    public_key: Seq<u8>,
    params: ParamsView,
    contract: Seq<u8>,
    entropy: EntropyQuality,
    origin: Option<Seq<u8>>,
) -> Result<GameRecordView, RefusalView> {
    match existing {
        Some(rec) => if rec.format != GAME_RECORD_FORMAT {
            Err(
                RefusalView::StaleRecordFormat {
                    found: rec.format,
                    expected: GAME_RECORD_FORMAT,
                },
            )
        } else if rec.origin != origin {
            Err(RefusalView::WrongOrigin)
        } else if rec.params.game_id() != params.game_id() {
            Err(RefusalView::AlreadyBound { game_id: rec.params.game_id() })
        } else {
            Ok(rec)
        },
        None => match params.color_of(public_key) {
            Some(color) => Ok(
                fresh_record(label, params, Side::of(color), contract, entropy, origin),
            ),
            None => Err(RefusalView::KeyNotInParams),
        },
    }
}

/// What to do with a request to bind.
#[derive(Debug, PartialEq, Eq)]
pub enum BindDecision {
    Bind { record: GameRecord },
    Refuse(Refusal),
}

/// The value of an optional record.
pub open spec fn record_view(rec: Option<&GameRecord>) -> Option<GameRecordView> {
    match rec {
        Some(r) => Some(r@),
        None => None,
    }
}

/// Associate the key held for `label` with a game.
///
/// `existing` is the record currently bound to `label`, if any. A repeated bind
/// gives it back untouched, ply counter and all.
pub fn decide_bind(
    existing: Option<&GameRecord>,
    label: &str,
    public_key: KeyBytes,
    params: &GameParams,
    contract: [u8; 32],
    entropy: EntropyQuality,
    origin: Option<[u8; 32]>,
) -> (r: BindDecision)
    ensures
        match r {
            BindDecision::Bind { record } => bind_outcome(
                record_view(existing),
                label@,
                public_key@,
                params@,
                contract@,
                entropy,
                cbor::option_view(origin),
            ) == Ok::<GameRecordView, RefusalView>(record@),
            BindDecision::Refuse(e) => bind_outcome(
                record_view(existing),
                label@,
                public_key@,
                params@,
                contract@,
                entropy,
                cbor::option_view(origin),
            ) == Err::<GameRecordView, RefusalView>(e@),
        },
{
    // If the record's layout is not ours, not one field in it can be trusted,
    // the origin included.
    if let Some(rec) = existing {
        if rec.format != GAME_RECORD_FORMAT {
            return BindDecision::Refuse(
                Refusal::StaleRecordFormat { found: rec.format, expected: GAME_RECORD_FORMAT },
            );
        }
        if !same_origin(&rec.origin, &origin) {
            return BindDecision::Refuse(Refusal::WrongOrigin);
        }
        let held = rec.game_id();
        let asked = params.game_id();
        if !same_bytes(held.as_slice(), asked.as_slice()) {
            return BindDecision::Refuse(Refusal::AlreadyBound { game_id: held });
        }
        return BindDecision::Bind { record: rec.clone() };
    }
    let color = match params.color_of(&public_key) {
        Some(c) => c,
        None => return BindDecision::Refuse(Refusal::KeyNotInParams),
    };
    let zero: [u8; 32] = [0u8; 32];
    assert(zero@ =~= zeros());
    BindDecision::Bind {
        record: GameRecord {
            format: GAME_RECORD_FORMAT,
            label: label.to_owned(),
            params: params.clone(),
            side: Side::from(color),
            origin,
            contract,
            previous: None,
            entropy,
            last_signed_ply: 0,
            last_move_body_hash: zero,
        },
    }
}

/// The record to store for a rebind, or the refusal. The signing key and the
/// ply counter are not touched.
pub open spec fn rebind_outcome(
    existing: Option<GameRecordView>,
    label: Seq<char>,
    contract: Seq<u8>,
    origin: Option<Seq<u8>>,
) -> Result<GameRecordView, RefusalView> {
    match existing {
        None => Err(RefusalView::UnknownGame),
        Some(rec) => if rec.format != GAME_RECORD_FORMAT {
            Err(
                RefusalView::StaleRecordFormat {
                    found: rec.format,
                    expected: GAME_RECORD_FORMAT,
                },
            )
        } else if rec.label != label {
            Err(RefusalView::UnknownGame)
        } else if rec.origin != origin {
            Err(RefusalView::WrongOrigin)
        } else if rec.contract == contract {
            Ok(rec)
        } else {
            Ok(GameRecordView { contract, previous: Some(rec.contract), ..rec })
        },
    }
}

/// What to do with a request to rebind.
#[derive(Debug, PartialEq, Eq)]
pub enum RebindDecision {
    Rebind { record: GameRecord },
    Refuse(Refusal),
}

/// Point the game bound to `label` at another contract instance, remembering
/// the one it leaves. The delegate cannot tell whether the instance belongs to
/// the game; nothing it guards depends on that.
pub fn decide_rebind(
    existing: Option<&GameRecord>,
    label: &str,
    contract: [u8; 32],
    origin: Option<[u8; 32]>,
) -> (r: RebindDecision)
    ensures
        match r {
            RebindDecision::Rebind { record } => rebind_outcome(
                record_view(existing),
                label@,
                contract@,
                cbor::option_view(origin),
            ) == Ok::<GameRecordView, RefusalView>(record@),
            RebindDecision::Refuse(e) => rebind_outcome(
                record_view(existing),
                label@,
                contract@,
                cbor::option_view(origin),
            ) == Err::<GameRecordView, RefusalView>(e@),
        },
{
    let rec = match existing {
        Some(rec) => rec,
        None => return RebindDecision::Refuse(Refusal::UnknownGame),
    };
    if rec.format != GAME_RECORD_FORMAT {
        return RebindDecision::Refuse(
            Refusal::StaleRecordFormat { found: rec.format, expected: GAME_RECORD_FORMAT },
        );
    }
    if !same_text(rec.label.as_str(), label) {
        return RebindDecision::Refuse(Refusal::UnknownGame);
    }
    if !same_origin(&rec.origin, &origin) {
        return RebindDecision::Refuse(Refusal::WrongOrigin);
    }
    let mut record = rec.clone();
    if !same_bytes(rec.contract.as_slice(), contract.as_slice()) {
        record.previous = Some(rec.contract);
        record.contract = contract;
    }
    RebindDecision::Rebind { record }
}

// ---------------------------------------------------------------------------
// Signing.
// ---------------------------------------------------------------------------

/// The record to store before signing a body, or the refusal.
pub open spec fn sign_outcome(
    rec: GameRecordView,
    body: BodyView,
    origin: Option<Seq<u8>>,
) -> Result<GameRecordView, RefusalView> {
    if rec.format != GAME_RECORD_FORMAT {
        Err(
            RefusalView::StaleRecordFormat { found: rec.format, expected: GAME_RECORD_FORMAT },
        )
    } else if rec.origin != origin {
        Err(RefusalView::WrongOrigin)
    } else {
        match body {
            BodyView::Move { ply, .. } => if ply > MAX_PLY {
                Err(RefusalView::PlyOutOfRange { ply, max: MAX_PLY })
            } else if Side::of(types::side_at(ply as int)) != rec.side {
                Err(
                    RefusalView::WrongSide {
                        ours: rec.side,
                        ply_needs: Side::of(types::side_at(ply as int)),
                    },
                )
            } else if ply > rec.last_signed_ply {
                Ok(
                    GameRecordView {
                        last_signed_ply: ply,
                        last_move_body_hash: body_digest(body),
                        ..rec
                    },
                )
            } else if ply == rec.last_signed_ply && ply != 0 && body_digest(body)
                == rec.last_move_body_hash {
                Ok(rec)
            } else {
                Err(RefusalView::PlyAlreadySigned { ply })
            },
            _ => Ok(rec),
        }
    }
}

/// What to do with a request to sign.
#[derive(Debug, PartialEq, Eq)]
pub enum SignDecision {
    /// Sign the body and persist `updated`. For an identical retry `updated`
    /// equals the record passed in.
    Sign { updated: GameRecord },
    Refuse(Refusal),
}

/// Decide whether to sign, using only what the delegate itself has recorded.
///
/// Nothing here trusts the caller's view of the game. A different move at a ply
/// that was signed already would be the fraud proof of a double sign; only an
/// identical retry passes.
pub fn decide_sign(record: &GameRecord, body: &Body, origin: Option<[u8; 32]>) -> (r: SignDecision)
    ensures
        match r {
            SignDecision::Sign { updated } => sign_outcome(record@, body@, cbor::option_view(origin))
                == Ok::<GameRecordView, RefusalView>(updated@),
            SignDecision::Refuse(e) => sign_outcome(record@, body@, cbor::option_view(origin)) == Err::<
                GameRecordView,
                RefusalView,
            >(e@),
        },
{
    if record.format != GAME_RECORD_FORMAT {
        return SignDecision::Refuse(
            Refusal::StaleRecordFormat { found: record.format, expected: GAME_RECORD_FORMAT },
        );
    }
    if !same_origin(&record.origin, &origin) {
        return SignDecision::Refuse(Refusal::WrongOrigin);
    }
    match body {
        Body::Move { ply, .. } => {
            let ply: u16 = *ply;
            // No record past the cap can verify, and signing one would move
            // the counter past every ply the game can still reach.
            if ply > MAX_PLY {
                return SignDecision::Refuse(Refusal::PlyOutOfRange { ply, max: MAX_PLY });
            }
            let needs: Side = Side::from(color_at_ply(ply));
            if needs != record.side {
                return SignDecision::Refuse(
                    Refusal::WrongSide { ours: record.side, ply_needs: needs },
                );
            }
            if ply < record.last_signed_ply {
                return SignDecision::Refuse(Refusal::PlyAlreadySigned { ply });
            }
            let hash = body_hash(body);
            if ply == record.last_signed_ply {
                if ply != 0 && same_bytes(hash.as_slice(), record.last_move_body_hash.as_slice()) {
                    return SignDecision::Sign { updated: record.clone() };
                }
                return SignDecision::Refuse(Refusal::PlyAlreadySigned { ply });
            }
            let mut updated = record.clone();
            updated.last_signed_ply = ply;
            updated.last_move_body_hash = hash;
            SignDecision::Sign { updated }
        },
        // Idempotent by record id, so no guard is needed.
        _ => SignDecision::Sign { updated: record.clone() },
    }
}

// ---------------------------------------------------------------------------
// Laws.
// ---------------------------------------------------------------------------

/// Signing moves the counter forward or leaves it, and changes nothing else
/// but the digest that goes with it.
pub proof fn the_counter_never_goes_back(
    rec: GameRecordView,
    body: BodyView,
    origin: Option<Seq<u8>>,
)
    ensures
        sign_outcome(rec, body, origin) matches Ok(next) ==> {
            &&& next.last_signed_ply >= rec.last_signed_ply
            &&& next == GameRecordView {
                last_signed_ply: next.last_signed_ply,
                last_move_body_hash: next.last_move_body_hash,
                ..rec
            }
        },
{
}

/// What the delegate holds after a run of requests to sign, one after another.
/// A refused request changes nothing.
pub open spec fn after_run(
    rec: GameRecordView,
    asks: Seq<(BodyView, Option<Seq<u8>>)>,
) -> GameRecordView
    decreases asks.len(),
{
    if asks.len() == 0 {
        rec
    } else {
        let before = after_run(rec, asks.drop_last());
        match sign_outcome(before, asks.last().0, asks.last().1) {
            Ok(next) => next,
            Err(_) => before,
        }
    }
}

/// The `i`-th request of a run was granted.
pub open spec fn granted(
    rec: GameRecordView,
    asks: Seq<(BodyView, Option<Seq<u8>>)>,
    i: int,
) -> bool {
    sign_outcome(after_run(rec, asks.take(i)), asks[i].0, asks[i].1) is Ok
}

/// After a move was granted, the counter is past its ply, or at it with the
/// move's digest beside it.
proof fn a_grant_is_remembered(
    rec: GameRecordView,
    asks: Seq<(BodyView, Option<Seq<u8>>)>,
    i: int,
    n: int,
)
    requires
        0 <= i < n <= asks.len(),
        granted(rec, asks, i),
        asks[i].0 is Move,
    ensures
        ({
            let now = after_run(rec, asks.take(n));
            let ply = asks[i].0.ply()->0;
            now.last_signed_ply > ply || now.last_signed_ply == ply && now.last_move_body_hash
                == body_digest(asks[i].0)
        }),
    decreases n,
{
    assert(asks.take(n).drop_last() =~= asks.take(n - 1));
    assert(asks.take(n).last() == asks[n - 1]);
    if n - 1 > i {
        a_grant_is_remembered(rec, asks, i, n - 1);
    }
}

/// Whatever it is asked, in whatever order, the delegate never signs two
/// different moves at one ply: two granted moves at one ply have one digest.
pub proof fn no_ply_is_signed_twice(
    rec: GameRecordView,
    asks: Seq<(BodyView, Option<Seq<u8>>)>,
    i: int,
    j: int,
)
    requires
        0 <= i < j < asks.len(),
        granted(rec, asks, i),
        granted(rec, asks, j),
        asks[i].0 is Move,
        asks[j].0 is Move,
        asks[i].0.ply() == asks[j].0.ply(),
    ensures
        body_digest(asks[i].0) == body_digest(asks[j].0),
{
    a_grant_is_remembered(rec, asks, i, j);
}

/// Migrating a record never resets what guards it.
pub proof fn migration_keeps_the_guard(rec: GameRecordView)
    ensures
        migrated(rec) matches Some(next) ==> {
            &&& next.format == GAME_RECORD_FORMAT
            &&& next.last_signed_ply == rec.last_signed_ply
            &&& next.last_move_body_hash == rec.last_move_body_hash
            &&& next.origin == rec.origin
            &&& next.params == rec.params
            &&& next.side == rec.side
            &&& migrated(next) == Some(next)
        },
{
}

/// Rebinding a game never resets what guards it, and remembers where the game
/// was.
pub proof fn rebinding_keeps_the_guard(
    existing: GameRecordView,
    label: Seq<char>,
    contract: Seq<u8>,
    origin: Option<Seq<u8>>,
)
    ensures
        rebind_outcome(Some(existing), label, contract, origin) matches Ok(next) ==> {
            &&& next.contract == contract
            &&& next.last_signed_ply == existing.last_signed_ply
            &&& next.last_move_body_hash == existing.last_move_body_hash
            &&& next.origin == existing.origin
            &&& next.params == existing.params
            &&& next.side == existing.side
            &&& contract != existing.contract ==> next.previous == Some(existing.contract)
        },
{
}

/// A move of our own side, past everything signed before and within the cap, is
/// signed for the origin that bound the game; asked for again, it is signed
/// again, and nothing changes.
pub proof fn the_next_move_is_signed(rec: GameRecordView, body: BodyView, origin: Option<Seq<u8>>)
    requires
        rec.format == GAME_RECORD_FORMAT,
        rec.origin == origin,
        body is Move,
        rec.last_signed_ply < body.ply()->0 <= MAX_PLY,
        body.ply()->0 % 2 == 1 <==> rec.side is White,
    ensures
        sign_outcome(rec, body, origin) matches Ok(next) && {
            &&& next.last_signed_ply == body.ply()->0
            &&& sign_outcome(next, body, origin) == Ok::<GameRecordView, RefusalView>(next)
        },
{
}

/// A move that is signed is one of our own side, within the cap, and not before
/// what was signed already.
pub proof fn only_our_own_moves_are_signed(
    rec: GameRecordView,
    body: BodyView,
    origin: Option<Seq<u8>>,
)
    requires
        body is Move,
        sign_outcome(rec, body, origin) is Ok,
    ensures
        rec.last_signed_ply <= body.ply()->0 <= MAX_PLY,
        1 <= body.ply()->0,
        body.ply()->0 % 2 == 1 <==> rec.side is White,
{
}

/// Once a move is signed, every move at an earlier ply of our own side is
/// refused for having been signed already, and so is every other move at that
/// ply.
pub proof fn a_signed_ply_closes_what_is_before_it(
    rec: GameRecordView,
    body: BodyView,
    other: BodyView,
    origin: Option<Seq<u8>>,
)
    requires
        body is Move,
        other is Move,
        other.ply()->0 % 2 == body.ply()->0 % 2,
        sign_outcome(rec, body, origin) is Ok,
        other.ply()->0 < body.ply()->0 || other.ply()->0 == body.ply()->0 && body_digest(other)
            != body_digest(body),
    ensures
        sign_outcome(sign_outcome(rec, body, origin)->Ok_0, other, origin) == Err::<
            GameRecordView,
            RefusalView,
        >(RefusalView::PlyAlreadySigned { ply: other.ply()->0 }),
{
}

/// What is no move is signed whenever it is asked for by the origin that bound
/// the game, whatever was signed before, and leaves the record as it is.
pub proof fn what_is_no_move_is_not_counted(
    rec: GameRecordView,
    body: BodyView,
    origin: Option<Seq<u8>>,
)
    requires
        body !is Move,
        rec.format == GAME_RECORD_FORMAT,
    ensures
        rec.origin == origin ==> sign_outcome(rec, body, origin) == Ok::<
            GameRecordView,
            RefusalView,
        >(rec),
        rec.origin != origin ==> sign_outcome(rec, body, origin) is Err,
{
}

/// A game answers to the origin that bound it and to no other, whatever is
/// asked.
pub proof fn a_game_answers_to_its_own_origin(
    rec: GameRecordView,
    label: Seq<char>,
    public_key: Seq<u8>,
    params: ParamsView,
    contract: Seq<u8>,
    entropy: EntropyQuality,
    body: BodyView,
    origin: Option<Seq<u8>>,
)
    requires
        rec.format == GAME_RECORD_FORMAT,
        rec.origin != origin,
    ensures
        sign_outcome(rec, body, origin) == Err::<GameRecordView, RefusalView>(
            RefusalView::WrongOrigin,
        ),
        bind_outcome(Some(rec), label, public_key, params, contract, entropy, origin) == Err::<
            GameRecordView,
            RefusalView,
        >(RefusalView::WrongOrigin),
        rebind_outcome(Some(rec), rec.label, contract, origin) == Err::<
            GameRecordView,
            RefusalView,
        >(RefusalView::WrongOrigin),
{
}

/// A record in another layout is trusted in nothing: whatever is asked is
/// refused, and the refusal names the layout that was found.
pub proof fn another_layout_is_refused(
    rec: GameRecordView,
    label: Seq<char>,
    public_key: Seq<u8>,
    params: ParamsView,
    contract: Seq<u8>,
    entropy: EntropyQuality,
    body: BodyView,
    origin: Option<Seq<u8>>,
)
    requires
        rec.format != GAME_RECORD_FORMAT,
    ensures
        sign_outcome(rec, body, origin) matches Err(RefusalView::StaleRecordFormat { found, .. })
            && found == rec.format,
        bind_outcome(Some(rec), label, public_key, params, contract, entropy, origin) matches Err(
            RefusalView::StaleRecordFormat { found, .. },
        ) && found == rec.format,
        rebind_outcome(Some(rec), label, contract, origin) matches Err(
            RefusalView::StaleRecordFormat { found, .. },
        ) && found == rec.format,
{
}

/// Binding a label to a game it is bound to already changes nothing, with
/// whatever contract it is asked; binding it to another game is refused, and the
/// refusal names the game it has.
pub proof fn a_label_is_bound_once(
    rec: GameRecordView,
    label: Seq<char>,
    public_key: Seq<u8>,
    params: ParamsView,
    contract: Seq<u8>,
    entropy: EntropyQuality,
)
    requires
        rec.format == GAME_RECORD_FORMAT,
    ensures
        bind_outcome(Some(rec), label, public_key, rec.params, contract, entropy, rec.origin)
            == Ok::<GameRecordView, RefusalView>(rec),
        params.game_id() != rec.params.game_id() ==> bind_outcome(
            Some(rec),
            label,
            public_key,
            params,
            contract,
            entropy,
            rec.origin,
        ) == Err::<GameRecordView, RefusalView>(
            RefusalView::AlreadyBound { game_id: rec.params.game_id() },
        ),
{
}

/// A key is bound to a game exactly if it is one of the two that play it, and
/// from then on it may sign the moves of the side it plays, from the first on,
/// and of no other.
pub proof fn a_bound_key_plays_its_own_side(
    label: Seq<char>,
    public_key: Seq<u8>,
    params: ParamsView,
    contract: Seq<u8>,
    entropy: EntropyQuality,
    origin: Option<Seq<u8>>,
    body: BodyView,
)
    requires
        params.white != params.black,
        body is Move,
        1 <= body.ply()->0 <= MAX_PLY,
    ensures
        ({
            let bound = bind_outcome(None, label, public_key, params, contract, entropy, origin);
            &&& bound is Ok <==> public_key == params.white || public_key == params.black
            &&& bound is Err ==> bound->Err_0 == RefusalView::KeyNotInParams
            &&& bound matches Ok(rec) ==> {
                &&& rec.label == label
                &&& rec.params == params
                &&& rec.contract == contract
                &&& rec.previous is None
                &&& rec.entropy == entropy
                &&& sign_outcome(rec, body, origin) is Ok <==> public_key == params.key_of(
                    types::side_at(body.ply()->0 as int),
                )
            }
        }),
{
}

/// A game moved to another contract and back is where it was, and remembers the
/// contract it came back from; moved to where it is, it stays as it is.
pub proof fn a_game_can_be_moved_back(rec: GameRecordView, contract: Seq<u8>)
    requires
        rec.format == GAME_RECORD_FORMAT,
    ensures
        rebind_outcome(Some(rec), rec.label, rec.contract, rec.origin) == Ok::<
            GameRecordView,
            RefusalView,
        >(rec),
        contract != rec.contract ==> (rebind_outcome(Some(rec), rec.label, contract, rec.origin)
            matches Ok(moved) && rebind_outcome(Some(moved), rec.label, rec.contract, rec.origin)
            == Ok::<GameRecordView, RefusalView>(
            GameRecordView { previous: Some(contract), ..rec },
        )),
{
}

/// Only the label that a game is bound under moves it, and a label with no game
/// moves none.
pub proof fn only_the_own_label_moves_a_game(
    rec: GameRecordView,
    label: Seq<char>,
    contract: Seq<u8>,
)
    requires
        rec.format == GAME_RECORD_FORMAT,
        label != rec.label,
    ensures
        rebind_outcome(Some(rec), label, contract, rec.origin) == Err::<
            GameRecordView,
            RefusalView,
        >(RefusalView::UnknownGame),
        rebind_outcome(None, label, contract, rec.origin) == Err::<GameRecordView, RefusalView>(
            RefusalView::UnknownGame,
        ),
{
}

/// Where a game is kept has no part in what may be signed in it.
pub proof fn signing_is_the_same_in_every_contract(
    rec: GameRecordView,
    contract: Seq<u8>,
    body: BodyView,
    origin: Option<Seq<u8>>,
)
    requires
        rebind_outcome(Some(rec), rec.label, contract, rec.origin) is Ok,
    ensures
        ({
            let moved = rebind_outcome(Some(rec), rec.label, contract, rec.origin)->Ok_0;
            match sign_outcome(rec, body, origin) {
                Ok(next) => sign_outcome(moved, body, origin) == Ok::<GameRecordView, RefusalView>(
                    GameRecordView { contract: moved.contract, previous: moved.previous, ..next },
                ),
                Err(e) => sign_outcome(moved, body, origin) == Err::<GameRecordView, RefusalView>(
                    e,
                ),
            }
        }),
{
}

/// Everything that should make a key a fresh one goes into its seed: two seeds
/// are made of the same bytes only where the host, the caller and the label all
/// gave the same.
pub proof fn a_seed_is_made_of_all_it_is_given(
    host: HostEntropy,
    caller: Seq<u8>,
    label: Seq<char>,
    other_host: HostEntropy,
    other_caller: Seq<u8>,
    other_label: Seq<char>,
)
    requires
        caller.len() == 32,
        other_caller.len() == 32,
        seed_input(host, Some(caller), label) == seed_input(
            other_host,
            Some(other_caller),
            other_label,
        ),
    ensures
        host_bytes(host) == host_bytes(other_host),
        caller == other_caller,
        label == other_label,
{
    let domain = bytes::text_bytes(DOMAIN_KEYGEN@);
    let a = bytes::text_bytes(label);
    let b = bytes::text_bytes(other_label);
    let c = if all_zero(caller) {
        zeros()
    } else {
        caller
    };
    let d = if all_zero(other_caller) {
        zeros()
    } else {
        other_caller
    };
    let m = vstd::bytes::spec_u32_to_le_bytes(a.len() as u32);
    let n = vstd::bytes::spec_u32_to_le_bytes(b.len() as u32);
    vstd::bytes::lemma_auto_spec_u32_to_from_le_bytes();
    assert(m.len() == 4 && n.len() == 4);
    assert(host_bytes(host).len() == 32 && host_bytes(other_host).len() == 32);
    bytes::split_equal(
        domain + host_bytes(host) + c + m,
        a,
        domain + host_bytes(other_host) + d + n,
        b,
    );
    bytes::text_bytes_injective(label, other_label);
    bytes::split_equal(domain + host_bytes(host) + c, m, domain + host_bytes(other_host) + d, n);
    bytes::split_equal(domain + host_bytes(host), c, domain + host_bytes(other_host), d);
    bytes::split_equal(domain, host_bytes(host), domain, host_bytes(other_host));
    assert(all_zero(zeros()));
    assert(caller =~= c);
    assert(other_caller =~= d);
}

/// What the delegate grants is never refused for its ply: a move that it signs,
/// with a signature that holds for one of the two players, is valid.
pub proof fn a_granted_move_can_be_valid(
    rec: GameRecordView,
    origin: Option<Seq<u8>>,
    r: types::RecordView,
    params: ParamsView,
)
    requires
        r.body is Move,
        sign_outcome(rec, r.body, origin) is Ok,
        params.color_of(r.signer) is Some,
        r.sig.len() == 64,
        crypto::is_public_key(r.signer),
        crypto::signature_holds(r.signer, types::payload(params.game_id(), r.body), r.sig),
    ensures
        r.valid(params),
{
}

/// A host that gives the same twice, or zeros, is dead; one that gives two
/// different draws is alive, and what it contributes is the first of them.
pub proof fn a_host_that_repeats_itself_is_dead(first: [u8; 32], second: [u8; 32])
    ensures
        classified(first, first) is Dead,
        first@ == zeros() ==> classified(first, second) is Dead,
        first@ != second@ && first@ != zeros() ==> host_bytes(classified(first, second)) == first@,
        classified(first, second) is Dead ==> host_bytes(classified(first, second)) == zeros(),
{
    if all_zero(first@) {
        assert(first@ =~= zeros());
    }
}

/// Two layouts are read, this one and the one before it, and no other. The one
/// before knew of no migration; all else that it says is kept.
pub proof fn only_known_layouts_are_read(rec: GameRecordView)
    ensures
        migrated(rec) is Some <==> rec.format == 2 || rec.format == 3,
        rec.format == 3 ==> migrated(rec) == Some(rec),
        rec.format == 2 ==> (migrated(rec) matches Some(next) && next.previous is None && next.label
            == rec.label && next.contract == rec.contract && next.entropy == rec.entropy
            && next.format == 3),
{
}

/// A move past the cap is refused for that, whoever's turn it would be; within
/// the cap, one of the other side is refused for the side, whatever was signed
/// before, and the refusal names both.
pub proof fn a_refused_move_is_told_why(
    rec: GameRecordView,
    body: BodyView,
    origin: Option<Seq<u8>>,
)
    requires
        rec.format == GAME_RECORD_FORMAT,
        rec.origin == origin,
        body is Move,
    ensures
        body.ply()->0 > MAX_PLY ==> sign_outcome(rec, body, origin) == Err::<
            GameRecordView,
            RefusalView,
        >(RefusalView::PlyOutOfRange { ply: body.ply()->0, max: MAX_PLY }),
        body.ply()->0 <= MAX_PLY && (body.ply()->0 % 2 == 1 <==> rec.side is Black)
            ==> sign_outcome(rec, body, origin) == Err::<GameRecordView, RefusalView>(
            RefusalView::WrongSide {
                ours: rec.side,
                ply_needs: if rec.side is Black {
                    Side::White
                } else {
                    Side::Black
                },
            },
        ),
{
}

} // verus!
