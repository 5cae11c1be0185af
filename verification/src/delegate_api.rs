//! The messages a client and the delegate exchange.

use vstd::prelude::*;
use vstd::std_specs::convert::FromSpecImpl;
use crate::bytes::same_text;
use crate::cbor;
use crate::cbor::{Cbor, Item};
use crate::text;
use crate::text::{decimal_text, join3, join5};
use crate::types;
use crate::types::{Body, BodyView, Color, GameParams, KeyBytes, ParamsView, Record, RecordView};

verus! {

/// `GameParams::game_id()`.
pub type GameId = [u8; 32];

/// A side of the board, as it is written in messages.
#[derive(Clone, Copy, Debug, PartialEq, Eq, Structural)]
pub enum Side {
    White,
    Black,
}

impl Side {
    /// The side of a colour.
    pub open spec fn of(c: Color) -> Side {
        match c {
            Color::White => Side::White,
            Color::Black => Side::Black,
        }
    }

    /// The name of the side.
    pub open spec fn text(self) -> Seq<char> {
        match self {
            Side::White => "White"@,
            Side::Black => "Black"@,
        }
    }

    /// The name of the side.
    pub fn name(self) -> (r: &'static str)
        ensures
            r@ == self.text(),
    {
        match self {
            Side::White => "White",
            Side::Black => "Black",
        }
    }
}

impl From<Color> for Side {
    fn from(c: Color) -> (r: Side) {
        match c {
            Color::White => Side::White,
            Color::Black => Side::Black,
        }
    }
}

impl FromSpecImpl<Color> for Side {
    open spec fn obeys_from_spec() -> bool {
        true
    }

    open spec fn from_spec(c: Color) -> Side {
        Side::of(c)
    }
}

impl From<Side> for Color {
    fn from(s: Side) -> (r: Color) {
        match s {
            Side::White => Color::White,
            Side::Black => Color::Black,
        }
    }
}

impl FromSpecImpl<Side> for Color {
    open spec fn obeys_from_spec() -> bool {
        true
    }

    open spec fn from_spec(s: Side) -> Color {
        match s {
            Side::White => Color::White,
            Side::Black => Color::Black,
        }
    }
}

/// Read a side out of a document.
pub open spec fn parse_side(c: Cbor) -> Option<Side> {
    match cbor::as_variant(c) {
        Some((name, None)) => if name == "White"@ {
            Some(Side::White)
        } else if name == "Black"@ {
            Some(Side::Black)
        } else {
            None
        },
        _ => None,
    }
}

/// Read a side out of a CBOR document.
pub fn side_of(item: &Item) -> (r: Option<Side>)
    ensures
        r == parse_side(item@),
{
    match cbor::variant_of(item) {
        Some((name, None)) => if same_text(name.as_str(), "White") {
            Some(Side::White)
        } else if same_text(name.as_str(), "Black") {
            Some(Side::Black)
        } else {
            None
        },
        _ => None,
    }
}

/// Whether a key was generated with host-backed randomness.
#[derive(Clone, Copy, Debug, PartialEq, Eq, Structural)]
pub enum EntropyQuality {
    HostBacked,
    Degraded,
}

impl EntropyQuality {
    /// The name of the quality.
    pub open spec fn text(self) -> Seq<char> {
        match self {
            EntropyQuality::HostBacked => "HostBacked"@,
            EntropyQuality::Degraded => "Degraded"@,
        }
    }

    /// The name of the quality.
    pub fn name(self) -> (r: &'static str)
        ensures
            r@ == self.text(),
    {
        match self {
            EntropyQuality::HostBacked => "HostBacked",
            EntropyQuality::Degraded => "Degraded",
        }
    }

    /// The quality as bytes. It reads back as the same quality.
    pub fn encode(self) -> (r: Vec<u8>)
        ensures
            r@ == cbor::cbor_bytes(Cbor::Text(self.text())),
            decoded_entropy(r@) == Some(self),
    {
        proof {
            names_differ();
        }
        cbor::write(cbor::text_item(self.name()))
    }

    /// Read a quality; `None` where the bytes are malformed.
    pub fn decode(raw: &[u8]) -> (r: Option<EntropyQuality>)
        ensures
            r == decoded_entropy(raw@),
    {
        match cbor::read(raw) {
            Some(item) => match cbor::variant_of(&item) {
                Some((name, _)) => entropy_by_name(name.as_str()),
                None => None,
            },
            None => None,
        }
    }
}

/// The quality of this name.
pub open spec fn entropy_called(name: Seq<char>) -> Option<EntropyQuality> {
    if name == "HostBacked"@ {
        Some(EntropyQuality::HostBacked)
    } else if name == "Degraded"@ {
        Some(EntropyQuality::Degraded)
    } else {
        None
    }
}

/// Read a quality out of a document.
pub open spec fn parse_entropy(c: Cbor) -> Option<EntropyQuality> {
    match cbor::as_variant(c) {
        Some((name, None)) => entropy_called(name),
        _ => None,
    }
}

/// The quality that a byte string holds. What goes with its name is passed
/// over.
pub open spec fn decoded_entropy(raw: Seq<u8>) -> Option<EntropyQuality> {
    match cbor::document(raw) {
        Some(c) => match cbor::as_variant(c) {
            Some((name, _)) => entropy_called(name),
            None => None,
        },
        None => None,
    }
}

/// The quality of this name.
fn entropy_by_name(name: &str) -> (r: Option<EntropyQuality>)
    ensures
        r == entropy_called(name@),
{
    if same_text(name, "HostBacked") {
        Some(EntropyQuality::HostBacked)
    } else if same_text(name, "Degraded") {
        Some(EntropyQuality::Degraded)
    } else {
        None
    }
}

/// Read a quality out of a CBOR document.
pub fn entropy_of(item: &Item) -> (r: Option<EntropyQuality>)
    ensures
        r == parse_entropy(item@),
{
    match cbor::variant_of(item) {
        Some((name, None)) => entropy_by_name(name.as_str()),
        _ => None,
    }
}

/// The first letters and lengths of the names in the messages: enough to tell
/// them apart.
pub proof fn names_differ()
    ensures
        "record"@.len() == 6,
        "White"@.len() == 5 && "White"@[0] == 'W',
        "Black"@.len() == 5 && "Black"@[0] == 'B',
        "HostBacked"@.len() == 10 && "HostBacked"@[0] == 'H',
        "Degraded"@.len() == 8 && "Degraded"@[0] == 'D',
        "CreateGameKey"@.len() == 13 && "CreateGameKey"@[0] == 'C',
        "BindGame"@.len() == 8 && "BindGame"@[0] == 'B',
        "Rebind"@.len() == 6 && "Rebind"@[0] == 'R',
        "Sign"@.len() == 4 && "Sign"@[0] == 'S',
        "ListGames"@.len() == 9 && "ListGames"@[0] == 'L',
        "label"@.len() == 5 && "label"@[0] == 'l',
        "caller_entropy"@.len() == 14 && "caller_entropy"@[0] == 'c',
        "params"@.len() == 6 && "params"@[0] == 'p',
        "contract"@.len() == 8 && "contract"@[0] == 'c',
        "game_id"@.len() == 7 && "game_id"@[0] == 'g',
        "body"@.len() == 4 && "body"@[0] == 'b',
        "GameKey"@.len() == 7 && "GameKey"@[0] == 'G',
        "Bound"@.len() == 5 && "Bound"@[0] == 'B',
        "Signed"@.len() == 6 && "Signed"@[0] == 'S',
        "Games"@.len() == 5 && "Games"@[0] == 'G',
        "Refused"@.len() == 7 && "Refused"@[0] == 'R',
        "public_key"@.len() == 10 && "public_key"@[0] == 'p',
        "side"@.len() == 4 && "side"@[0] == 's',
        "last_signed_ply"@.len() == 15 && "last_signed_ply"@[0] == 'l',
        "entropy"@.len() == 7 && "entropy"@[0] == 'e',
        "previous"@.len() == 8 && "previous"@[0] == 'p',
        "UnknownLabel"@.len() == 12 && "UnknownLabel"@[0] == 'U',
        "LabelExists"@.len() == 11 && "LabelExists"@[0] == 'L',
        "UnknownGame"@.len() == 11 && "UnknownGame"@[0] == 'U',
        "AlreadyBound"@.len() == 12 && "AlreadyBound"@[0] == 'A',
        "KeyNotInParams"@.len() == 14 && "KeyNotInParams"@[0] == 'K',
        "WrongSide"@.len() == 9 && "WrongSide"@[0] == 'W',
        "PlyAlreadySigned"@.len() == 16 && "PlyAlreadySigned"@[0] == 'P',
        "PlyOutOfRange"@.len() == 13 && "PlyOutOfRange"@[0] == 'P',
        "WrongOrigin"@.len() == 11 && "WrongOrigin"@[0] == 'W',
        "NoEntropy"@.len() == 9 && "NoEntropy"@[0] == 'N',
        "StaleRecordFormat"@.len() == 17 && "StaleRecordFormat"@[0] == 'S',
        "Malformed"@.len() == 9 && "Malformed"@[0] == 'M',
        "StoreFailed"@.len() == 11 && "StoreFailed"@[0] == 'S',
        "IllegalMove"@.len() == 11 && "IllegalMove"@[0] == 'I',
        "ours"@.len() == 4 && "ours"@[0] == 'o',
        "ply_needs"@.len() == 9 && "ply_needs"@[0] == 'p',
        "ply"@.len() == 3 && "ply"@[0] == 'p',
        "max"@.len() == 3 && "max"@[0] == 'm',
        "found"@.len() == 5 && "found"@[0] == 'f',
        "expected"@.len() == 8 && "expected"@[0] == 'e',
        "v"@.len() == 1 && "v"@[0] == 'v',
        "origin"@.len() == 6 && "origin"@[0] == 'o',
        "last_move_body_hash"@.len() == 19 && "last_move_body_hash"@[0] == 'l',
{
    reveal_strlit("record");
    reveal_strlit("White");
    reveal_strlit("Black");
    reveal_strlit("HostBacked");
    reveal_strlit("Degraded");
    reveal_strlit("CreateGameKey");
    reveal_strlit("BindGame");
    reveal_strlit("Rebind");
    reveal_strlit("Sign");
    reveal_strlit("ListGames");
    reveal_strlit("label");
    reveal_strlit("caller_entropy");
    reveal_strlit("params");
    reveal_strlit("contract");
    reveal_strlit("game_id");
    reveal_strlit("body");
    reveal_strlit("GameKey");
    reveal_strlit("Bound");
    reveal_strlit("Signed");
    reveal_strlit("Games");
    reveal_strlit("Refused");
    reveal_strlit("public_key");
    reveal_strlit("side");
    reveal_strlit("last_signed_ply");
    reveal_strlit("entropy");
    reveal_strlit("previous");
    reveal_strlit("UnknownLabel");
    reveal_strlit("LabelExists");
    reveal_strlit("UnknownGame");
    reveal_strlit("AlreadyBound");
    reveal_strlit("KeyNotInParams");
    reveal_strlit("WrongSide");
    reveal_strlit("PlyAlreadySigned");
    reveal_strlit("PlyOutOfRange");
    reveal_strlit("WrongOrigin");
    reveal_strlit("NoEntropy");
    reveal_strlit("StaleRecordFormat");
    reveal_strlit("Malformed");
    reveal_strlit("StoreFailed");
    reveal_strlit("IllegalMove");
    reveal_strlit("ours");
    reveal_strlit("ply_needs");
    reveal_strlit("ply");
    reveal_strlit("max");
    reveal_strlit("found");
    reveal_strlit("expected");
    reveal_strlit("v");
    reveal_strlit("origin");
    reveal_strlit("last_move_body_hash");
}

// ---------------------------------------------------------------------------
// Refusals.
// ---------------------------------------------------------------------------

/// The value of a [`Refusal`].
#[verifier::ext_equal]
pub enum RefusalView {
    UnknownLabel,
    LabelExists,
    UnknownGame,
    AlreadyBound { game_id: Seq<u8> },
    KeyNotInParams,
    WrongSide { ours: Side, ply_needs: Side },
    PlyAlreadySigned { ply: u16 },
    PlyOutOfRange { ply: u16, max: u16 },
    WrongOrigin,
    NoEntropy,
    StaleRecordFormat { found: u8, expected: u8 },
    Malformed(Seq<char>),
    StoreFailed,
    IllegalMove,
}

/// Why a request was refused. An expected outcome, not a crash.
#[derive(Debug, PartialEq, Eq)]
pub enum Refusal {
    UnknownLabel,
    LabelExists,
    UnknownGame,
    AlreadyBound { game_id: GameId },
    KeyNotInParams,
    WrongSide { ours: Side, ply_needs: Side },
    PlyAlreadySigned { ply: u16 },
    /// The requested ply is past the cap: no record that carries it could
    /// verify.
    PlyOutOfRange { ply: u16, max: u16 },
    /// The caller is not who bound this game.
    WrongOrigin,
    NoEntropy,
    /// The persisted record was written in another layout.
    StaleRecordFormat { found: u8, expected: u8 },
    Malformed(String),
    StoreFailed,
    IllegalMove,
}

impl View for Refusal {
    type V = RefusalView;

    open spec fn view(&self) -> RefusalView {
        match self {
            Refusal::UnknownLabel => RefusalView::UnknownLabel,
            Refusal::LabelExists => RefusalView::LabelExists,
            Refusal::UnknownGame => RefusalView::UnknownGame,
            Refusal::AlreadyBound { game_id } => RefusalView::AlreadyBound {
                game_id: game_id@,
            },
            Refusal::KeyNotInParams => RefusalView::KeyNotInParams,
            Refusal::WrongSide { ours, ply_needs } => RefusalView::WrongSide {
                ours: *ours,
                ply_needs: *ply_needs,
            },
            Refusal::PlyAlreadySigned { ply } => RefusalView::PlyAlreadySigned {
                ply: *ply,
            },
            Refusal::PlyOutOfRange { ply, max } => RefusalView::PlyOutOfRange {
                ply: *ply,
                max: *max,
            },
            Refusal::WrongOrigin => RefusalView::WrongOrigin,
            Refusal::NoEntropy => RefusalView::NoEntropy,
            Refusal::StaleRecordFormat { found, expected } => RefusalView::StaleRecordFormat {
                found: *found,
                expected: *expected,
            },
            Refusal::Malformed(t) => RefusalView::Malformed(t@),
            Refusal::StoreFailed => RefusalView::StoreFailed,
            Refusal::IllegalMove => RefusalView::IllegalMove,
        }
    }
}

impl Clone for Refusal {
    fn clone(&self) -> (r: Refusal)
        ensures
            r@ == self@,
    {
        match self {
            Refusal::UnknownLabel => Refusal::UnknownLabel,
            Refusal::LabelExists => Refusal::LabelExists,
            Refusal::UnknownGame => Refusal::UnknownGame,
            Refusal::AlreadyBound { game_id } => Refusal::AlreadyBound {
                game_id: *game_id,
            },
            Refusal::KeyNotInParams => Refusal::KeyNotInParams,
            Refusal::WrongSide { ours, ply_needs } => Refusal::WrongSide {
                ours: *ours,
                ply_needs: *ply_needs,
            },
            Refusal::PlyAlreadySigned { ply } => Refusal::PlyAlreadySigned {
                ply: *ply,
            },
            Refusal::PlyOutOfRange { ply, max } => Refusal::PlyOutOfRange {
                ply: *ply,
                max: *max,
            },
            Refusal::WrongOrigin => Refusal::WrongOrigin,
            Refusal::NoEntropy => Refusal::NoEntropy,
            Refusal::StaleRecordFormat { found, expected } => Refusal::StaleRecordFormat {
                found: *found,
                expected: *expected,
            },
            Refusal::Malformed(t) => Refusal::Malformed(t.clone()),
            Refusal::StoreFailed => Refusal::StoreFailed,
            Refusal::IllegalMove => Refusal::IllegalMove,
        }
    }
}

/// The side under a name.
pub open spec fn side_at(s: Seq<(Cbor, Cbor)>, name: Seq<char>) -> Option<Side> {
    match cbor::field(s, name) {
        Some(c) => parse_side(c),
        None => None,
    }
}

/// The side under a name.
pub(crate) fn side_field(m: &Vec<(Item, Item)>, name: &str) -> (r: Option<Side>)
    ensures
        r == side_at(cbor::pair_trees(m@), name@),
{
    match cbor::field_of(m, name) {
        Some(i) => side_of(i),
        None => None,
    }
}

/// The byte under a name.
pub(crate) fn byte_field(m: &Vec<(Item, Item)>, name: &str) -> (r: Option<u8>)
    ensures
        match r {
            Some(p) => cbor::number_at(cbor::pair_trees(m@), name@, 255) == Some(p as int),
            None => cbor::number_at(cbor::pair_trees(m@), name@, 255) is None,
        },
{
    match cbor::number_field(m, name, 255) {
        Some(n) => Some(n as u8),
        None => None,
    }
}

impl RefusalView {
    /// As a CBOR document.
    pub open spec fn tree(self) -> Cbor {
        match self {
            RefusalView::UnknownLabel => Cbor::Text("UnknownLabel"@),
            RefusalView::LabelExists => Cbor::Text("LabelExists"@),
            RefusalView::UnknownGame => Cbor::Text("UnknownGame"@),
            RefusalView::AlreadyBound { game_id } => cbor::variant(
                "AlreadyBound"@,
                Cbor::Table(
                    seq![
                        cbor::row("game_id"@, Cbor::Bytes(game_id)),
                    ],
                ),
            ),
            RefusalView::KeyNotInParams => Cbor::Text("KeyNotInParams"@),
            RefusalView::WrongSide { ours, ply_needs } => cbor::variant(
                "WrongSide"@,
                Cbor::Table(
                    seq![
                        cbor::row("ours"@, Cbor::Text(ours.text())),
                        cbor::row("ply_needs"@, Cbor::Text(ply_needs.text())),
                    ],
                ),
            ),
            RefusalView::PlyAlreadySigned { ply } => cbor::variant(
                "PlyAlreadySigned"@,
                Cbor::Table(
                    seq![
                        cbor::row("ply"@, Cbor::Int(ply as int)),
                    ],
                ),
            ),
            RefusalView::PlyOutOfRange { ply, max } => cbor::variant(
                "PlyOutOfRange"@,
                Cbor::Table(
                    seq![
                        cbor::row("ply"@, Cbor::Int(ply as int)),
                        cbor::row("max"@, Cbor::Int(max as int)),
                    ],
                ),
            ),
            RefusalView::WrongOrigin => Cbor::Text("WrongOrigin"@),
            RefusalView::NoEntropy => Cbor::Text("NoEntropy"@),
            RefusalView::StaleRecordFormat { found, expected } => cbor::variant(
                "StaleRecordFormat"@,
                Cbor::Table(
                    seq![
                        cbor::row("found"@, Cbor::Int(found as int)),
                        cbor::row("expected"@, Cbor::Int(expected as int)),
                    ],
                ),
            ),
            RefusalView::Malformed(t) => cbor::variant("Malformed"@, Cbor::Text(t)),
            RefusalView::StoreFailed => Cbor::Text("StoreFailed"@),
            RefusalView::IllegalMove => Cbor::Text("IllegalMove"@),
        }
    }

    /// Its byte strings have the sizes of keys and ids.
    pub open spec fn sized(self) -> bool {
        match self {
            RefusalView::AlreadyBound { game_id, .. } => game_id.len() == 32,
            _ => true,
        }
    }
}

/// Read a refusal out of a document. What goes with one that needs nothing is
/// passed over.
pub open spec fn parse_refusal(c: Cbor) -> Option<RefusalView> {
    match cbor::as_variant(c) {
        Some((name, given)) => match bare_refusal(name) {
            Some(x) => Some(x),
            None => match given {
                Some(inner) => parse_refusal_with(name, inner),
                None => None,
            },
        },
        None => None,
    }
}

/// The refusal of this name that needs nothing to go with it.
pub open spec fn bare_refusal(name: Seq<char>) -> Option<RefusalView> {
    if name == "UnknownLabel"@ {
        Some(RefusalView::UnknownLabel)
    } else if name == "LabelExists"@ {
        Some(RefusalView::LabelExists)
    } else if name == "UnknownGame"@ {
        Some(RefusalView::UnknownGame)
    } else if name == "KeyNotInParams"@ {
        Some(RefusalView::KeyNotInParams)
    } else if name == "WrongOrigin"@ {
        Some(RefusalView::WrongOrigin)
    } else if name == "NoEntropy"@ {
        Some(RefusalView::NoEntropy)
    } else if name == "StoreFailed"@ {
        Some(RefusalView::StoreFailed)
    } else if name == "IllegalMove"@ {
        Some(RefusalView::IllegalMove)
    } else {
        None
    }
}

/// The refusal of this name with what goes with it.
pub open spec fn parse_refusal_with(name: Seq<char>, inner: Cbor) -> Option<RefusalView> {
    if name == "AlreadyBound"@ {
        parse_already_bound(inner)
    } else if name == "WrongSide"@ {
        parse_wrong_side(inner)
    } else if name == "PlyAlreadySigned"@ {
        parse_ply_already_signed(inner)
    } else if name == "PlyOutOfRange"@ {
        parse_ply_out_of_range(inner)
    } else if name == "StaleRecordFormat"@ {
        parse_stale_record_format(inner)
    } else if name == "Malformed"@ {
        parse_malformed(inner)
    } else {
        None
    }
}

/// Read what goes with `Refusal::AlreadyBound`.
pub open spec fn parse_already_bound(c: Cbor) -> Option<RefusalView> {
    match cbor::as_fields(c, seq!["game_id"@]) {
        None => None,
        Some(s) => match cbor::sized_at(s, "game_id"@, 32) {
            Some(game_id) => Some(RefusalView::AlreadyBound { game_id }),
            None => None,
        },
    }
}

/// Read what goes with `Refusal::WrongSide`.
pub open spec fn parse_wrong_side(c: Cbor) -> Option<RefusalView> {
    match cbor::as_fields(c, seq!["ours"@, "ply_needs"@]) {
        None => None,
        Some(s) => match (side_at(s, "ours"@), side_at(s, "ply_needs"@)) {
            (Some(ours), Some(ply_needs)) => Some(RefusalView::WrongSide { ours, ply_needs }),
            _ => None,
        },
    }
}

/// Read what goes with `Refusal::PlyAlreadySigned`.
pub open spec fn parse_ply_already_signed(c: Cbor) -> Option<RefusalView> {
    match cbor::as_fields(c, seq!["ply"@]) {
        None => None,
        Some(s) => match cbor::number_at(s, "ply"@, 65535) {
            Some(ply) => Some(RefusalView::PlyAlreadySigned { ply: ply as u16 }),
            None => None,
        },
    }
}

/// Read what goes with `Refusal::PlyOutOfRange`.
pub open spec fn parse_ply_out_of_range(c: Cbor) -> Option<RefusalView> {
    match cbor::as_fields(c, seq!["ply"@, "max"@]) {
        None => None,
        Some(s) => match (cbor::number_at(s, "ply"@, 65535), cbor::number_at(s, "max"@, 65535)) {
            (Some(ply), Some(max)) => Some(RefusalView::PlyOutOfRange { ply: ply as u16, max: max as u16 }),
            _ => None,
        },
    }
}

/// Read what goes with `Refusal::StaleRecordFormat`.
pub open spec fn parse_stale_record_format(c: Cbor) -> Option<RefusalView> {
    match cbor::as_fields(c, seq!["found"@, "expected"@]) {
        None => None,
        Some(s) => match (cbor::number_at(s, "found"@, 255), cbor::number_at(s, "expected"@, 255)) {
            (Some(found), Some(expected)) => Some(RefusalView::StaleRecordFormat { found: found as u8, expected: expected as u8 }),
            _ => None,
        },
    }
}

/// Read what goes with `Refusal::Malformed`.
pub open spec fn parse_malformed(c: Cbor) -> Option<RefusalView> {
    match cbor::as_text(c) {
        Some(t) => Some(RefusalView::Malformed(t)),
        None => None,
    }
}

/// Read what goes with `Refusal::AlreadyBound`.
fn read_already_bound(item: &Item) -> (r: Option<Refusal>)
    ensures
        match r {
            Some(x) => parse_already_bound(item@) == Some(x@),
            None => parse_already_bound(item@) is None,
        },
{
    match cbor::fields1(item, "game_id") {
        None => None,
        Some(f) => match cbor::field32(f.rows(), "game_id") {
            Some(game_id) => Some(Refusal::AlreadyBound { game_id }),
            None => None,
        },
    }
}

/// Read what goes with `Refusal::WrongSide`.
fn read_wrong_side(item: &Item) -> (r: Option<Refusal>)
    ensures
        match r {
            Some(x) => parse_wrong_side(item@) == Some(x@),
            None => parse_wrong_side(item@) is None,
        },
{
    match cbor::fields2(item, "ours", "ply_needs") {
        None => None,
        Some(f) => match (side_field(f.rows(), "ours"), side_field(f.rows(), "ply_needs")) {
            (Some(ours), Some(ply_needs)) => Some(Refusal::WrongSide { ours, ply_needs }),
            _ => None,
        },
    }
}

/// Read what goes with `Refusal::PlyAlreadySigned`.
fn read_ply_already_signed(item: &Item) -> (r: Option<Refusal>)
    ensures
        match r {
            Some(x) => parse_ply_already_signed(item@) == Some(x@),
            None => parse_ply_already_signed(item@) is None,
        },
{
    match cbor::fields1(item, "ply") {
        None => None,
        Some(f) => match types::ply_field(f.rows(), "ply") {
            Some(ply) => Some(Refusal::PlyAlreadySigned { ply }),
            None => None,
        },
    }
}

/// Read what goes with `Refusal::PlyOutOfRange`.
fn read_ply_out_of_range(item: &Item) -> (r: Option<Refusal>)
    ensures
        match r {
            Some(x) => parse_ply_out_of_range(item@) == Some(x@),
            None => parse_ply_out_of_range(item@) is None,
        },
{
    match cbor::fields2(item, "ply", "max") {
        None => None,
        Some(f) => match (types::ply_field(f.rows(), "ply"), types::ply_field(f.rows(), "max")) {
            (Some(ply), Some(max)) => Some(Refusal::PlyOutOfRange { ply, max }),
            _ => None,
        },
    }
}

/// Read what goes with `Refusal::StaleRecordFormat`.
fn read_stale_record_format(item: &Item) -> (r: Option<Refusal>)
    ensures
        match r {
            Some(x) => parse_stale_record_format(item@) == Some(x@),
            None => parse_stale_record_format(item@) is None,
        },
{
    match cbor::fields2(item, "found", "expected") {
        None => None,
        Some(f) => match (byte_field(f.rows(), "found"), byte_field(f.rows(), "expected")) {
            (Some(found), Some(expected)) => Some(Refusal::StaleRecordFormat { found, expected }),
            _ => None,
        },
    }
}

/// Read what goes with `Refusal::Malformed`.
fn read_malformed(item: &Item) -> (r: Option<Refusal>)
    ensures
        match r {
            Some(x) => parse_malformed(item@) == Some(x@),
            None => parse_malformed(item@) is None,
        },
{
    match cbor::text_of(item) {
        Some(t) => Some(Refusal::Malformed(t.clone())),
        None => None,
    }
}

/// The refusal of this name that needs nothing to go with it.
fn refusal_called(name: &str) -> (r: Option<Refusal>)
    ensures
        match r {
            Some(x) => bare_refusal(name@) == Some(x@),
            None => bare_refusal(name@) is None,
        },
{
    if same_text(name, "UnknownLabel") {
        Some(Refusal::UnknownLabel)
    } else if same_text(name, "LabelExists") {
        Some(Refusal::LabelExists)
    } else if same_text(name, "UnknownGame") {
        Some(Refusal::UnknownGame)
    } else if same_text(name, "KeyNotInParams") {
        Some(Refusal::KeyNotInParams)
    } else if same_text(name, "WrongOrigin") {
        Some(Refusal::WrongOrigin)
    } else if same_text(name, "NoEntropy") {
        Some(Refusal::NoEntropy)
    } else if same_text(name, "StoreFailed") {
        Some(Refusal::StoreFailed)
    } else if same_text(name, "IllegalMove") {
        Some(Refusal::IllegalMove)
    } else {
        None
    }
}

/// The refusal of this name with what goes with it.
fn read_refusal_with(name: &str, inner: &Item) -> (r: Option<Refusal>)
    ensures
        match r {
            Some(x) => parse_refusal_with(name@, inner@) == Some(x@),
            None => parse_refusal_with(name@, inner@) is None,
        },
{
    if same_text(name, "AlreadyBound") {
        read_already_bound(inner)
    } else if same_text(name, "WrongSide") {
        read_wrong_side(inner)
    } else if same_text(name, "PlyAlreadySigned") {
        read_ply_already_signed(inner)
    } else if same_text(name, "PlyOutOfRange") {
        read_ply_out_of_range(inner)
    } else if same_text(name, "StaleRecordFormat") {
        read_stale_record_format(inner)
    } else if same_text(name, "Malformed") {
        read_malformed(inner)
    } else {
        None
    }
}

impl Refusal {
    /// As a CBOR document.
    pub fn to_item(&self) -> (r: Item)
        ensures
            r@ == self@.tree(),
    {
        match self {
            Refusal::UnknownLabel => cbor::text_item("UnknownLabel"),
            Refusal::LabelExists => cbor::text_item("LabelExists"),
            Refusal::UnknownGame => cbor::text_item("UnknownGame"),
            Refusal::AlreadyBound { game_id } => {
                let mut m: Vec<(Item, Item)> = Vec::new();
                cbor::push_row(&mut m, "game_id", cbor::bytes_item(game_id.as_slice()));
                assert(cbor::pair_trees(m@) =~= self@.tree()->Table_0[0].1->Table_0);
                cbor::table1("AlreadyBound", Item::Table(m))
            },
            Refusal::KeyNotInParams => cbor::text_item("KeyNotInParams"),
            Refusal::WrongSide { ours, ply_needs } => {
                let mut m: Vec<(Item, Item)> = Vec::new();
                cbor::push_row(&mut m, "ours", cbor::text_item(ours.name()));
                cbor::push_row(&mut m, "ply_needs", cbor::text_item(ply_needs.name()));
                assert(cbor::pair_trees(m@) =~= self@.tree()->Table_0[0].1->Table_0);
                cbor::table1("WrongSide", Item::Table(m))
            },
            Refusal::PlyAlreadySigned { ply } => {
                let mut m: Vec<(Item, Item)> = Vec::new();
                cbor::push_row(&mut m, "ply", Item::Int(*ply as i128));
                assert(cbor::pair_trees(m@) =~= self@.tree()->Table_0[0].1->Table_0);
                cbor::table1("PlyAlreadySigned", Item::Table(m))
            },
            Refusal::PlyOutOfRange { ply, max } => {
                let mut m: Vec<(Item, Item)> = Vec::new();
                cbor::push_row(&mut m, "ply", Item::Int(*ply as i128));
                cbor::push_row(&mut m, "max", Item::Int(*max as i128));
                assert(cbor::pair_trees(m@) =~= self@.tree()->Table_0[0].1->Table_0);
                cbor::table1("PlyOutOfRange", Item::Table(m))
            },
            Refusal::WrongOrigin => cbor::text_item("WrongOrigin"),
            Refusal::NoEntropy => cbor::text_item("NoEntropy"),
            Refusal::StaleRecordFormat { found, expected } => {
                let mut m: Vec<(Item, Item)> = Vec::new();
                cbor::push_row(&mut m, "found", Item::Int(*found as i128));
                cbor::push_row(&mut m, "expected", Item::Int(*expected as i128));
                assert(cbor::pair_trees(m@) =~= self@.tree()->Table_0[0].1->Table_0);
                cbor::table1("StaleRecordFormat", Item::Table(m))
            },
            Refusal::Malformed(t) => cbor::table1("Malformed", cbor::text_item(t.as_str())),
            Refusal::StoreFailed => cbor::text_item("StoreFailed"),
            Refusal::IllegalMove => cbor::text_item("IllegalMove"),
        }
    }

    /// Read out of a CBOR document.
    pub fn from_item(item: &Item) -> (r: Option<Refusal>)
        ensures
            match r {
                Some(x) => parse_refusal(item@) == Some(x@),
                None => parse_refusal(item@) is None,
            },
    {
        match cbor::variant_of(item) {
            Some((name, given)) => match refusal_called(name.as_str()) {
                Some(x) => Some(x),
                None => match given {
                    Some(inner) => read_refusal_with(name.as_str(), inner),
                    None => None,
                },
            },
            None => None,
        }
    }
}

/// A refusal reads back from its document.
pub proof fn refusal_reads_back(x: RefusalView)
    requires
        x.sized(),
    ensures
        parse_refusal(x.tree()) == Some(x),
        cbor::plain(x.tree(), 2),
{
    names_differ();
    reveal_with_fuel(cbor::plain, 3);
    match x {
        RefusalView::AlreadyBound { game_id } => {
            let s = x.tree()->Table_0[0].1->Table_0;
            cbor::present(s, 0, "game_id"@);
        },
        RefusalView::WrongSide { ours, ply_needs } => {
            let s = x.tree()->Table_0[0].1->Table_0;
            cbor::present(s, 0, "ours"@);
            cbor::present(s, 1, "ply_needs"@);
        },
        RefusalView::PlyAlreadySigned { ply } => {
            let s = x.tree()->Table_0[0].1->Table_0;
            cbor::present(s, 0, "ply"@);
        },
        RefusalView::PlyOutOfRange { ply, max } => {
            let s = x.tree()->Table_0[0].1->Table_0;
            cbor::present(s, 0, "ply"@);
            cbor::present(s, 1, "max"@);
        },
        RefusalView::StaleRecordFormat { found, expected } => {
            let s = x.tree()->Table_0[0].1->Table_0;
            cbor::present(s, 0, "found"@);
            cbor::present(s, 1, "expected"@);
        },
        _ => {},
    }
}

impl RefusalView {
    /// The refusal as a sentence for the user.
    pub open spec fn sentence(self) -> Seq<char> {
        match self {
            RefusalView::UnknownLabel => "no key exists for that label"@,
            RefusalView::LabelExists => "a key already exists for that label"@,
            RefusalView::UnknownGame => "no game is bound to that label"@,
            RefusalView::AlreadyBound { .. } => "that label is already bound to a different game"@,
            RefusalView::KeyNotInParams => "this key is not one of the two players named in the game's parameters"@,
            RefusalView::WrongOrigin => "this game was bound by a different caller"@,
            RefusalView::NoEntropy => "no entropy source is available to generate a key"@,
            RefusalView::StoreFailed => "the secret store rejected the write"@,
            RefusalView::IllegalMove => "that move is illegal in the current position"@,
            RefusalView::WrongSide { ours, ply_needs } => "it is "@ + ply_needs.text()
                + "'s turn, but this key plays "@ + ours.text(),
            RefusalView::PlyAlreadySigned { ply } => "you have already signed a different move at ply "@
                + text::decimal(ply as nat)
                + "; re-send the identical move, or wait for your opponent"@,
            RefusalView::PlyOutOfRange { ply, max } => "ply "@ + text::decimal(ply as nat)
                + " is past the maximum of "@ + text::decimal(max as nat)
                + "; no valid record can carry it"@,
            RefusalView::StaleRecordFormat { found, expected } => "the stored record is format "@
                + text::decimal(found as nat) + ", but this delegate speaks format "@
                + text::decimal(expected as nat),
            RefusalView::Malformed(msg) => "malformed request: "@ + msg,
        }
    }
}

impl Refusal {
    /// The refusal as a sentence for the user.
    pub fn message(&self) -> (r: String)
        ensures
            r@ == self@.sentence(),
    {
        match self {
            Refusal::UnknownLabel => "no key exists for that label".to_owned(),
            Refusal::LabelExists => "a key already exists for that label".to_owned(),
            Refusal::UnknownGame => "no game is bound to that label".to_owned(),
            Refusal::AlreadyBound { .. } => "that label is already bound to a different game".to_owned(),
            Refusal::KeyNotInParams => "this key is not one of the two players named in the game's parameters".to_owned(),
            Refusal::WrongOrigin => "this game was bound by a different caller".to_owned(),
            Refusal::NoEntropy => "no entropy source is available to generate a key".to_owned(),
            Refusal::StoreFailed => "the secret store rejected the write".to_owned(),
            Refusal::IllegalMove => "that move is illegal in the current position".to_owned(),
            Refusal::WrongSide { ours, ply_needs } => {
                let r = join5(
                    "it is ",
                    ply_needs.name(),
                    "'s turn, but this key plays ",
                    ours.name(),
                    "",
                );
                proof {
                    reveal_strlit("");
                    assert(r@ =~= self@.sentence());
                }
                r
            },
            Refusal::PlyAlreadySigned { ply } => join3(
                "you have already signed a different move at ply ",
                decimal_text(*ply as u64).as_str(),
                "; re-send the identical move, or wait for your opponent",
            ),
            Refusal::PlyOutOfRange { ply, max } => join5(
                "ply ",
                decimal_text(*ply as u64).as_str(),
                " is past the maximum of ",
                decimal_text(*max as u64).as_str(),
                "; no valid record can carry it",
            ),
            Refusal::StaleRecordFormat { found, expected } => {
                let r = join5(
                    "the stored record is format ",
                    decimal_text(*found as u64).as_str(),
                    ", but this delegate speaks format ",
                    decimal_text(*expected as u64).as_str(),
                    "",
                );
                proof {
                    reveal_strlit("");
                    assert(r@ =~= self@.sentence());
                }
                r
            },
            Refusal::Malformed(msg) => {
                let r = join3("malformed request: ", msg.as_str(), "");
                proof {
                    reveal_strlit("");
                    assert(r@ =~= self@.sentence());
                }
                r
            },
        }
    }
}

// ---------------------------------------------------------------------------
// Requests.
// ---------------------------------------------------------------------------

/// The value of a [`Request`].
#[verifier::ext_equal]
pub enum RequestView {
    CreateGameKey { label: Seq<char>, caller_entropy: Option<Seq<u8>> },
    BindGame { label: Seq<char>, params: ParamsView, contract: Seq<u8> },
    Rebind { label: Seq<char>, contract: Seq<u8> },
    Sign { game_id: Seq<u8>, body: BodyView },
    ListGames,
}

/// What a client asks of the delegate.
#[derive(Debug, PartialEq, Eq)]
pub enum Request {
    /// Create a signing key for a game that does not exist yet: the
    /// parameters of a game need both players' public keys.
    CreateGameKey { label: String, caller_entropy: Option<[u8; 32]> },
    /// Record which game the key for `label` belongs to. `contract` is the
    /// game contract's instance id, which the delegate cannot derive.
    BindGame { label: String, params: GameParams, contract: GameId },
    /// Point the game bound to `label` at another contract instance.
    Rebind { label: String, contract: GameId },
    /// Sign a body for a bound game.
    Sign { game_id: GameId, body: Body },
    /// List the games and keys the caller owns.
    ListGames,
}

impl View for Request {
    type V = RequestView;

    open spec fn view(&self) -> RequestView {
        match self {
            Request::CreateGameKey { label, caller_entropy } => RequestView::CreateGameKey {
                label: label@,
                caller_entropy: cbor::option_view(*caller_entropy),
            },
            Request::BindGame { label, params, contract } => RequestView::BindGame {
                label: label@,
                params: params@,
                contract: contract@,
            },
            Request::Rebind { label, contract } => RequestView::Rebind {
                label: label@,
                contract: contract@,
            },
            Request::Sign { game_id, body } => RequestView::Sign {
                game_id: game_id@,
                body: body@,
            },
            Request::ListGames => RequestView::ListGames,
        }
    }
}

impl Clone for Request {
    fn clone(&self) -> (r: Request)
        ensures
            r@ == self@,
    {
        match self {
            Request::CreateGameKey { label, caller_entropy } => Request::CreateGameKey {
                label: label.clone(),
                caller_entropy: *caller_entropy,
            },
            Request::BindGame { label, params, contract } => Request::BindGame {
                label: label.clone(),
                params: params.clone(),
                contract: *contract,
            },
            Request::Rebind { label, contract } => Request::Rebind {
                label: label.clone(),
                contract: *contract,
            },
            Request::Sign { game_id, body } => Request::Sign {
                game_id: *game_id,
                body: body.clone(),
            },
            Request::ListGames => Request::ListGames,
        }
    }
}

/// The parameters under a name.
pub open spec fn params_at(s: Seq<(Cbor, Cbor)>, name: Seq<char>) -> Option<ParamsView> {
    match cbor::field(s, name) {
        Some(c) => types::parse_params(c),
        None => None,
    }
}

/// The parameters under a name.
pub(crate) fn params_field(m: &Vec<(Item, Item)>, name: &str) -> (r: Option<GameParams>)
    ensures
        match r {
            Some(p) => params_at(cbor::pair_trees(m@), name@) == Some(p@),
            None => params_at(cbor::pair_trees(m@), name@) is None,
        },
{
    match cbor::field_of(m, name) {
        Some(i) => GameParams::from_item(i),
        None => None,
    }
}

/// The body under a name.
pub open spec fn body_at(s: Seq<(Cbor, Cbor)>, name: Seq<char>) -> Option<BodyView> {
    match cbor::field(s, name) {
        Some(c) => types::parse_body(c),
        None => None,
    }
}

/// The body under a name.
fn body_field(m: &Vec<(Item, Item)>, name: &str) -> (r: Option<Body>)
    ensures
        match r {
            Some(b) => body_at(cbor::pair_trees(m@), name@) == Some(b@),
            None => body_at(cbor::pair_trees(m@), name@) is None,
        },
{
    match cbor::field_of(m, name) {
        Some(i) => Body::from_item(i),
        None => None,
    }
}

impl RequestView {
    /// As a CBOR document.
    pub open spec fn tree(self) -> Cbor {
        match self {
            RequestView::CreateGameKey { label, caller_entropy } => cbor::variant(
                "CreateGameKey"@,
                Cbor::Table(
                    seq![
                        cbor::row("label"@, Cbor::Text(label)),
                        cbor::row("caller_entropy"@, cbor::nullable(caller_entropy)),
                    ],
                ),
            ),
            RequestView::BindGame { label, params, contract } => cbor::variant(
                "BindGame"@,
                Cbor::Table(
                    seq![
                        cbor::row("label"@, Cbor::Text(label)),
                        cbor::row("params"@, params.tree()),
                        cbor::row("contract"@, Cbor::Bytes(contract)),
                    ],
                ),
            ),
            RequestView::Rebind { label, contract } => cbor::variant(
                "Rebind"@,
                Cbor::Table(
                    seq![
                        cbor::row("label"@, Cbor::Text(label)),
                        cbor::row("contract"@, Cbor::Bytes(contract)),
                    ],
                ),
            ),
            RequestView::Sign { game_id, body } => cbor::variant(
                "Sign"@,
                Cbor::Table(
                    seq![
                        cbor::row("game_id"@, Cbor::Bytes(game_id)),
                        cbor::row("body"@, body.tree()),
                    ],
                ),
            ),
            RequestView::ListGames => Cbor::Text("ListGames"@),
        }
    }

    /// Its byte strings have the sizes of keys and ids.
    pub open spec fn sized(self) -> bool {
        match self {
            RequestView::CreateGameKey { caller_entropy, .. } => (caller_entropy matches Some(b) ==> b.len() == 32),
            RequestView::BindGame { params, contract, .. } => params.sized() && contract.len() == 32,
            RequestView::Rebind { contract, .. } => contract.len() == 32,
            RequestView::Sign { game_id, body, .. } => game_id.len() == 32 && body.sized(),
            _ => true,
        }
    }
}

/// Read a request out of a document. What goes with a variant that needs
/// nothing is passed over.
pub open spec fn parse_request(c: Cbor) -> Option<RequestView> {
    match cbor::as_variant(c) {
        Some((name, None)) => if name == "ListGames"@ {
            Some(RequestView::ListGames)
        } else {
            None
        },
        Some((name, Some(inner))) => if name == "CreateGameKey"@ {
            parse_create_game_key(inner)
        } else if name == "BindGame"@ {
            parse_bind_game(inner)
        } else if name == "Rebind"@ {
            parse_rebind(inner)
        } else if name == "Sign"@ {
            parse_sign(inner)
        } else if name == "ListGames"@ {
            Some(RequestView::ListGames)
        } else {
            None
        },
        None => None,
    }
}

/// Read what goes with `Request::CreateGameKey`.
pub open spec fn parse_create_game_key(c: Cbor) -> Option<RequestView> {
    match cbor::as_fields(c, seq!["label"@, "caller_entropy"@]) {
        None => None,
        Some(s) => match (cbor::text_at(s, "label"@), cbor::nullable_at(s, "caller_entropy"@)) {
            (Some(label), Some(caller_entropy)) => Some(RequestView::CreateGameKey { label, caller_entropy }),
            _ => None,
        },
    }
}

/// Read what goes with `Request::BindGame`.
pub open spec fn parse_bind_game(c: Cbor) -> Option<RequestView> {
    match cbor::as_fields(c, seq!["label"@, "params"@, "contract"@]) {
        None => None,
        Some(s) => match (cbor::text_at(s, "label"@), params_at(s, "params"@), cbor::sized_at(s, "contract"@, 32)) {
            (Some(label), Some(params), Some(contract)) => Some(RequestView::BindGame { label, params, contract }),
            _ => None,
        },
    }
}

/// Read what goes with `Request::Rebind`.
pub open spec fn parse_rebind(c: Cbor) -> Option<RequestView> {
    match cbor::as_fields(c, seq!["label"@, "contract"@]) {
        None => None,
        Some(s) => match (cbor::text_at(s, "label"@), cbor::sized_at(s, "contract"@, 32)) {
            (Some(label), Some(contract)) => Some(RequestView::Rebind { label, contract }),
            _ => None,
        },
    }
}

/// Read what goes with `Request::Sign`.
pub open spec fn parse_sign(c: Cbor) -> Option<RequestView> {
    match cbor::as_fields(c, seq!["game_id"@, "body"@]) {
        None => None,
        Some(s) => match (cbor::sized_at(s, "game_id"@, 32), body_at(s, "body"@)) {
            (Some(game_id), Some(body)) => Some(RequestView::Sign { game_id, body }),
            _ => None,
        },
    }
}

/// Read what goes with `Request::CreateGameKey`.
fn read_create_game_key(item: &Item) -> (r: Option<Request>)
    ensures
        match r {
            Some(x) => parse_create_game_key(item@) == Some(x@),
            None => parse_create_game_key(item@) is None,
        },
{
    match cbor::fields2(item, "label", "caller_entropy") {
        None => None,
        Some(f) => match (cbor::text_field(f.rows(), "label"), cbor::nullable_field(f.rows(), "caller_entropy")) {
            (Some(label), Some(caller_entropy)) => Some(Request::CreateGameKey { label, caller_entropy }),
            _ => None,
        },
    }
}

/// Read what goes with `Request::BindGame`.
fn read_bind_game(item: &Item) -> (r: Option<Request>)
    ensures
        match r {
            Some(x) => parse_bind_game(item@) == Some(x@),
            None => parse_bind_game(item@) is None,
        },
{
    match cbor::fields3(item, "label", "params", "contract") {
        None => None,
        Some(f) => match (cbor::text_field(f.rows(), "label"), params_field(f.rows(), "params"), cbor::field32(f.rows(), "contract")) {
            (Some(label), Some(params), Some(contract)) => Some(Request::BindGame { label, params, contract }),
            _ => None,
        },
    }
}

/// Read what goes with `Request::Rebind`.
fn read_rebind(item: &Item) -> (r: Option<Request>)
    ensures
        match r {
            Some(x) => parse_rebind(item@) == Some(x@),
            None => parse_rebind(item@) is None,
        },
{
    match cbor::fields2(item, "label", "contract") {
        None => None,
        Some(f) => match (cbor::text_field(f.rows(), "label"), cbor::field32(f.rows(), "contract")) {
            (Some(label), Some(contract)) => Some(Request::Rebind { label, contract }),
            _ => None,
        },
    }
}

/// Read what goes with `Request::Sign`.
fn read_sign(item: &Item) -> (r: Option<Request>)
    ensures
        match r {
            Some(x) => parse_sign(item@) == Some(x@),
            None => parse_sign(item@) is None,
        },
{
    match cbor::fields2(item, "game_id", "body") {
        None => None,
        Some(f) => match (cbor::field32(f.rows(), "game_id"), body_field(f.rows(), "body")) {
            (Some(game_id), Some(body)) => Some(Request::Sign { game_id, body }),
            _ => None,
        },
    }
}

impl Request {
    /// As a CBOR document.
    pub fn to_item(&self) -> (r: Item)
        ensures
            r@ == self@.tree(),
    {
        match self {
            Request::CreateGameKey { label, caller_entropy } => {
                let mut m: Vec<(Item, Item)> = Vec::new();
                cbor::push_row(&mut m, "label", cbor::text_item(label.as_str()));
                cbor::push_row(&mut m, "caller_entropy", cbor::nullable_item(caller_entropy));
                assert(cbor::pair_trees(m@) =~= self@.tree()->Table_0[0].1->Table_0);
                cbor::table1("CreateGameKey", Item::Table(m))
            },
            Request::BindGame { label, params, contract } => {
                let mut m: Vec<(Item, Item)> = Vec::new();
                cbor::push_row(&mut m, "label", cbor::text_item(label.as_str()));
                cbor::push_row(&mut m, "params", params.to_item());
                cbor::push_row(&mut m, "contract", cbor::bytes_item(contract.as_slice()));
                assert(cbor::pair_trees(m@) =~= self@.tree()->Table_0[0].1->Table_0);
                cbor::table1("BindGame", Item::Table(m))
            },
            Request::Rebind { label, contract } => {
                let mut m: Vec<(Item, Item)> = Vec::new();
                cbor::push_row(&mut m, "label", cbor::text_item(label.as_str()));
                cbor::push_row(&mut m, "contract", cbor::bytes_item(contract.as_slice()));
                assert(cbor::pair_trees(m@) =~= self@.tree()->Table_0[0].1->Table_0);
                cbor::table1("Rebind", Item::Table(m))
            },
            Request::Sign { game_id, body } => {
                let mut m: Vec<(Item, Item)> = Vec::new();
                cbor::push_row(&mut m, "game_id", cbor::bytes_item(game_id.as_slice()));
                cbor::push_row(&mut m, "body", body.to_item());
                assert(cbor::pair_trees(m@) =~= self@.tree()->Table_0[0].1->Table_0);
                cbor::table1("Sign", Item::Table(m))
            },
            Request::ListGames => cbor::text_item("ListGames"),
        }
    }

    /// Read out of a CBOR document.
    pub fn from_item(item: &Item) -> (r: Option<Request>)
        ensures
            match r {
                Some(x) => parse_request(item@) == Some(x@),
                None => parse_request(item@) is None,
            },
    {
        match cbor::variant_of(item) {
            Some((name, None)) => if same_text(name.as_str(), "ListGames") {
                Some(Request::ListGames)
            } else {
                None
            },
            Some((name, Some(inner))) => if same_text(name.as_str(), "CreateGameKey") {
                read_create_game_key(inner)
            } else if same_text(name.as_str(), "BindGame") {
                read_bind_game(inner)
            } else if same_text(name.as_str(), "Rebind") {
                read_rebind(inner)
            } else if same_text(name.as_str(), "Sign") {
                read_sign(inner)
            } else if same_text(name.as_str(), "ListGames") {
                Some(Request::ListGames)
            } else {
                None
            },
            None => None,
        }
    }
}

/// A request reads back from its document.
pub proof fn request_reads_back(x: RequestView)
    requires
        x.sized(),
    ensures
        parse_request(x.tree()) == Some(x),
        cbor::plain(x.tree(), 4),
{
    names_differ();
    reveal_with_fuel(cbor::plain, 3);
    match x {
        RequestView::CreateGameKey { label, caller_entropy } => {
            let s = x.tree()->Table_0[0].1->Table_0;
            cbor::present(s, 0, "label"@);
            cbor::present(s, 1, "caller_entropy"@);
        },
        RequestView::BindGame { label, params, contract } => {
            let s = x.tree()->Table_0[0].1->Table_0;
            cbor::present(s, 0, "label"@);
            cbor::present(s, 1, "params"@);
            cbor::present(s, 2, "contract"@);
            types::params_read_back(params);
            cbor::plain_deeper(params.tree(), 1, 2);
        },
        RequestView::Rebind { label, contract } => {
            let s = x.tree()->Table_0[0].1->Table_0;
            cbor::present(s, 0, "label"@);
            cbor::present(s, 1, "contract"@);
        },
        RequestView::Sign { game_id, body } => {
            let s = x.tree()->Table_0[0].1->Table_0;
            cbor::present(s, 0, "game_id"@);
            cbor::present(s, 1, "body"@);
            types::body_reads_back(body);
            types::body_tree_plain(body);
            cbor::plain_deeper(body.tree(), 2, 2);
        },
        _ => {},
    }
}

/// The request that a byte string holds.
pub open spec fn decoded_request(raw: Seq<u8>) -> Option<RequestView> {
    match cbor::document(raw) {
        Some(c) => parse_request(c),
        None => None,
    }
}

/// What is said of bytes that cannot be read, where they are CBOR.
pub const UNREADABLE: &'static str = "the bytes do not hold a message of this kind";

/// The refusal of bytes that cannot be read.
fn unreadable(raw: &[u8]) -> (r: Refusal)
    ensures
        r@ == RefusalView::Malformed(cbor::complaint_of(raw@, UNREADABLE@)),
{
    Refusal::Malformed(cbor::complaint(raw, UNREADABLE))
}

impl Request {
    /// The request as bytes. It reads back as the same request.
    pub fn encode(&self) -> (r: Vec<u8>)
        ensures
            r@ == cbor::cbor_bytes(self@.tree()),
            decoded_request(r@) == Some(self@),
    {
        proof {
            request_reads_back(self@);
            cbor::plain_deeper(self@.tree(), 4, cbor::MAX_DEPTH as nat);
        }
        cbor::write(self.to_item())
    }

    /// Read a request. Bytes that hold none are refused as malformed.
    pub fn decode(raw: &[u8]) -> (r: Result<Request, Refusal>)
        ensures
            match r {
                Ok(x) => decoded_request(raw@) == Some(x@),
                Err(e) => decoded_request(raw@) is None && e@ == RefusalView::Malformed(
                    cbor::complaint_of(raw@, UNREADABLE@),
                ),
            },
    {
        match cbor::read(raw) {
            Some(item) => match Request::from_item(&item) {
                Some(x) => Ok(x),
                None => Err(unreadable(raw)),
            },
            None => Err(unreadable(raw)),
        }
    }
}

// ---------------------------------------------------------------------------
// Games, as they are listed.
// ---------------------------------------------------------------------------

/// The value of a [`GameSummary`].
#[verifier::ext_equal]
pub struct GameSummaryView {
    pub label: Seq<char>,
    pub public_key: Seq<u8>,
    pub game_id: Option<Seq<u8>>,
    pub side: Option<Side>,
    pub last_signed_ply: u16,
    pub entropy: Option<EntropyQuality>,
    pub params: Option<ParamsView>,
    pub contract: Option<Seq<u8>>,
    pub previous: Option<Seq<u8>>,
}

/// One key the delegate holds, and the game it is bound to. Never contains
/// secrets.
#[derive(Debug, PartialEq, Eq)]
pub struct GameSummary {
    pub label: String,
    pub public_key: KeyBytes,
    /// `None` until bound.
    pub game_id: Option<GameId>,
    /// `None` until bound.
    pub side: Option<Side>,
    /// 0 means nothing signed yet; plies are 1-indexed.
    pub last_signed_ply: u16,
    /// `None` where it was not recorded.
    pub entropy: Option<EntropyQuality>,
    /// The game's parameters, once bound.
    pub params: Option<GameParams>,
    /// The game contract's instance id, once bound.
    pub contract: Option<[u8; 32]>,
    /// The contract instance the game was bound to before it was migrated.
    pub previous: Option<[u8; 32]>,
}

/// The value of optional parameters.
pub open spec fn params_view(p: Option<GameParams>) -> Option<ParamsView> {
    match p {
        Some(p) => Some(p@),
        None => None,
    }
}

impl View for GameSummary {
    type V = GameSummaryView;

    open spec fn view(&self) -> GameSummaryView {
        GameSummaryView {
            label: self.label@,
            public_key: self.public_key@,
            game_id: cbor::option_view(self.game_id),
            side: self.side,
            last_signed_ply: self.last_signed_ply,
            entropy: self.entropy,
            params: params_view(self.params),
            contract: cbor::option_view(self.contract),
            previous: cbor::option_view(self.previous),
        }
    }
}

/// A copy of optional parameters.
fn clone_params(p: &Option<GameParams>) -> (r: Option<GameParams>)
    ensures
        params_view(r) == params_view(*p),
{
    match p {
        Some(p) => Some(p.clone()),
        None => None,
    }
}

impl Clone for GameSummary {
    fn clone(&self) -> (r: GameSummary)
        ensures
            r@ == self@,
    {
        GameSummary {
            label: self.label.clone(),
            public_key: self.public_key,
            game_id: self.game_id,
            side: self.side,
            last_signed_ply: self.last_signed_ply,
            entropy: self.entropy,
            params: clone_params(&self.params),
            contract: self.contract,
            previous: self.previous,
        }
    }
}

/// Null, or a side, as a document.
pub open spec fn optional_side_tree(x: Option<Side>) -> Cbor {
    match x {
        Some(x) => Cbor::Text(x.text()),
        None => Cbor::Null,
    }
}

/// The optional side under a name. No entry counts as null.
pub open spec fn optional_side_at(
    s: Seq<(Cbor, Cbor)>,
    name: Seq<char>,
) -> Option<Option<Side>> {
    match cbor::field_or_null(s, name) {
        Some(Cbor::Null) => Some(None),
        Some(c) => match parse_side(c) {
            Some(x) => Some(Some(x)),
            None => None,
        },
        None => None,
    }
}

/// An optional side as an item.
fn optional_side_item(x: &Option<Side>) -> (r: Item)
    ensures
        r@ == optional_side_tree(*x),
{
    match x {
        Some(x) => cbor::text_item(x.name()),
        None => Item::Null,
    }
}

/// The optional side under a name. No entry counts as null.
fn optional_side_field(m: &Vec<(Item, Item)>, name: &str) -> (r: Option<Option<Side>>)
    ensures
        r == optional_side_at(cbor::pair_trees(m@), name@),
{
    match cbor::find(m, name) {
        cbor::Found::Missing => Some(None),
        cbor::Found::Repeated => None,
        cbor::Found::One(i) => match i {
            Item::Null => Some(None),
            _ => match side_of(i) {
                Some(x) => Some(Some(x)),
                None => None,
            },
        },
    }
}

/// Null, or a quality, as a document.
pub open spec fn optional_entropy_tree(x: Option<EntropyQuality>) -> Cbor {
    match x {
        Some(x) => Cbor::Text(x.text()),
        None => Cbor::Null,
    }
}

/// The optional quality under a name. No entry counts as null.
pub open spec fn optional_entropy_at(
    s: Seq<(Cbor, Cbor)>,
    name: Seq<char>,
) -> Option<Option<EntropyQuality>> {
    match cbor::field_or_null(s, name) {
        Some(Cbor::Null) => Some(None),
        Some(c) => match parse_entropy(c) {
            Some(x) => Some(Some(x)),
            None => None,
        },
        None => None,
    }
}

/// An optional quality as an item.
fn optional_entropy_item(x: &Option<EntropyQuality>) -> (r: Item)
    ensures
        r@ == optional_entropy_tree(*x),
{
    match x {
        Some(x) => cbor::text_item(x.name()),
        None => Item::Null,
    }
}

/// The optional quality under a name. No entry counts as null.
fn optional_entropy_field(m: &Vec<(Item, Item)>, name: &str) -> (r: Option<Option<EntropyQuality>>)
    ensures
        r == optional_entropy_at(cbor::pair_trees(m@), name@),
{
    match cbor::find(m, name) {
        cbor::Found::Missing => Some(None),
        cbor::Found::Repeated => None,
        cbor::Found::One(i) => match i {
            Item::Null => Some(None),
            _ => match entropy_of(i) {
                Some(x) => Some(Some(x)),
                None => None,
            },
        },
    }
}

/// Null, or parameters, as a document.
pub open spec fn optional_params_tree(x: Option<ParamsView>) -> Cbor {
    match x {
        Some(x) => x.tree(),
        None => Cbor::Null,
    }
}

/// The optional parameters under a name. No entry counts as null.
pub open spec fn optional_params_at(
    s: Seq<(Cbor, Cbor)>,
    name: Seq<char>,
) -> Option<Option<ParamsView>> {
    match cbor::field_or_null(s, name) {
        Some(Cbor::Null) => Some(None),
        Some(c) => match types::parse_params(c) {
            Some(x) => Some(Some(x)),
            None => None,
        },
        None => None,
    }
}

/// An optional parameters as an item.
fn optional_params_item(x: &Option<GameParams>) -> (r: Item)
    ensures
        r@ == optional_params_tree(params_view(*x)),
{
    match x {
        Some(x) => x.to_item(),
        None => Item::Null,
    }
}

/// The optional parameters under a name. No entry counts as null.
fn optional_params_field(m: &Vec<(Item, Item)>, name: &str) -> (r: Option<Option<GameParams>>)
    ensures
        match r {
            Some(p) => optional_params_at(cbor::pair_trees(m@), name@) == Some(params_view(p)),
            None => optional_params_at(cbor::pair_trees(m@), name@) is None,
        },
{
    match cbor::find(m, name) {
        cbor::Found::Missing => Some(None),
        cbor::Found::Repeated => None,
        cbor::Found::One(i) => match i {
            Item::Null => Some(None),
            _ => match GameParams::from_item(i) {
                Some(x) => Some(Some(x)),
                None => None,
            },
        },
    }
}

impl GameSummaryView {
    /// As a CBOR document.
    pub open spec fn tree(self) -> Cbor {
        Cbor::Table(
            seq![
                cbor::row("label"@, Cbor::Text(self.label)),
                cbor::row("public_key"@, Cbor::Bytes(self.public_key)),
                cbor::row("game_id"@, cbor::nullable(self.game_id)),
                cbor::row("side"@, optional_side_tree(self.side)),
                cbor::row("last_signed_ply"@, Cbor::Int(self.last_signed_ply as int)),
                cbor::row("entropy"@, optional_entropy_tree(self.entropy)),
                cbor::row("params"@, optional_params_tree(self.params)),
                cbor::row("contract"@, cbor::nullable(self.contract)),
                cbor::row("previous"@, cbor::nullable(self.previous)),
            ],
        )
    }

    /// Its byte strings have the sizes of keys and ids.
    pub open spec fn sized(self) -> bool {
        &&& self.public_key.len() == 32
        &&& (self.game_id matches Some(b) ==> b.len() == 32)
        &&& (self.params matches Some(p) ==> p.sized())
        &&& (self.contract matches Some(b) ==> b.len() == 32)
        &&& (self.previous matches Some(b) ==> b.len() == 32)
    }
}

/// Read a listed game out of a document.
pub open spec fn parse_summary(c: Cbor) -> Option<GameSummaryView> {
    match cbor::as_table(c) {
        None => None,
        Some(s) => match (
            cbor::text_at(s, "label"@),
            cbor::sized_at(s, "public_key"@, 32),
            cbor::nullable_at(s, "game_id"@),
            optional_side_at(s, "side"@),
            cbor::number_at(s, "last_signed_ply"@, 65535),
            optional_entropy_at(s, "entropy"@),
            optional_params_at(s, "params"@),
            cbor::nullable_at(s, "contract"@),
            cbor::nullable_or_absent_at(s, "previous"@),
        ) {
            (
                Some(label),
                Some(public_key),
                Some(game_id),
                Some(side),
                Some(last_signed_ply),
                Some(entropy),
                Some(params),
                Some(contract),
                Some(previous),
            ) => Some(
                GameSummaryView {
                    label,
                    public_key,
                    game_id,
                    side,
                    last_signed_ply: last_signed_ply as u16,
                    entropy,
                    params,
                    contract,
                    previous,
                },
            ),
            _ => None,
        },
    }
}

impl GameSummary {
    /// As a CBOR document.
    pub fn to_item(&self) -> (r: Item)
        ensures
            r@ == self@.tree(),
    {
        let mut m: Vec<(Item, Item)> = Vec::new();
        cbor::push_row(&mut m, "label", cbor::text_item(self.label.as_str()));
        cbor::push_row(&mut m, "public_key", cbor::bytes_item(self.public_key.as_slice()));
        cbor::push_row(&mut m, "game_id", cbor::nullable_item(&self.game_id));
        cbor::push_row(&mut m, "side", optional_side_item(&self.side));
        cbor::push_row(&mut m, "last_signed_ply", Item::Int(self.last_signed_ply as i128));
        cbor::push_row(&mut m, "entropy", optional_entropy_item(&self.entropy));
        cbor::push_row(&mut m, "params", optional_params_item(&self.params));
        cbor::push_row(&mut m, "contract", cbor::nullable_item(&self.contract));
        cbor::push_row(&mut m, "previous", cbor::nullable_item(&self.previous));
        assert(cbor::pair_trees(m@) =~= self@.tree()->Table_0);
        Item::Table(m)
    }

    /// Read out of a CBOR document.
    pub fn from_item(item: &Item) -> (r: Option<GameSummary>)
        ensures
            match r {
                Some(x) => parse_summary(item@) == Some(x@),
                None => parse_summary(item@) is None,
            },
    {
        match cbor::table_of(item) {
            None => None,
            Some(m) => match (
                cbor::text_field(m, "label"),
                cbor::field32(m, "public_key"),
                cbor::nullable_field(m, "game_id"),
                optional_side_field(m, "side"),
                types::ply_field(m, "last_signed_ply"),
                optional_entropy_field(m, "entropy"),
                optional_params_field(m, "params"),
                cbor::nullable_field(m, "contract"),
                cbor::nullable_or_absent_field(m, "previous"),
            ) {
                (
                    Some(label),
                    Some(public_key),
                    Some(game_id),
                    Some(side),
                    Some(last_signed_ply),
                    Some(entropy),
                    Some(params),
                    Some(contract),
                    Some(previous),
                ) => Some(
                    GameSummary {
                        label,
                        public_key,
                        game_id,
                        side,
                        last_signed_ply,
                        entropy,
                        params,
                        contract,
                        previous,
                    },
                ),
                _ => None,
            },
        }
    }
}

/// A listed game reads back from its document.
pub proof fn summary_reads_back(x: GameSummaryView)
    requires
        x.sized(),
    ensures
        parse_summary(x.tree()) == Some(x),
        cbor::plain(x.tree(), 2),
{
    names_differ();
    reveal_with_fuel(cbor::plain, 2);
    let s = x.tree()->Table_0;
    cbor::present(s, 0, "label"@);
    cbor::present(s, 1, "public_key"@);
    cbor::present(s, 2, "game_id"@);
    cbor::present(s, 3, "side"@);
    cbor::present(s, 4, "last_signed_ply"@);
    cbor::present(s, 5, "entropy"@);
    cbor::present(s, 6, "params"@);
    cbor::present(s, 7, "contract"@);
    cbor::present(s, 8, "previous"@);
    match x.params {
        Some(p) => {
            types::params_read_back(p);
        },
        None => {},
    }
    assert(as_listed(x));
}

/// The fields of a listed game, read one by one.
spec fn as_listed(x: GameSummaryView) -> bool {
    let s = x.tree()->Table_0;
    &&& cbor::text_at(s, "label"@) == Some(x.label)
    &&& cbor::sized_at(s, "public_key"@, 32) == Some(x.public_key)
    &&& cbor::nullable_at(s, "game_id"@) == Some(x.game_id)
    &&& optional_side_at(s, "side"@) == Some(x.side)
    &&& cbor::number_at(s, "last_signed_ply"@, 65535) == Some(x.last_signed_ply as int)
    &&& optional_entropy_at(s, "entropy"@) == Some(x.entropy)
    &&& optional_params_at(s, "params"@) == Some(x.params)
    &&& cbor::nullable_at(s, "contract"@) == Some(x.contract)
    &&& cbor::nullable_or_absent_at(s, "previous"@) == Some(x.previous)
}

/// The values of a list of games.
pub open spec fn summary_views(g: Seq<GameSummary>) -> Seq<GameSummaryView> {
    g.map_values(|x: GameSummary| x@)
}

/// A list of games as a CBOR document.
pub open spec fn summaries_tree(g: Seq<GameSummaryView>) -> Cbor {
    Cbor::Array(g.map_values(|x: GameSummaryView| x.tree()))
}

/// Read a list of games out of a document.
pub open spec fn parse_summaries(c: Cbor) -> Option<Seq<GameSummaryView>> {
    match cbor::as_list(c) {
        None => None,
        Some(s) => if forall|i: int| 0 <= i < s.len() ==> parse_summary(#[trigger] s[i]) is Some {
            Some(Seq::new(s.len(), |i: int| parse_summary(s[i])->0))
        } else {
            None
        },
    }
}

/// A list of games reads back from its document.
pub proof fn summaries_read_back(g: Seq<GameSummaryView>)
    requires
        forall|i: int| 0 <= i < g.len() ==> (#[trigger] g[i]).sized(),
    ensures
        parse_summaries(summaries_tree(g)) == Some(g),
        cbor::plain(summaries_tree(g), 3),
{
    let s = g.map_values(|x: GameSummaryView| x.tree());
    assert forall|i: int| 0 <= i < s.len() implies parse_summary(#[trigger] s[i]) == Some(g[i])
        && cbor::plain(s[i], 2) by {
        summary_reads_back(g[i]);
    }
    assert(parse_summaries(summaries_tree(g))->0 =~= g);
}

/// A copy of a list of games.
fn clone_summaries(g: &Vec<GameSummary>) -> (r: Vec<GameSummary>)
    ensures
        summary_views(r@) == summary_views(g@),
{
    let mut out: Vec<GameSummary> = Vec::new();
    let mut i: usize = 0;
    while i < g.len()
        invariant
            i <= g.len(),
            out@.len() == i,
            forall|j: int| 0 <= j < i ==> (#[trigger] out@[j])@ == g@[j]@,
        decreases g.len() - i,
    {
        out.push(g[i].clone());
        i += 1;
    }
    assert(summary_views(out@) =~= summary_views(g@));
    out
}

/// A list of games as an item.
fn summaries_item(g: &Vec<GameSummary>) -> (r: Item)
    ensures
        r@ == summaries_tree(summary_views(g@)),
{
    let mut out: Vec<Item> = Vec::new();
    let mut i: usize = 0;
    while i < g.len()
        invariant
            i <= g.len(),
            out@.len() == i,
            forall|j: int| 0 <= j < i ==> (#[trigger] out@[j])@ == g@[j]@.tree(),
        decreases g.len() - i,
    {
        out.push(g[i].to_item());
        i += 1;
    }
    proof {
        cbor::item_trees_index(out@);
        assert forall|j: int| 0 <= j < out@.len() implies #[trigger] cbor::item_trees(out@)[j]
            == summary_views(g@)[j].tree() by {
            assert(out@[j]@ == g@[j]@.tree());
        }
        assert(cbor::item_trees(out@) =~= summary_views(g@).map_values(
            |x: GameSummaryView| x.tree(),
        ));
    }
    Item::Array(out)
}

/// Read a list of games out of a CBOR document.
fn read_summaries(item: &Item) -> (r: Option<Vec<GameSummary>>)
    ensures
        match r {
            Some(g) => parse_summaries(item@) == Some(summary_views(g@)),
            None => parse_summaries(item@) is None,
        },
{
    if cbor::is_empty_string(item) {
        let none: Vec<GameSummary> = Vec::new();
        assert(summary_views(none@) =~= Seq::empty());
        return Some(none);
    }
    let a = match cbor::array_of(item) {
        Some(a) => a,
        None => return None,
    };
    let ghost s = cbor::item_trees(a@);
    proof {
        cbor::item_trees_index(a@);
    }
    let mut out: Vec<GameSummary> = Vec::new();
    let mut i: usize = 0;
    while i < a.len()
        invariant
            i <= a.len(),
            s == cbor::item_trees(a@),
            s.len() == a.len(),
            forall|j: int| 0 <= j < s.len() ==> #[trigger] s[j] == a@[j]@,
            cbor::as_list(item@) == Some(s),
            out@.len() == i,
            forall|j: int| 0 <= j < i ==> parse_summary(#[trigger] s[j]) == Some(out@[j]@),
        decreases a.len() - i,
    {
        match GameSummary::from_item(&a[i]) {
            Some(x) => out.push(x),
            None => {
                assert(parse_summary(s[i as int]) is None);
                return None;
            },
        }
        i += 1;
    }
    assert(parse_summaries(item@)->0 =~= summary_views(out@));
    Some(out)
}

// ---------------------------------------------------------------------------
// Responses.
// ---------------------------------------------------------------------------

/// The quality under a name.
pub open spec fn entropy_at(s: Seq<(Cbor, Cbor)>, name: Seq<char>) -> Option<EntropyQuality> {
    match cbor::field(s, name) {
        Some(c) => parse_entropy(c),
        None => None,
    }
}

/// The quality under a name.
pub(crate) fn entropy_field(m: &Vec<(Item, Item)>, name: &str) -> (r: Option<EntropyQuality>)
    ensures
        r == entropy_at(cbor::pair_trees(m@), name@),
{
    match cbor::field_of(m, name) {
        Some(i) => entropy_of(i),
        None => None,
    }
}

/// The record under a name.
pub open spec fn record_at(s: Seq<(Cbor, Cbor)>, name: Seq<char>) -> Option<RecordView> {
    match cbor::field(s, name) {
        Some(c) => types::parse_record(c),
        None => None,
    }
}

/// The record under a name.
fn record_field(m: &Vec<(Item, Item)>, name: &str) -> (r: Option<Record>)
    ensures
        match r {
            Some(x) => record_at(cbor::pair_trees(m@), name@) == Some(x@),
            None => record_at(cbor::pair_trees(m@), name@) is None,
        },
{
    match cbor::field_of(m, name) {
        Some(i) => Record::from_item(i),
        None => None,
    }
}

/// The value of a [`Response`].
#[verifier::ext_equal]
pub enum ResponseView {
    GameKey { label: Seq<char>, public_key: Seq<u8>, entropy: EntropyQuality },
    Bound { game_id: Seq<u8> },
    Signed { record: RecordView },
    Games(Seq<GameSummaryView>),
    Refused(RefusalView),
}

/// What the delegate answers.
#[derive(Debug, PartialEq, Eq)]
pub enum Response {
    GameKey { label: String, public_key: GameId, entropy: EntropyQuality },
    Bound { game_id: GameId },
    Signed { record: Record },
    Games(Vec<GameSummary>),
    Refused(Refusal),
}

impl View for Response {
    type V = ResponseView;

    open spec fn view(&self) -> ResponseView {
        match self {
            Response::GameKey { label, public_key, entropy } => ResponseView::GameKey {
                label: label@,
                public_key: public_key@,
                entropy: *entropy,
            },
            Response::Bound { game_id } => ResponseView::Bound {
                game_id: game_id@,
            },
            Response::Signed { record } => ResponseView::Signed {
                record: record@,
            },
            Response::Games(g) => ResponseView::Games(summary_views(g@)),
            Response::Refused(x) => ResponseView::Refused(x@),
        }
    }
}

impl Clone for Response {
    fn clone(&self) -> (r: Response)
        ensures
            r@ == self@,
    {
        match self {
            Response::GameKey { label, public_key, entropy } => Response::GameKey {
                label: label.clone(),
                public_key: *public_key,
                entropy: *entropy,
            },
            Response::Bound { game_id } => Response::Bound {
                game_id: *game_id,
            },
            Response::Signed { record } => Response::Signed {
                record: record.clone(),
            },
            Response::Games(g) => Response::Games(clone_summaries(g)),
            Response::Refused(x) => Response::Refused(x.clone()),
        }
    }
}

impl ResponseView {
    /// As a CBOR document.
    pub open spec fn tree(self) -> Cbor {
        match self {
            ResponseView::GameKey { label, public_key, entropy } => cbor::variant(
                "GameKey"@,
                Cbor::Table(
                    seq![
                        cbor::row("label"@, Cbor::Text(label)),
                        cbor::row("public_key"@, Cbor::Bytes(public_key)),
                        cbor::row("entropy"@, Cbor::Text(entropy.text())),
                    ],
                ),
            ),
            ResponseView::Bound { game_id } => cbor::variant(
                "Bound"@,
                Cbor::Table(
                    seq![
                        cbor::row("game_id"@, Cbor::Bytes(game_id)),
                    ],
                ),
            ),
            ResponseView::Signed { record } => cbor::variant(
                "Signed"@,
                Cbor::Table(
                    seq![
                        cbor::row("record"@, record.tree()),
                    ],
                ),
            ),
            ResponseView::Games(g) => cbor::variant("Games"@, summaries_tree(g)),
            ResponseView::Refused(x) => cbor::variant("Refused"@, x.tree()),
        }
    }

    /// Its byte strings have the sizes of keys and ids.
    pub open spec fn sized(self) -> bool {
        match self {
            ResponseView::GameKey { public_key, .. } => public_key.len() == 32,
            ResponseView::Bound { game_id, .. } => game_id.len() == 32,
            ResponseView::Signed { record, .. } => record.sized(),
            ResponseView::Games(g) => forall|i: int| 0 <= i < g.len() ==> (#[trigger] g[i]).sized(),
            ResponseView::Refused(x) => x.sized(),
        }
    }
}

/// Read a response out of a document.
pub open spec fn parse_response(c: Cbor) -> Option<ResponseView> {
    match cbor::as_variant(c) {
        Some((name, None)) => None,
        Some((name, Some(inner))) => if name == "GameKey"@ {
            parse_game_key(inner)
        } else if name == "Bound"@ {
            parse_bound(inner)
        } else if name == "Signed"@ {
            parse_signed(inner)
        } else if name == "Games"@ {
            parse_games(inner)
        } else if name == "Refused"@ {
            parse_refused(inner)
        } else {
            None
        },
        None => None,
    }
}

/// Read what goes with `Response::GameKey`.
pub open spec fn parse_game_key(c: Cbor) -> Option<ResponseView> {
    match cbor::as_fields(c, seq!["label"@, "public_key"@, "entropy"@]) {
        None => None,
        Some(s) => match (cbor::text_at(s, "label"@), cbor::sized_at(s, "public_key"@, 32), entropy_at(s, "entropy"@)) {
            (Some(label), Some(public_key), Some(entropy)) => Some(ResponseView::GameKey { label, public_key, entropy }),
            _ => None,
        },
    }
}

/// Read what goes with `Response::Bound`.
pub open spec fn parse_bound(c: Cbor) -> Option<ResponseView> {
    match cbor::as_fields(c, seq!["game_id"@]) {
        None => None,
        Some(s) => match cbor::sized_at(s, "game_id"@, 32) {
            Some(game_id) => Some(ResponseView::Bound { game_id }),
            None => None,
        },
    }
}

/// Read what goes with `Response::Signed`.
pub open spec fn parse_signed(c: Cbor) -> Option<ResponseView> {
    match cbor::as_fields(c, seq!["record"@]) {
        None => None,
        Some(s) => match record_at(s, "record"@) {
            Some(record) => Some(ResponseView::Signed { record }),
            None => None,
        },
    }
}

/// Read what goes with `Response::Games`.
pub open spec fn parse_games(c: Cbor) -> Option<ResponseView> {
    match parse_summaries(c) {
        Some(g) => Some(ResponseView::Games(g)),
        None => None,
    }
}

/// Read what goes with `Response::Refused`.
pub open spec fn parse_refused(c: Cbor) -> Option<ResponseView> {
    match parse_refusal(c) {
        Some(x) => Some(ResponseView::Refused(x)),
        None => None,
    }
}

/// Read what goes with `Response::GameKey`.
fn read_game_key(item: &Item) -> (r: Option<Response>)
    ensures
        match r {
            Some(x) => parse_game_key(item@) == Some(x@),
            None => parse_game_key(item@) is None,
        },
{
    match cbor::fields3(item, "label", "public_key", "entropy") {
        None => None,
        Some(f) => match (cbor::text_field(f.rows(), "label"), cbor::field32(f.rows(), "public_key"), entropy_field(f.rows(), "entropy")) {
            (Some(label), Some(public_key), Some(entropy)) => Some(Response::GameKey { label, public_key, entropy }),
            _ => None,
        },
    }
}

/// Read what goes with `Response::Bound`.
fn read_bound(item: &Item) -> (r: Option<Response>)
    ensures
        match r {
            Some(x) => parse_bound(item@) == Some(x@),
            None => parse_bound(item@) is None,
        },
{
    match cbor::fields1(item, "game_id") {
        None => None,
        Some(f) => match cbor::field32(f.rows(), "game_id") {
            Some(game_id) => Some(Response::Bound { game_id }),
            None => None,
        },
    }
}

/// Read what goes with `Response::Signed`.
fn read_signed(item: &Item) -> (r: Option<Response>)
    ensures
        match r {
            Some(x) => parse_signed(item@) == Some(x@),
            None => parse_signed(item@) is None,
        },
{
    match cbor::fields1(item, "record") {
        None => None,
        Some(f) => match record_field(f.rows(), "record") {
            Some(record) => Some(Response::Signed { record }),
            None => None,
        },
    }
}

/// Read what goes with `Response::Games`.
fn read_games(item: &Item) -> (r: Option<Response>)
    ensures
        match r {
            Some(x) => parse_games(item@) == Some(x@),
            None => parse_games(item@) is None,
        },
{
    match read_summaries(item) {
        Some(g) => Some(Response::Games(g)),
        None => None,
    }
}

/// Read what goes with `Response::Refused`.
fn read_refused(item: &Item) -> (r: Option<Response>)
    ensures
        match r {
            Some(x) => parse_refused(item@) == Some(x@),
            None => parse_refused(item@) is None,
        },
{
    match Refusal::from_item(item) {
        Some(x) => Some(Response::Refused(x)),
        None => None,
    }
}

impl Response {
    /// As a CBOR document.
    pub fn to_item(&self) -> (r: Item)
        ensures
            r@ == self@.tree(),
    {
        match self {
            Response::GameKey { label, public_key, entropy } => {
                let mut m: Vec<(Item, Item)> = Vec::new();
                cbor::push_row(&mut m, "label", cbor::text_item(label.as_str()));
                cbor::push_row(&mut m, "public_key", cbor::bytes_item(public_key.as_slice()));
                cbor::push_row(&mut m, "entropy", cbor::text_item(entropy.name()));
                assert(cbor::pair_trees(m@) =~= self@.tree()->Table_0[0].1->Table_0);
                cbor::table1("GameKey", Item::Table(m))
            },
            Response::Bound { game_id } => {
                let mut m: Vec<(Item, Item)> = Vec::new();
                cbor::push_row(&mut m, "game_id", cbor::bytes_item(game_id.as_slice()));
                assert(cbor::pair_trees(m@) =~= self@.tree()->Table_0[0].1->Table_0);
                cbor::table1("Bound", Item::Table(m))
            },
            Response::Signed { record } => {
                let mut m: Vec<(Item, Item)> = Vec::new();
                cbor::push_row(&mut m, "record", record.to_item());
                assert(cbor::pair_trees(m@) =~= self@.tree()->Table_0[0].1->Table_0);
                cbor::table1("Signed", Item::Table(m))
            },
            Response::Games(g) => cbor::table1("Games", summaries_item(g)),
            Response::Refused(x) => cbor::table1("Refused", x.to_item()),
        }
    }

    /// Read out of a CBOR document.
    pub fn from_item(item: &Item) -> (r: Option<Response>)
        ensures
            match r {
                Some(x) => parse_response(item@) == Some(x@),
                None => parse_response(item@) is None,
            },
    {
        match cbor::variant_of(item) {
            Some((name, None)) => None,
            Some((name, Some(inner))) => if same_text(name.as_str(), "GameKey") {
                read_game_key(inner)
            } else if same_text(name.as_str(), "Bound") {
                read_bound(inner)
            } else if same_text(name.as_str(), "Signed") {
                read_signed(inner)
            } else if same_text(name.as_str(), "Games") {
                read_games(inner)
            } else if same_text(name.as_str(), "Refused") {
                read_refused(inner)
            } else {
                None
            },
            None => None,
        }
    }
}

/// A response reads back from its document.
pub proof fn response_reads_back(x: ResponseView)
    requires
        x.sized(),
    ensures
        parse_response(x.tree()) == Some(x),
        cbor::plain(x.tree(), 5),
{
    names_differ();
    reveal_with_fuel(cbor::plain, 3);
    match x {
        ResponseView::GameKey { label, public_key, entropy } => {
            let s = x.tree()->Table_0[0].1->Table_0;
            cbor::present(s, 0, "label"@);
            cbor::present(s, 1, "public_key"@);
            cbor::present(s, 2, "entropy"@);
        },
        ResponseView::Bound { game_id } => {
            let s = x.tree()->Table_0[0].1->Table_0;
            cbor::present(s, 0, "game_id"@);
        },
        ResponseView::Signed { record } => {
            let s = x.tree()->Table_0[0].1->Table_0;
            cbor::present(s, 0, "record"@);
            types::record_reads_back(record);
            types::record_tree_plain(record);
            cbor::plain_deeper(record.tree(), 3, 3);
        },
        ResponseView::Games(g) => {
            summaries_read_back(g);
            cbor::plain_deeper(summaries_tree(g), 3, 4);
        },
        ResponseView::Refused(y) => {
            refusal_reads_back(y);
            cbor::plain_deeper(y.tree(), 2, 4);
        },
    }
}

/// The response that a byte string holds.
pub open spec fn decoded_response(raw: Seq<u8>) -> Option<ResponseView> {
    match cbor::document(raw) {
        Some(c) => parse_response(c),
        None => None,
    }
}

impl Response {
    /// The response as bytes. It reads back as the same response.
    pub fn encode(&self) -> (r: Vec<u8>)
        ensures
            r@ == cbor::cbor_bytes(self@.tree()),
            decoded_response(r@) == Some(self@),
    {
        proof {
            response_reads_back(self@);
            cbor::plain_deeper(self@.tree(), 5, cbor::MAX_DEPTH as nat);
        }
        cbor::write(self.to_item())
    }

    /// Read a response. Bytes that hold none are refused as malformed.
    pub fn decode(raw: &[u8]) -> (r: Result<Response, Refusal>)
        ensures
            match r {
                Ok(x) => decoded_response(raw@) == Some(x@),
                Err(e) => decoded_response(raw@) is None && e@ == RefusalView::Malformed(
                    cbor::complaint_of(raw@, UNREADABLE@),
                ),
            },
    {
        match cbor::read(raw) {
            Some(item) => match Response::from_item(&item) {
                Some(x) => Ok(x),
                None => Err(unreadable(raw)),
            },
            None => Err(unreadable(raw)),
        }
    }
}

} // verus!
