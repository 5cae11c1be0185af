//! Signed records and game parameters.
//!
//! Everything a player can say about a game is a [`Record`]: a [`Body`], the
//! signer's ed25519 public key, and a signature. A record is addressed by its
//! signer and body. The signature is left out of the address on purpose, so
//! that two signatures over one statement land in one place.

use vstd::prelude::*;
use crate::bytes;
use crate::bytes::{append_bytes, array16, copy_bytes, same_bytes, same_text};
use crate::cbor;
use crate::cbor::{Cbor, Item};
use crate::crypto;
use ed25519_dalek::SigningKey;

verus! {

pub type RecordId = [u8; 32];

pub type KeyBytes = [u8; 32];

/// The largest ply any record may carry.
///
/// This bounds the number of eviction groups, and so the state: per signer and
/// ply two moves and one draw record of each of three kinds.
pub const MAX_PLY: u16 = 4096;

/// A side of the board.
#[derive(Clone, Copy, Debug, PartialEq, Eq, Structural, Hash)]
pub enum Color {
    White,
    Black,
}

impl Color {
    /// The other side.
    pub open spec fn opposite(self) -> Color {
        match self {
            Color::White => Color::Black,
            Color::Black => Color::White,
        }
    }

    /// The other side.
    pub fn other(self) -> (r: Color)
        ensures
            r == self.opposite(),
    {
        match self {
            Color::White => Color::Black,
            Color::Black => Color::White,
        }
    }
}

/// Which kind of statement a body is.
///
/// Kinds are grouped apart: records of one kind never compete with records of
/// another for a place in the state.
#[derive(Clone, Copy, Debug, PartialEq, Eq, Structural, PartialOrd, Ord)]
pub enum Kind {
    Move,
    Resign,
    DrawOffer,
    DrawAccept,
    DrawClaim,
}

impl Kind {
    /// How many records one signer may hold in one `(signer, kind, ply)` group.
    pub open spec fn limit(self) -> nat {
        match self {
            Kind::Move => 2,
            _ => 1,
        }
    }

    /// How many records one signer may hold in one `(signer, kind, ply)` group.
    ///
    /// Two moves, so that the proof of a double-signed ply survives eviction;
    /// one of everything else.
    pub fn k(self) -> (r: usize)
        ensures
            r == self.limit(),
    {
        match self {
            Kind::Move => 2,
            _ => 1,
        }
    }
}

/// Separates game ids from every other digest.
pub const DOMAIN_GAME: &'static str = "adjourn-v1/game";

/// Separates the first parent of a game from every other digest.
pub const DOMAIN_GENESIS: &'static str = "adjourn-v1/genesis";

/// Separates record ids from every other digest.
pub const DOMAIN_REC: &'static str = "adjourn-v1/rec";

/// Separates what is signed from every other message.
pub const DOMAIN_SIG: &'static str = "adjourn-v1/sig";

/// Separates signature digests from every other digest.
pub const DOMAIN_SIGDIGEST: &'static str = "adjourn-v1/sigdigest";

// ---------------------------------------------------------------------------
// The mathematical values.
// ---------------------------------------------------------------------------

/// The value of [`GameParams`].
#[verifier::ext_equal]
pub struct ParamsView {
    pub white: Seq<u8>,
    pub black: Seq<u8>,
    pub nonce: Seq<u8>,
}

/// The value of a [`Body`].
#[verifier::ext_equal]
pub enum BodyView {
    Move { ply: u16, parent: Seq<u8>, uci: Seq<char> },
    Resign,
    DrawOffer { ply: u16, at: Seq<u8> },
    DrawAccept { ply: u16, offer: Seq<u8> },
    DrawClaim { ply: u16, at: Seq<u8> },
}

/// The value of a [`Record`].
#[verifier::ext_equal]
pub struct RecordView {
    pub body: BodyView,
    pub signer: Seq<u8>,
    pub sig: Seq<u8>,
}

impl BodyView {
    /// The ply the body is indexed at.
    pub open spec fn ply(self) -> Option<u16> {
        match self {
            BodyView::Move { ply, .. } => Some(ply),
            BodyView::Resign => None,
            BodyView::DrawOffer { ply, .. } => Some(ply),
            BodyView::DrawAccept { ply, .. } => Some(ply),
            BodyView::DrawClaim { ply, .. } => Some(ply),
        }
    }

    /// Which kind of statement it is.
    pub open spec fn kind(self) -> Kind {
        match self {
            BodyView::Move { .. } => Kind::Move,
            BodyView::Resign => Kind::Resign,
            BodyView::DrawOffer { .. } => Kind::DrawOffer,
            BodyView::DrawAccept { .. } => Kind::DrawAccept,
            BodyView::DrawClaim { .. } => Kind::DrawClaim,
        }
    }

    /// The record ids in it are 32 bytes long.
    pub open spec fn sized(self) -> bool {
        match self {
            BodyView::Move { parent, .. } => parent.len() == 32,
            BodyView::Resign => true,
            BodyView::DrawOffer { at, .. } => at.len() == 32,
            BodyView::DrawAccept { offer, .. } => offer.len() == 32,
            BodyView::DrawClaim { at, .. } => at.len() == 32,
        }
    }

    /// The body as a CBOR document.
    pub open spec fn tree(self) -> Cbor {
        match self {
            BodyView::Move { ply, parent, uci } => cbor::variant(
                "m"@,
                Cbor::Table(
                    seq![
                        cbor::row("p"@, Cbor::Int(ply as int)),
                        cbor::row("t"@, Cbor::Bytes(parent)),
                        cbor::row("u"@, Cbor::Text(uci)),
                    ],
                ),
            ),
            BodyView::Resign => Cbor::Text("r"@),
            BodyView::DrawOffer { ply, at } => cbor::variant(
                "o"@,
                indexed_tree(ply, "t"@, at),
            ),
            BodyView::DrawAccept { ply, offer } => cbor::variant(
                "a"@,
                indexed_tree(ply, "o"@, offer),
            ),
            BodyView::DrawClaim { ply, at } => cbor::variant(
                "c"@,
                indexed_tree(ply, "t"@, at),
            ),
        }
    }
}

/// The fields of a draw record: its ply, and the id it speaks of.
pub open spec fn indexed_tree(ply: u16, name: Seq<char>, id: Seq<u8>) -> Cbor {
    Cbor::Table(seq![cbor::row("p"@, Cbor::Int(ply as int)), cbor::row(name, Cbor::Bytes(id))])
}

/// Read the fields of a draw record.
pub open spec fn parse_indexed(c: Cbor, name: Seq<char>) -> Option<(u16, Seq<u8>)> {
    match cbor::as_fields(c, seq!["p"@, name]) {
        None => None,
        Some(s) => match (cbor::number_at(s, "p"@, 65535), cbor::sized_at(s, name, 32)) {
            (Some(ply), Some(id)) => Some((ply as u16, id)),
            _ => None,
        },
    }
}

/// Read the fields of a move.
pub open spec fn parse_move(c: Cbor) -> Option<BodyView> {
    match cbor::as_fields(c, seq!["p"@, "t"@, "u"@]) {
        None => None,
        Some(s) => match (
            cbor::number_at(s, "p"@, 65535),
            cbor::sized_at(s, "t"@, 32),
            cbor::text_at(s, "u"@),
        ) {
            (Some(ply), Some(parent), Some(uci)) => Some(
                BodyView::Move { ply: ply as u16, parent, uci },
            ),
            _ => None,
        },
    }
}

/// Read a body out of a document.
pub open spec fn parse_body(c: Cbor) -> Option<BodyView> {
    match cbor::as_variant(c) {
        Some((name, None)) => if name == "r"@ {
            Some(BodyView::Resign)
        } else {
            None
        },
        Some((name, Some(inner))) => if name == "m"@ {
            parse_move(inner)
        } else if name == "o"@ {
            match parse_indexed(inner, "t"@) {
                Some((ply, at)) => Some(BodyView::DrawOffer { ply, at }),
                None => None,
            }
        } else if name == "a"@ {
            match parse_indexed(inner, "o"@) {
                Some((ply, offer)) => Some(BodyView::DrawAccept { ply, offer }),
                None => None,
            }
        } else if name == "c"@ {
            match parse_indexed(inner, "t"@) {
                Some((ply, at)) => Some(BodyView::DrawClaim { ply, at }),
                None => None,
            }
        } else {
            None
        },
        None => None,
    }
}

/// The bytes of a body: what is hashed and signed.
pub open spec fn body_encoding(b: BodyView) -> Seq<u8> {
    cbor::cbor_bytes(b.tree())
}

impl RecordView {
    /// The address of the statement: signer and body, not the signature.
    pub open spec fn id(self) -> Seq<u8> {
        crypto::sha256(
            bytes::text_bytes(DOMAIN_REC@) + self.signer + body_encoding(self.body),
        )
    }

    /// The sizes of its byte strings are those of keys and ids.
    pub open spec fn sized(self) -> bool {
        self.body.sized() && self.signer.len() == 32
    }

    /// The record as a CBOR document.
    pub open spec fn tree(self) -> Cbor {
        Cbor::Table(
            seq![
                cbor::row("b"@, self.body.tree()),
                cbor::row("k"@, Cbor::Bytes(self.signer)),
                cbor::row("s"@, Cbor::Bytes(self.sig)),
            ],
        )
    }

    /// A real statement by one of the two players: their key, a ply within the
    /// cap, and a signature over the body for this game. Chess legality has no
    /// part in it.
    pub open spec fn valid(self, params: ParamsView) -> bool {
        &&& params.color_of(self.signer) is Some
        &&& self.body.ply() matches Some(p) ==> p <= MAX_PLY
        &&& self.sig.len() == 64
        &&& crypto::is_public_key(self.signer)
        &&& crypto::signature_holds(self.signer, payload(params.game_id(), self.body), self.sig)
    }
}

/// Read a record out of a document.
pub open spec fn parse_record(c: Cbor) -> Option<RecordView> {
    match cbor::as_table(c) {
        None => None,
        Some(s) => match (cbor::field(s, "b"@), cbor::sized_at(s, "k"@, 32), cbor::field(s, "s"@)) {
            (Some(b), Some(signer), Some(g)) => match (parse_body(b), cbor::as_bytes(g)) {
                (Some(body), Some(sig)) => Some(RecordView { body, signer, sig }),
                _ => None,
            },
            _ => None,
        },
    }
}

/// The digest a signature is announced by.
pub open spec fn signature_digest(sig: Seq<u8>) -> Seq<u8> {
    crypto::sha256(bytes::text_bytes(DOMAIN_SIGDIGEST@) + sig)
}

/// What is signed: the domain, the game, the body.
pub open spec fn payload(game: Seq<u8>, b: BodyView) -> Seq<u8> {
    bytes::text_bytes(DOMAIN_SIG@) + game + body_encoding(b)
}

/// The game and the body that a signed message speaks of.
pub open spec fn read_payload(message: Seq<u8>) -> Option<(Seq<u8>, BodyView)> {
    let domain = bytes::text_bytes(DOMAIN_SIG@);
    if !bytes::starts_with(message, domain) || message.len() < domain.len() + 32 {
        None
    } else {
        let rest = message.skip(domain.len() as int);
        match cbor::document(rest.skip(32)) {
            Some(c) => match parse_body(c) {
                Some(b) => Some((rest.take(32), b)),
                None => None,
            },
            None => None,
        }
    }
}

impl ParamsView {
    /// The id of the game.
    pub open spec fn game_id(self) -> Seq<u8> {
        crypto::sha256(
            bytes::text_bytes(DOMAIN_GAME@) + self.white + self.black + self.nonce,
        )
    }

    /// The parent of the first ply.
    pub open spec fn genesis(self) -> Seq<u8> {
        crypto::sha256(bytes::text_bytes(DOMAIN_GENESIS@) + self.game_id())
    }

    /// The side a key plays.
    pub open spec fn color_of(self, key: Seq<u8>) -> Option<Color> {
        if key == self.white {
            Some(Color::White)
        } else if key == self.black {
            Some(Color::Black)
        } else {
            None
        }
    }

    /// The key that plays a side.
    pub open spec fn key_of(self, color: Color) -> Seq<u8> {
        match color {
            Color::White => self.white,
            Color::Black => self.black,
        }
    }

    /// Its byte strings have the sizes of keys and nonces.
    pub open spec fn sized(self) -> bool {
        self.white.len() == 32 && self.black.len() == 32 && self.nonce.len() == 16
    }

    /// The parameters as a CBOR document.
    pub open spec fn tree(self) -> Cbor {
        Cbor::Table(
            seq![
                cbor::row("white"@, Cbor::Bytes(self.white)),
                cbor::row("black"@, Cbor::Bytes(self.black)),
                cbor::row("nonce"@, Cbor::Bytes(self.nonce)),
            ],
        )
    }
}

/// Read game parameters out of a document.
pub open spec fn parse_params(c: Cbor) -> Option<ParamsView> {
    match cbor::as_table(c) {
        None => None,
        Some(s) => match (
            cbor::sized_at(s, "white"@, 32),
            cbor::sized_at(s, "black"@, 32),
            cbor::sized_at(s, "nonce"@, 16),
        ) {
            (Some(white), Some(black), Some(nonce)) => Some(ParamsView { white, black, nonce }),
            _ => None,
        },
    }
}

/// Whose turn it is at a ply, counted in half-moves from 1.
pub open spec fn side_at(ply: int) -> Color {
    if ply % 2 == 1 {
        Color::White
    } else {
        Color::Black
    }
}

// ---------------------------------------------------------------------------
// What is written reads back.
// ---------------------------------------------------------------------------

/// The trees of bodies are plain.
pub proof fn body_tree_plain(b: BodyView)
    ensures
        cbor::plain(b.tree(), 2),
{
    reveal_with_fuel(cbor::plain, 3);
}

/// The names of the fields of bodies and records differ.
proof fn names_differ()
    ensures
        "p"@.len() == 1,
        "t"@.len() == 1,
        "u"@.len() == 1,
        "o"@.len() == 1,
        "b"@.len() == 1,
        "k"@.len() == 1,
        "s"@.len() == 1,
        "white"@.len() == 5,
        "black"@.len() == 5,
        "nonce"@.len() == 5,
        "m"@ != "r"@,
        "m"@ != "o"@,
        "m"@ != "a"@,
        "m"@ != "c"@,
        "o"@ != "a"@,
        "o"@ != "c"@,
        "a"@ != "c"@,
        "p"@ != "t"@,
        "p"@ != "u"@,
        "p"@ != "o"@,
        "t"@ != "u"@,
        "b"@ != "k"@,
        "b"@ != "s"@,
        "k"@ != "s"@,
        "white"@ != "black"@,
        "white"@ != "nonce"@,
        "black"@ != "nonce"@,
{
    reveal_strlit("m");
    reveal_strlit("r");
    reveal_strlit("o");
    reveal_strlit("a");
    reveal_strlit("c");
    reveal_strlit("p");
    reveal_strlit("t");
    reveal_strlit("u");
    reveal_strlit("b");
    reveal_strlit("k");
    reveal_strlit("s");
    reveal_strlit("white");
    reveal_strlit("black");
    reveal_strlit("nonce");
    assert("m"@[0] == 'm' && "r"@[0] == 'r' && "o"@[0] == 'o' && "a"@[0] == 'a');
    assert("c"@[0] == 'c' && "p"@[0] == 'p' && "t"@[0] == 't' && "u"@[0] == 'u');
    assert("b"@[0] == 'b' && "k"@[0] == 'k' && "s"@[0] == 's');
    assert("white"@[0] == 'w' && "black"@[0] == 'b' && "nonce"@[0] == 'n');
}

/// A body reads back from its document.
pub proof fn body_reads_back(b: BodyView)
    requires
        b.sized(),
    ensures
        parse_body(b.tree()) == Some(b),
{
    names_differ();
    match b {
        BodyView::Move { ply, parent, uci } => {
            let s = b.tree()->Table_0[0].1->Table_0;
            cbor::present(s, 0, "p"@);
            cbor::present(s, 1, "t"@);
            cbor::present(s, 2, "u"@);
        },
        BodyView::Resign => {},
        BodyView::DrawAccept { ply, offer } => {
            let s = b.tree()->Table_0[0].1->Table_0;
            cbor::present(s, 0, "p"@);
            cbor::present(s, 1, "o"@);
        },
        _ => {
            let s = b.tree()->Table_0[0].1->Table_0;
            cbor::present(s, 0, "p"@);
            cbor::present(s, 1, "t"@);
        },
    }
}

/// The trees of records are plain.
pub proof fn record_tree_plain(r: RecordView)
    ensures
        cbor::plain(r.tree(), 3),
{
    body_tree_plain(r.body);
    reveal_with_fuel(cbor::plain, 2);
}

/// A record reads back from its document.
pub proof fn record_reads_back(r: RecordView)
    requires
        r.sized(),
    ensures
        parse_record(r.tree()) == Some(r),
{
    body_reads_back(r.body);
    names_differ();
    let s = r.tree()->Table_0;
    cbor::present(s, 0, "b"@);
    cbor::present(s, 1, "k"@);
    cbor::present(s, 2, "s"@);
}

/// Game parameters read back from their document.
pub proof fn params_read_back(p: ParamsView)
    requires
        p.sized(),
    ensures
        parse_params(p.tree()) == Some(p),
        cbor::plain(p.tree(), 1),
{
    names_differ();
    reveal_with_fuel(cbor::plain, 2);
    let s = p.tree()->Table_0;
    cbor::present(s, 0, "white"@);
    cbor::present(s, 1, "black"@);
    cbor::present(s, 2, "nonce"@);
}

// ---------------------------------------------------------------------------
// Game parameters.
// ---------------------------------------------------------------------------

/// Immutable contract parameters, fixed at creation. Both players can derive
/// the same game id from them independently.
#[derive(Debug, PartialEq, Eq)]
pub struct GameParams {
    pub white: KeyBytes,
    pub black: KeyBytes,
    /// Distinguishes repeat matchups between the same two players.
    pub nonce: [u8; 16],
}

impl View for GameParams {
    type V = ParamsView;

    open spec fn view(&self) -> ParamsView {
        ParamsView { white: self.white@, black: self.black@, nonce: self.nonce@ }
    }
}

impl Clone for GameParams {
    fn clone(&self) -> (r: GameParams)
        ensures
            r == *self,
    {
        GameParams { white: self.white, black: self.black, nonce: self.nonce }
    }
}

impl GameParams {
    /// Binds every signature to this specific game: a move signed in one game
    /// means nothing in another.
    pub fn game_id(&self) -> (r: [u8; 32])
        ensures
            r@ == self@.game_id(),
    {
        let mut buf: Vec<u8> = Vec::new();
        append_bytes(&mut buf, DOMAIN_GAME.as_bytes());
        append_bytes(&mut buf, self.white.as_slice());
        append_bytes(&mut buf, self.black.as_slice());
        append_bytes(&mut buf, self.nonce.as_slice());
        assert(buf@ =~= bytes::text_bytes(DOMAIN_GAME@) + self@.white + self@.black + self@.nonce);
        crypto::digest(buf.as_slice())
    }

    /// The synthetic parent of ply 1. Anchors the chain to this game.
    pub fn genesis(&self) -> (r: RecordId)
        ensures
            r@ == self@.genesis(),
    {
        let mut buf: Vec<u8> = Vec::new();
        append_bytes(&mut buf, DOMAIN_GENESIS.as_bytes());
        let game = self.game_id();
        append_bytes(&mut buf, game.as_slice());
        assert(buf@ =~= bytes::text_bytes(DOMAIN_GENESIS@) + self@.game_id());
        crypto::digest(buf.as_slice())
    }

    /// The side a key plays; white where both sides have the one key.
    pub fn color_of(&self, key: &KeyBytes) -> (r: Option<Color>)
        ensures
            r == self@.color_of(key@),
    {
        if same_bytes(key.as_slice(), self.white.as_slice()) {
            Some(Color::White)
        } else if same_bytes(key.as_slice(), self.black.as_slice()) {
            Some(Color::Black)
        } else {
            None
        }
    }

    /// The key that plays a side.
    pub fn key_of(&self, color: Color) -> (r: KeyBytes)
        ensures
            r@ == self@.key_of(color),
    {
        match color {
            Color::White => self.white,
            Color::Black => self.black,
        }
    }

    /// The parameters as a CBOR document.
    pub fn to_item(&self) -> (r: Item)
        ensures
            r@ == self@.tree(),
    {
        let mut m: Vec<(Item, Item)> = Vec::new();
        cbor::push_row(&mut m, "white", cbor::bytes_item(self.white.as_slice()));
        cbor::push_row(&mut m, "black", cbor::bytes_item(self.black.as_slice()));
        cbor::push_row(&mut m, "nonce", cbor::bytes_item(self.nonce.as_slice()));
        assert(cbor::pair_trees(m@) =~= self@.tree()->Table_0);
        Item::Table(m)
    }

    /// Read parameters out of a CBOR document.
    pub fn from_item(item: &Item) -> (r: Option<GameParams>)
        ensures
            match r {
                Some(p) => parse_params(item@) == Some(p@),
                None => parse_params(item@) is None,
            },
    {
        let m = match cbor::table_of(item) {
            Some(m) => m,
            None => return None,
        };
        let white = match cbor::field32(m, "white") {
            Some(b) => b,
            None => return None,
        };
        let black = match cbor::field32(m, "black") {
            Some(b) => b,
            None => return None,
        };
        let nonce = match cbor::field_of(m, "nonce") {
            Some(i) => match cbor::piece_of(i) {
                Some(b) => match array16(b.as_slice()) {
                    Some(n) => n,
                    None => return None,
                },
                None => return None,
            },
            None => return None,
        };
        Some(GameParams { white, black, nonce })
    }

    /// The contract's parameter bytes.
    pub fn encode(&self) -> (r: Vec<u8>)
        ensures
            r@ == cbor::cbor_bytes(self@.tree()),
            decoded_params(r@) == Some(self@),
    {
        proof {
            params_read_back(self@);
            cbor::plain_deeper(self@.tree(), 1, cbor::MAX_DEPTH as nat);
        }
        cbor::write(self.to_item())
    }

    /// Read the contract's parameter bytes; `None` where they are malformed.
    pub fn decode(raw: &[u8]) -> (r: Option<GameParams>)
        ensures
            match r {
                Some(p) => decoded_params(raw@) == Some(p@),
                None => decoded_params(raw@) is None,
            },
    {
        match cbor::read(raw) {
            Some(item) => GameParams::from_item(&item),
            None => None,
        }
    }
}

/// The parameters that a byte string holds.
pub open spec fn decoded_params(raw: Seq<u8>) -> Option<ParamsView> {
    match cbor::document(raw) {
        Some(c) => parse_params(c),
        None => None,
    }
}

/// Whose turn it is at a given ply. Ply is 1-indexed in half-moves.
pub fn color_at_ply(ply: u16) -> (r: Color)
    ensures
        r == side_at(ply as int),
{
    if ply % 2 == 1 {
        Color::White
    } else {
        Color::Black
    }
}

// ---------------------------------------------------------------------------
// Bodies.
// ---------------------------------------------------------------------------

/// What a player can assert. Once said, a statement is never retracted, only
/// accumulated.
#[derive(Debug, PartialEq, Eq)]
pub enum Body {
    /// A half-move. `parent` is the id of the record before it, or the genesis
    /// of the game at ply 1.
    Move { ply: u16, parent: RecordId, uci: String },
    /// Unconditional. It names no position.
    Resign,
    /// A draw offer anchored to a head, so it expires once the game moves on.
    /// `ply` is a grouping index only.
    DrawOffer { ply: u16, at: RecordId },
    /// Accepts one offer by record id. `ply` is a grouping index only.
    DrawAccept { ply: u16, offer: RecordId },
    /// Claims a draw by threefold repetition or the fifty-move rule, anchored
    /// to the head.
    DrawClaim { ply: u16, at: RecordId },
}

impl View for Body {
    type V = BodyView;

    open spec fn view(&self) -> BodyView {
        match self {
            Body::Move { ply, parent, uci } => BodyView::Move {
                ply: *ply,
                parent: parent@,
                uci: uci@,
            },
            Body::Resign => BodyView::Resign,
            Body::DrawOffer { ply, at } => BodyView::DrawOffer { ply: *ply, at: at@ },
            Body::DrawAccept { ply, offer } => BodyView::DrawAccept { ply: *ply, offer: offer@ },
            Body::DrawClaim { ply, at } => BodyView::DrawClaim { ply: *ply, at: at@ },
        }
    }
}

impl Clone for Body {
    fn clone(&self) -> (r: Body)
        ensures
            r@ == self@,
    {
        match self {
            Body::Move { ply, parent, uci } => Body::Move {
                ply: *ply,
                parent: *parent,
                uci: uci.clone(),
            },
            Body::Resign => Body::Resign,
            Body::DrawOffer { ply, at } => Body::DrawOffer { ply: *ply, at: *at },
            Body::DrawAccept { ply, offer } => Body::DrawAccept { ply: *ply, offer: *offer },
            Body::DrawClaim { ply, at } => Body::DrawClaim { ply: *ply, at: *at },
        }
    }
}

/// A draw record's fields as an item.
fn indexed_item(ply: u16, name: &str, id: &RecordId) -> (r: Item)
    ensures
        r@ == indexed_tree(ply, name@, id@),
{
    let mut m: Vec<(Item, Item)> = Vec::new();
    cbor::push_row(&mut m, "p", Item::Int(ply as i128));
    cbor::push_row(&mut m, name, cbor::bytes_item(id.as_slice()));
    assert(cbor::pair_trees(m@) =~= indexed_tree(ply, name@, id@)->Table_0);
    Item::Table(m)
}

/// The ply under a name.
pub(crate) fn ply_field(m: &Vec<(Item, Item)>, name: &str) -> (r: Option<u16>)
    ensures
        match r {
            Some(p) => cbor::number_at(cbor::pair_trees(m@), name@, 65535) == Some(p as int),
            None => cbor::number_at(cbor::pair_trees(m@), name@, 65535) is None,
        },
{
    match cbor::number_field(m, name, 65535) {
        Some(n) => Some(n as u16),
        None => None,
    }
}

/// Read the fields of a draw record.
fn read_indexed(item: &Item, name: &str) -> (r: Option<(u16, RecordId)>)
    ensures
        match r {
            Some((ply, id)) => parse_indexed(item@, name@) == Some((ply, id@)),
            None => parse_indexed(item@, name@) is None,
        },
{
    match cbor::fields2(item, "p", name) {
        Some(f) => match (ply_field(f.rows(), "p"), cbor::field32(f.rows(), name)) {
            (Some(ply), Some(id)) => Some((ply, id)),
            _ => None,
        },
        None => None,
    }
}

/// Read the fields of a move.
fn read_move(item: &Item) -> (r: Option<Body>)
    ensures
        match r {
            Some(b) => parse_move(item@) == Some(b@),
            None => parse_move(item@) is None,
        },
{
    match cbor::fields3(item, "p", "t", "u") {
        Some(f) => match (ply_field(f.rows(), "p"), cbor::field32(f.rows(), "t"), cbor::text_field(f.rows(), "u")) {
            (Some(ply), Some(parent), Some(uci)) => Some(Body::Move { ply, parent, uci }),
            _ => None,
        },
        None => None,
    }
}

impl Body {
    /// The ply this body is indexed at, for eviction grouping. `Resign` has
    /// none: one signer has exactly one possible `Resign` body.
    pub fn ply(&self) -> (r: Option<u16>)
        ensures
            r == self@.ply(),
    {
        match self {
            Body::Move { ply, .. } => Some(*ply),
            Body::Resign => None,
            Body::DrawOffer { ply, .. } => Some(*ply),
            Body::DrawAccept { ply, .. } => Some(*ply),
            Body::DrawClaim { ply, .. } => Some(*ply),
        }
    }

    /// Which kind of statement this is.
    pub fn kind(&self) -> (r: Kind)
        ensures
            r == self@.kind(),
    {
        match self {
            Body::Move { .. } => Kind::Move,
            Body::Resign => Kind::Resign,
            Body::DrawOffer { .. } => Kind::DrawOffer,
            Body::DrawAccept { .. } => Kind::DrawAccept,
            Body::DrawClaim { .. } => Kind::DrawClaim,
        }
    }

    /// The body as a CBOR document.
    pub fn to_item(&self) -> (r: Item)
        ensures
            r@ == self@.tree(),
    {
        match self {
            Body::Move { ply, parent, uci } => {
                let mut m: Vec<(Item, Item)> = Vec::new();
                cbor::push_row(&mut m, "p", Item::Int(*ply as i128));
                cbor::push_row(&mut m, "t", cbor::bytes_item(parent.as_slice()));
                cbor::push_row(&mut m, "u", cbor::text_item(uci.as_str()));
                let inner = Item::Table(m);
                assert(inner@->Table_0 =~= self@.tree()->Table_0[0].1->Table_0);
                cbor::table1("m", inner)
            },
            Body::Resign => cbor::text_item("r"),
            Body::DrawOffer { ply, at } => cbor::table1("o", indexed_item(*ply, "t", at)),
            Body::DrawAccept { ply, offer } => cbor::table1("a", indexed_item(*ply, "o", offer)),
            Body::DrawClaim { ply, at } => cbor::table1("c", indexed_item(*ply, "t", at)),
        }
    }

    /// Read a body out of a CBOR document.
    pub fn from_item(item: &Item) -> (r: Option<Body>)
        ensures
            match r {
                Some(b) => parse_body(item@) == Some(b@),
                None => parse_body(item@) is None,
            },
    {
        match cbor::variant_of(item) {
            Some((name, None)) => if same_text(name.as_str(), "r") {
                Some(Body::Resign)
            } else {
                None
            },
            Some((name, Some(inner))) => if same_text(name.as_str(), "m") {
                read_move(inner)
            } else if same_text(name.as_str(), "o") {
                match read_indexed(inner, "t") {
                    Some((ply, at)) => Some(Body::DrawOffer { ply, at }),
                    None => None,
                }
            } else if same_text(name.as_str(), "a") {
                match read_indexed(inner, "o") {
                    Some((ply, offer)) => Some(Body::DrawAccept { ply, offer }),
                    None => None,
                }
            } else if same_text(name.as_str(), "c") {
                match read_indexed(inner, "t") {
                    Some((ply, at)) => Some(Body::DrawClaim { ply, at }),
                    None => None,
                }
            } else {
                None
            },
            None => None,
        }
    }
}

/// The bytes of a body: what is hashed and signed.
pub(crate) fn body_bytes(body: &Body) -> (r: Vec<u8>)
    ensures
        r@ == body_encoding(body@),
        cbor::document(r@) == Some(body@.tree()),
{
    proof {
        body_tree_plain(body@);
        cbor::plain_deeper(body@.tree(), 2, cbor::MAX_DEPTH as nat);
    }
    cbor::write(body.to_item())
}

/// What gets signed: domain-separated and bound to the game id. The game and
/// the body can be read back from it, so no two statements share a payload.
pub fn signing_payload(game_id: &[u8; 32], body: &Body) -> (r: Vec<u8>)
    ensures
        r@ == payload(game_id@, body@),
        read_payload(r@) == Some((game_id@, body@)),
{
    let mut buf: Vec<u8> = Vec::new();
    append_bytes(&mut buf, DOMAIN_SIG.as_bytes());
    append_bytes(&mut buf, game_id.as_slice());
    let encoded = body_bytes(body);
    append_bytes(&mut buf, encoded.as_slice());
    proof {
        let domain = bytes::text_bytes(DOMAIN_SIG@);
        assert(buf@ =~= payload(game_id@, body@));
        assert(buf@.take(domain.len() as int) =~= domain);
        let rest = buf@.skip(domain.len() as int);
        assert(rest.take(32) =~= game_id@);
        assert(rest.skip(32) =~= encoded@);
        body_reads_back(body@);
    }
    buf
}

// ---------------------------------------------------------------------------
// Records.
// ---------------------------------------------------------------------------

/// One signed statement.
#[derive(Debug, PartialEq, Eq)]
pub struct Record {
    pub body: Body,
    pub signer: KeyBytes,
    /// 64 raw ed25519 bytes.
    pub sig: Vec<u8>,
}

impl View for Record {
    type V = RecordView;

    open spec fn view(&self) -> RecordView {
        RecordView { body: self.body@, signer: self.signer@, sig: self.sig@ }
    }
}

impl Clone for Record {
    fn clone(&self) -> (r: Record)
        ensures
            r@ == self@,
    {
        Record {
            body: self.body.clone(),
            signer: self.signer,
            sig: copy_bytes(self.sig.as_slice()),
        }
    }
}

impl Record {
    /// Content address of the statement, excluding the signature: the same
    /// statement always lands in the same slot, however it was signed.
    pub fn id(&self) -> (r: RecordId)
        ensures
            r@ == self@.id(),
    {
        let mut buf: Vec<u8> = Vec::new();
        append_bytes(&mut buf, DOMAIN_REC.as_bytes());
        append_bytes(&mut buf, self.signer.as_slice());
        let encoded = body_bytes(&self.body);
        append_bytes(&mut buf, encoded.as_slice());
        assert(buf@ =~= bytes::text_bytes(DOMAIN_REC@) + self@.signer + body_encoding(self@.body));
        crypto::digest(buf.as_slice())
    }

    /// Digest of the signature bytes. The id alone does not determine a
    /// record's bytes; the summary of a state publishes this beside it.
    pub fn sig_digest(&self) -> (r: [u8; 32])
        ensures
            r@ == signature_digest(self@.sig),
    {
        let mut buf: Vec<u8> = Vec::new();
        append_bytes(&mut buf, DOMAIN_SIGDIGEST.as_bytes());
        append_bytes(&mut buf, self.sig.as_slice());
        assert(buf@ =~= bytes::text_bytes(DOMAIN_SIGDIGEST@) + self@.sig);
        crypto::digest(buf.as_slice())
    }

    /// Sign a body for a game. What a player's key signs, within the ply cap,
    /// is valid.
    pub fn sign(key: &SigningKey, params: &GameParams, body: Body) -> (r: Record)
        ensures
            r@.body == body@,
            r@.signer == crypto::public_key(crypto::seed_of(*key)),
            r@.sig == crypto::signature_over(
                crypto::seed_of(*key),
                payload(params@.game_id(), body@),
            ),
            r@.valid(params@) <==> {
                &&& params@.color_of(r@.signer) is Some
                &&& body@.ply() matches Some(p) ==> p <= MAX_PLY
            },
    {
        let game = params.game_id();
        let message = signing_payload(&game, &body);
        let sig = crypto::sign(key, message.as_slice());
        let raw = crypto::signature_to_bytes(&sig);
        let public = crypto::verifying_key(key);
        Record {
            body,
            signer: crypto::verifying_key_bytes(&public),
            sig: copy_bytes(raw.as_slice()),
        }
    }

    /// Structural validity: is this a real statement by one of the two players?
    ///
    /// Chess legality is not checked. An illegal move is a well-formed
    /// statement that the projection ignores.
    pub fn verify(&self, params: &GameParams) -> (r: bool)
        ensures
            r == self@.valid(params@),
    {
        if params.color_of(&self.signer).is_none() {
            return false;
        }
        if let Some(p) = self.body.ply() {
            if p > MAX_PLY {
                return false;
            }
        }
        if self.sig.len() != 64 {
            return false;
        }
        let public = match crypto::read_verifying_key(&self.signer) {
            Some(k) => k,
            None => return false,
        };
        let sig = match crypto::read_signature(self.sig.as_slice()) {
            Some(s) => s,
            None => return false,
        };
        let game = params.game_id();
        let message = signing_payload(&game, &self.body);
        crypto::signature_verifies(&public, message.as_slice(), &sig)
    }

    /// The side the signer plays.
    pub fn color(&self, params: &GameParams) -> (r: Option<Color>)
        ensures
            r == params@.color_of(self@.signer),
    {
        params.color_of(&self.signer)
    }

    /// The record as a CBOR document.
    pub fn to_item(&self) -> (r: Item)
        ensures
            r@ == self@.tree(),
    {
        let mut m: Vec<(Item, Item)> = Vec::new();
        cbor::push_row(&mut m, "b", self.body.to_item());
        cbor::push_row(&mut m, "k", cbor::bytes_item(self.signer.as_slice()));
        cbor::push_row(&mut m, "s", cbor::bytes_item(self.sig.as_slice()));
        assert(cbor::pair_trees(m@) =~= self@.tree()->Table_0);
        Item::Table(m)
    }

    /// Read a record out of a CBOR document.
    pub fn from_item(item: &Item) -> (r: Option<Record>)
        ensures
            match r {
                Some(rec) => parse_record(item@) == Some(rec@),
                None => parse_record(item@) is None,
            },
    {
        let m = match cbor::table_of(item) {
            Some(m) => m,
            None => return None,
        };
        let body = match cbor::field_of(m, "b") {
            Some(i) => match Body::from_item(i) {
                Some(b) => b,
                None => return None,
            },
            None => return None,
        };
        let signer = match cbor::field32(m, "k") {
            Some(k) => k,
            None => return None,
        };
        let sig = match cbor::field_of(m, "s") {
            Some(i) => match cbor::bytes_of(i) {
                Some(b) => b,
                None => return None,
            },
            None => return None,
        };
        Some(Record { body, signer, sig })
    }
}

// ---------------------------------------------------------------------------
// Laws.
// ---------------------------------------------------------------------------

/// The id of a record does not depend on its signature.
pub proof fn id_ignores_the_signature(a: RecordView, b: RecordView)
    requires
        a.body == b.body,
        a.signer == b.signer,
    ensures
        a.id() == b.id(),
{
}

/// What is signed in one game is never what is signed in another.
pub proof fn payloads_of_two_games_differ(
    game: Seq<u8>,
    other_game: Seq<u8>,
    body: BodyView,
    other_body: BodyView,
)
    requires
        game.len() == 32,
        other_game.len() == 32,
        game != other_game,
    ensures
        payload(game, body) != payload(other_game, other_body),
{
    let domain = bytes::text_bytes(DOMAIN_SIG@);
    if payload(game, body) == payload(other_game, other_body) {
        bytes::split_equal(
            domain + game,
            body_encoding(body),
            domain + other_game,
            body_encoding(other_body),
        );
        bytes::split_equal(domain, game, domain, other_game);
    }
}

/// The two sides take turns, and White begins.
pub proof fn the_sides_take_turns(ply: int)
    ensures
        side_at(1) == Color::White,
        side_at(ply + 1) == side_at(ply).opposite(),
        side_at(ply).opposite() != side_at(ply),
        side_at(ply).opposite().opposite() == side_at(ply),
{
}

/// A key plays the side whose key it is, and no key but the two plays any.
pub proof fn a_key_plays_its_own_side(params: ParamsView, key: Seq<u8>)
    ensures
        params.color_of(key) matches Some(color) ==> params.key_of(color) == key,
        params.color_of(key) is None ==> forall|color: Color|
            #[trigger] params.key_of(color) != key,
        params.white != params.black ==> forall|color: Color|
            params.color_of(#[trigger] params.key_of(color)) == Some(color),
{
    assert(params.key_of(Color::White) == params.white);
    assert(params.key_of(Color::Black) == params.black);
}

/// Statements of different kinds are of different kinds, and only a resignation
/// belongs to no ply.
pub proof fn kinds_are_kept_apart(a: BodyView, b: BodyView)
    ensures
        a.kind() == b.kind() <==> (a is Move && b is Move || a is Resign && b is Resign || a
            is DrawOffer && b is DrawOffer || a is DrawAccept && b is DrawAccept || a is DrawClaim
            && b is DrawClaim),
        a.ply() is None <==> a is Resign,
{
}

} // verus!
