//! The rules of chess, as `shakmaty` implements them.
//!
//! A position, a move and a FEN are opaque here. Each has a text that says all
//! there is to say about it, and what `shakmaty` computes from one is named as
//! a function of those texts.

use vstd::prelude::*;
use crate::board;
use crate::types::Color;
use shakmaty::fen::{Epd, Fen};
use shakmaty::uci::UciMove;
use shakmaty::{CastlingMode, Chess, EnPassantMode, Move, Position};

verus! {

#[verifier::external_type_specification]
#[verifier::external_body]
pub struct ExChess(Chess);

#[verifier::external_type_specification]
#[verifier::external_body]
pub struct ExMove(Move);

#[verifier::external_type_specification]
#[verifier::external_body]
pub struct ExUciMove(UciMove);

#[verifier::external_type_specification]
#[verifier::external_body]
pub struct ExFen(Fen);

#[verifier::external_type_specification]
#[verifier::external_body]
pub struct ExEpd(Epd);

/// A position in full: the castling mode, a space, and the FEN with the en
/// passant square of every double pawn step.
pub uninterp spec fn position_text(pos: Chess) -> Seq<char>;

/// A move in full, written out.
pub uninterp spec fn move_text(mv: Move) -> Seq<char>;

/// A move in UCI notation.
pub uninterp spec fn uci_text(uci: UciMove) -> Seq<char>;

/// A FEN, written out.
pub uninterp spec fn fen_text(fen: Fen) -> Seq<char>;

/// An EPD, written out.
pub uninterp spec fn epd_text(epd: Epd) -> Seq<char>;

/// The position every game starts from.
pub const START: &'static str =
    "Standard rnbqkbnr/pppppppp/8/8/8/8/PPPPPPPP/RNBQKBNR w KQkq - 0 1";

/// What the text of a position begins with where castling is standard.
pub const STANDARD: &'static str = "Standard ";

/// Castling is standard: by kings on e1 and e8, with rooks in the corners.
pub open spec fn is_standard(pos: Seq<char>) -> bool {
    STANDARD@.is_prefix_of(pos)
}

/// The move in UCI notation that these bytes spell, if any.
pub uninterp spec fn uci_read(bytes: Seq<u8>) -> Option<Seq<char>>;

/// The move that a UCI move means in a position, if it is legal there.
pub uninterp spec fn uci_meaning(pos: Seq<char>, uci: Seq<char>) -> Option<Seq<char>>;

/// The UCI notation of a move under standard castling.
pub uninterp spec fn uci_of_move(mv: Seq<char>) -> Seq<char>;

/// The position after a move, if the move is legal.
pub uninterp spec fn after_move(pos: Seq<char>, mv: Seq<char>) -> Option<Seq<char>>;

/// Whether white is to move.
pub uninterp spec fn white_to_move(pos: Seq<char>) -> bool;

/// Half-moves since the last capture or pawn move.
pub uninterp spec fn quiet_halfmoves(pos: Seq<char>) -> u32;

/// Whether the side to move is checkmated.
pub uninterp spec fn checkmated(pos: Seq<char>) -> bool;

/// Whether the side to move is stalemated.
pub uninterp spec fn stalemated(pos: Seq<char>) -> bool;

/// Whether neither side has the material to mate.
pub uninterp spec fn insufficient(pos: Seq<char>) -> bool;

/// The legal moves of a position, in the order they are generated.
pub uninterp spec fn moves_of(pos: Seq<char>) -> Seq<Seq<char>>;

/// The FEN of a position, with an en passant square only where the capture is
/// legal.
pub uninterp spec fn fen_of(pos: Seq<char>) -> Seq<char>;

/// The EPD of a position: the FEN without the clocks.
pub uninterp spec fn epd_of(pos: Seq<char>) -> Seq<char>;

/// The FEN that a text spells, if any, written out.
pub uninterp spec fn fen_read(text: Seq<char>) -> Option<Seq<char>>;

/// The position that a FEN sets up under standard castling, if it is legal.
pub uninterp spec fn fen_position(fen: Seq<char>) -> Option<Seq<char>>;

/// `shakmaty::Chess::default`: the starting position.
#[verifier::external_body]
pub(crate) fn start_position() -> (pos: Chess)
    ensures
        position_text(pos) == START@,
{
    Chess::default()
}

/// `shakmaty::uci::UciMove::from_ascii`: the move named [`uci_read`].
#[verifier::external_body]
pub(crate) fn read_uci(bytes: &[u8]) -> (r: Option<UciMove>)
    ensures
        match r {
            Some(u) => uci_read(bytes@) == Some(uci_text(u)),
            None => uci_read(bytes@) is None,
        },
{
    UciMove::from_ascii(bytes).ok()
}

/// `shakmaty::uci::UciMove::to_move`: the move named [`uci_meaning`]. A move
/// that comes back is legal in the position.
#[verifier::external_body]
pub(crate) fn uci_to_move(uci: UciMove, pos: &Chess) -> (r: Option<Move>)
    ensures
        match r {
            Some(m) => uci_meaning(position_text(*pos), uci_text(uci)) == Some(move_text(m))
                && after_move(position_text(*pos), move_text(m)) is Some,
            None => uci_meaning(position_text(*pos), uci_text(uci)) is None,
        },
{
    uci.to_move(pos).ok()
}

/// `shakmaty::uci::UciMove::from_move` under standard castling: the notation
/// named [`uci_of_move`].
#[verifier::external_body]
pub(crate) fn move_to_uci(mv: Move) -> (r: UciMove)
    ensures
        uci_text(r) == uci_of_move(move_text(mv)),
{
    UciMove::from_move(mv, CastlingMode::Standard)
}

/// `to_string` of a UCI move: its text.
#[verifier::external_body]
pub(crate) fn write_uci(uci: &UciMove) -> (r: String)
    ensures
        r@ == uci_text(*uci),
{
    uci.to_string()
}

/// `shakmaty::Position::play`: the position named [`after_move`].
#[verifier::external_body]
pub(crate) fn play(pos: Chess, mv: Move) -> (r: Option<Chess>)
    ensures
        match r {
            Some(p) => after_move(position_text(pos), move_text(mv)) == Some(position_text(p)),
            None => after_move(position_text(pos), move_text(mv)) is None,
        },
{
    pos.play(mv).ok()
}

/// `shakmaty::Position::turn`: white or black, as [`white_to_move`] names it.
#[verifier::external_body]
pub(crate) fn turn(pos: &Chess) -> (r: Color)
    ensures
        white_to_move(position_text(*pos)) ==> r == Color::White,
        !white_to_move(position_text(*pos)) ==> r == Color::Black,
{
    match pos.turn() {
        shakmaty::Color::White => Color::White,
        shakmaty::Color::Black => Color::Black,
    }
}

/// The side to move.
pub open spec fn side_to_move(pos: Seq<char>) -> Color {
    if white_to_move(pos) {
        Color::White
    } else {
        Color::Black
    }
}

/// `shakmaty::Position::halfmoves`: the clock named [`quiet_halfmoves`].
#[verifier::external_body]
pub(crate) fn halfmoves(pos: &Chess) -> (r: u32)
    ensures
        r == quiet_halfmoves(position_text(*pos)),
{
    pos.halfmoves()
}

/// `shakmaty::Position::is_checkmate`.
#[verifier::external_body]
pub(crate) fn is_checkmate(pos: &Chess) -> (r: bool)
    ensures
        r == checkmated(position_text(*pos)),
{
    pos.is_checkmate()
}

/// `shakmaty::Position::is_stalemate`.
#[verifier::external_body]
pub(crate) fn is_stalemate(pos: &Chess) -> (r: bool)
    ensures
        r == stalemated(position_text(*pos)),
{
    pos.is_stalemate()
}

/// `shakmaty::Position::is_insufficient_material`.
#[verifier::external_body]
pub(crate) fn is_insufficient_material(pos: &Chess) -> (r: bool)
    ensures
        r == insufficient(position_text(*pos)),
{
    pos.is_insufficient_material()
}

/// `shakmaty::Position::legal_moves`: the moves named [`moves_of`]. Each comes
/// once, and every move that `UciMove::to_move` gives is among them. Where
/// castling is standard, the UCI notation of each is read back as that move. The
/// notation names two squares, which differ where castling is standard, the first
/// with a piece of the side to move on it, and a letter exactly where a pawn
/// reaches its last rank; such a move is there once for each of the four letters.
#[verifier::external_body]
pub(crate) fn legal(pos: &Chess) -> (r: Vec<Move>)
    ensures
        move_texts(r@) == moves_of(position_text(*pos)),
        move_texts(r@).no_duplicates(),
        is_standard(position_text(*pos)) ==> forall|i: int|
            0 <= i < r@.len() ==> move_read(
                position_text(*pos),
                uci_of_move(move_text(#[trigger] r@[i])),
            ) == Some(move_text(r@[i])),
        forall|uci: Seq<char>|
            (#[trigger] move_read(position_text(*pos), uci)) matches Some(m) ==> move_texts(
                r@,
            ).contains(m),
        board::spelled_out(
            position_text(*pos),
            move_texts(r@).map_values(|m: Seq<char>| uci_of_move(m)),
        ),
{
    pos.legal_moves().to_vec()
}

/// The texts of a list of moves.
pub open spec fn move_texts(moves: Seq<Move>) -> Seq<Seq<char>> {
    moves.map_values(|m: Move| move_text(m))
}

/// `shakmaty::fen::Fen::from_position`, with only legal en passant squares: the
/// FEN named [`fen_of`].
#[verifier::external_body]
pub(crate) fn position_fen(pos: &Chess) -> (r: Fen)
    ensures
        fen_text(r) == fen_of(position_text(*pos)),
{
    Fen::from_position(pos, EnPassantMode::Legal)
}

/// `to_string` of a FEN: its text.
#[verifier::external_body]
pub(crate) fn write_fen(fen: &Fen) -> (r: String)
    ensures
        r@ == fen_text(*fen),
{
    fen.to_string()
}

/// `shakmaty::fen::Epd::from_position`, with only legal en passant squares: the
/// EPD named [`epd_of`].
#[verifier::external_body]
pub(crate) fn position_epd(pos: &Chess) -> (r: Epd)
    ensures
        epd_text(r) == epd_of(position_text(*pos)),
{
    Epd::from_position(pos, EnPassantMode::Legal)
}

/// `to_string` of an EPD: its text.
#[verifier::external_body]
pub(crate) fn write_epd(epd: &Epd) -> (r: String)
    ensures
        r@ == epd_text(*epd),
{
    epd.to_string()
}

/// `str::parse` into a FEN: the FEN named [`fen_read`].
#[verifier::external_body]
pub(crate) fn read_fen(text: &str) -> (r: Option<Fen>)
    ensures
        match r {
            Some(f) => fen_read(text@) == Some(fen_text(f)),
            None => fen_read(text@) is None,
        },
{
    text.parse::<Fen>().ok()
}

/// `shakmaty::fen::Fen::into_position` under standard castling: the position
/// named [`fen_position`], in which castling is standard.
#[verifier::external_body]
pub(crate) fn set_up(fen: Fen) -> (r: Option<Chess>)
    ensures
        match r {
            Some(p) => fen_position(fen_text(fen)) == Some(position_text(p)) && is_standard(
                position_text(p),
            ),
            None => fen_position(fen_text(fen)) is None,
        },
{
    fen.into_position::<Chess>(CastlingMode::Standard).ok()
}

/// The position that a FEN text sets up, if it spells a legal one.
pub open spec fn position_read(text: Seq<char>) -> Option<Seq<char>> {
    match fen_read(text) {
        Some(fen) => fen_position(fen),
        None => None,
    }
}

/// The position that a FEN text sets up, if it spells a legal one.
pub(crate) fn read_position(text: &str) -> (r: Option<Chess>)
    ensures
        match r {
            Some(p) => position_read(text@) == Some(position_text(p)) && is_standard(
                position_text(p),
            ),
            None => position_read(text@) is None,
        },
{
    match read_fen(text) {
        Some(fen) => set_up(fen),
        None => None,
    }
}

/// The move that a UCI text means in a position, if it spells a legal one.
pub open spec fn move_read(pos: Seq<char>, uci: Seq<char>) -> Option<Seq<char>> {
    match uci_read(crate::bytes::text_bytes(uci)) {
        Some(u) => uci_meaning(pos, u),
        None => None,
    }
}

/// The text spells a legal move of the position, in the notation it is written
/// with.
pub open spec fn is_canonical(pos: Seq<char>, uci: Seq<char>) -> bool {
    move_read(pos, uci) matches Some(m) && uci_of_move(m) == uci
}

/// The move that a UCI text means in a position, if it spells a legal one.
pub(crate) fn read_move(pos: &Chess, uci: &str) -> (r: Option<Move>)
    ensures
        match r {
            Some(m) => move_read(position_text(*pos), uci@) == Some(move_text(m)) && after_move(
                position_text(*pos),
                move_text(m),
            ) is Some,
            None => move_read(position_text(*pos), uci@) is None,
        },
{
    match read_uci(uci.as_bytes()) {
        Some(u) => uci_to_move(u, pos),
        None => None,
    }
}

} // verus!
