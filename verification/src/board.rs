//! The board, as a function of a projected status: which squares to show, in
//! which order, and how each of them is marked.

use vstd::prelude::*;
use vstd::string::StrSliceExecFns;
use crate::chess;
use crate::project;
use crate::project::{moves_in, Status, StatusView};
use crate::text;
use crate::text::decimal_text;
use crate::types::Color;
use shakmaty::{Chess, Position};

verus! {

/// The kind of a piece.
#[derive(Clone, Copy, Debug, PartialEq, Eq, Structural)]
pub enum Role {
    Pawn,
    Knight,
    Bishop,
    Rook,
    Queen,
    King,
}

#[derive(Clone, Copy, Debug, PartialEq, Eq, Structural)]
pub enum Shade {
    Light,
    Dark,
}

#[derive(Clone, Copy, Debug, PartialEq, Eq, Structural)]
pub enum Marker {
    Unmarked,
    Selected,
    LegalTarget,
}

/// One square as it is shown.
#[derive(Clone, Copy, Debug, PartialEq, Eq)]
pub struct Square {
    pub file: char,
    pub rank: u8,
    pub shade: Shade,
    pub piece: Option<(Color, Role)>,
    pub marker: Marker,
}

// ---------------------------------------------------------------------------
// Pieces.
// ---------------------------------------------------------------------------

/// What stands on a square in a position; the square is spelled in two
/// characters of ASCII.
pub uninterp spec fn piece_on(pos: Seq<char>, square: Seq<u8>) -> Option<(Color, Role)>;

/// `shakmaty::Board::piece_at` on the board of a position, and the square that
/// `shakmaty::Square::from_ascii` reads: the piece named [`piece_on`]. Where
/// the letter is not one from a to h, or the digit not one from 1 to 8, there
/// is no such square, and no piece.
#[verifier::external_body]
fn piece_at(pos: &Chess, square: [u8; 2]) -> (r: Option<(Color, Role)>)
    ensures
        97 <= square[0] <= 104 && 49 <= square[1] <= 56 ==> r == piece_on(
            chess::position_text(*pos),
            square@,
        ),
        !(97 <= square[0] <= 104 && 49 <= square[1] <= 56) ==> r is None,
{
    let square = shakmaty::Square::from_ascii(&square).ok()?;
    let piece = pos.board().piece_at(square)?;
    let color = match piece.color {
        shakmaty::Color::White => Color::White,
        shakmaty::Color::Black => Color::Black,
    };
    Some((color, match piece.role {
        shakmaty::Role::Pawn => Role::Pawn,
        shakmaty::Role::Knight => Role::Knight,
        shakmaty::Role::Bishop => Role::Bishop,
        shakmaty::Role::Rook => Role::Rook,
        shakmaty::Role::Queen => Role::Queen,
        shakmaty::Role::King => Role::King,
    }))
}

/// A square that is on the board.
pub open spec fn on_board(at: (char, u8)) -> bool {
    97 <= at.0 as u32 <= 104 && 1 <= at.1 <= 8
}

/// A square on the board, spelled in ASCII.
pub open spec fn spelling(at: (char, u8)) -> Seq<u8> {
    seq![(at.0 as u32) as u8, (48 + at.1) as u8]
}

/// What stands on a square in a position.
pub open spec fn standing_on(pos: Option<Seq<char>>, at: (char, u8)) -> Option<(Color, Role)> {
    match pos {
        Some(p) => if on_board(at) {
            piece_on(p, spelling(at))
        } else {
            None
        },
        None => None,
    }
}

/// What stands on a square in a position.
fn standing(pos: &Chess, at: (char, u8)) -> (r: Option<(Color, Role)>)
    ensures
        r == standing_on(Some(chess::position_text(*pos)), at),
{
    let code: u32 = at.0 as u32;
    if code < 97 || code > 104 || at.1 < 1 || at.1 > 8 {
        return None;
    }
    let square: [u8; 2] = [code as u8, 48 + at.1];
    assert(square@ =~= spelling(at));
    piece_at(pos, square)
}

// ---------------------------------------------------------------------------
// How moves are spelled.
// ---------------------------------------------------------------------------

/// The two characters name a square.
pub open spec fn names_square(file: char, rank: char) -> bool {
    'a' <= file <= 'h' && '1' <= rank <= '8'
}

/// The letter of a piece that a pawn can become.
pub open spec fn is_letter(c: char) -> bool {
    c == 'q' || c == 'r' || c == 'b' || c == 'n'
}

/// The rank on which a pawn becomes another piece, as moves spell it.
pub open spec fn last_rank(color: Color) -> char {
    match color {
        Color::White => '8',
        Color::Black => '1',
    }
}

/// A move is spelled as two squares, the first with a piece of the side to move
/// on it, and with a letter behind them exactly where a pawn reaches its last
/// rank. Where castling is standard, the two squares differ.
pub open spec fn spells_move(pos: Seq<char>, uci: Seq<char>) -> bool {
    &&& uci.len() == 4 || uci.len() == 5 && is_letter(uci[4])
    &&& names_square(uci[0], uci[1])
    &&& names_square(uci[2], uci[3])
    &&& piece_on(pos, seq![uci[0] as u8, uci[1] as u8]) matches Some((color, role))
    &&& color == chess::side_to_move(pos)
    &&& uci.len() == 5 <==> role == Role::Pawn && uci[3] == last_rank(color)
    &&& chess::is_standard(pos) ==> start_of(uci) != end_of(uci)
}

/// Every move is spelled like that, and a pawn that becomes another piece can
/// become any of the four.
pub open spec fn spelled_out(pos: Seq<char>, moves: Seq<Seq<char>>) -> bool {
    forall|uci: Seq<char>| #[trigger]
        moves.contains(uci) ==> {
            &&& spells_move(pos, uci)
            &&& uci.len() == 5 ==> forall|c: char| #[trigger]
                is_letter(c) ==> moves.contains(uci.take(4).push(c))
        }
}

/// The square that a move begins on.
pub open spec fn start_of(uci: Seq<char>) -> (char, u8) {
    (uci[0], (uci[1] as int - '0' as int) as u8)
}

/// The square that a move ends on.
pub open spec fn end_of(uci: Seq<char>) -> (char, u8) {
    (uci[2], (uci[3] as int - '0' as int) as u8)
}

/// The moves at a status are spelled out.
pub open spec fn status_spelled_out(status: StatusView) -> bool {
    chess::position_read(status.fen) matches Some(pos) ==> chess::is_standard(pos) && spelled_out(
        pos,
        moves_for(status),
    )
}

// ---------------------------------------------------------------------------
// Where a piece can go.
// ---------------------------------------------------------------------------

/// The name of a square, as moves spell it.
pub open spec fn name_of(at: (char, u8)) -> Seq<char> {
    seq![at.0] + text::decimal(at.1 as nat)
}

/// The moves of a status in UCI notation, whether or not the game is over.
pub open spec fn moves_for(status: StatusView) -> Seq<Seq<char>> {
    match chess::position_read(status.fen) {
        None => Seq::empty(),
        Some(pos) => chess::moves_of(pos).map_values(|m: Seq<char>| chess::uci_of_move(m)),
    }
}

/// The square that a move goes to.
pub open spec fn target_of(uci: Seq<char>) -> Option<(char, u8)> {
    if uci.len() > 3 && '0' <= uci[3] <= '9' {
        Some((uci[2], (uci[3] as int - '0' as int) as u8))
    } else {
        None
    }
}

/// The move begins on the square.
pub open spec fn leaves(uci: Seq<char>, from: (char, u8)) -> bool {
    name_of(from).is_prefix_of(uci)
}

/// A move leads from one square to the other.
pub open spec fn reaches(moves: Seq<Seq<char>>, from: (char, u8), to: (char, u8)) -> bool {
    exists|i: int|
        0 <= i < moves.len() && leaves(#[trigger] moves[i], from) && target_of(moves[i]) == Some(to)
}

/// Whether the text of a move begins with the name of a square.
fn move_leaves(uci: &str, from: (char, u8)) -> (r: bool)
    ensures
        r == leaves(uci@, from),
{
    let rank = decimal_text(from.1 as u64);
    let ghost name = name_of(from);
    let n: usize = uci.unicode_len();
    let m: usize = rank.as_str().unicode_len();
    if n <= m {
        assert(name.len() > uci@.len());
        return false;
    }
    if uci.get_char(0) != from.0 {
        assert(name[0] != uci@[0]);
        return false;
    }
    let mut i: usize = 0;
    while i < m
        invariant
            i <= m < n,
            n == uci@.len(),
            m == rank@.len(),
            name == seq![from.0] + rank@,
            name == name_of(from),
            uci@[0] == from.0,
            forall|j: int| 0 <= j < i ==> uci@[j + 1] == #[trigger] rank@[j],
        decreases m - i,
    {
        if uci.get_char(i + 1) != rank.as_str().get_char(i) {
            assert(name[i + 1] != uci@[i + 1]);
            return false;
        }
        i += 1;
    }
    assert(name =~= uci@.take(name.len() as int)) by {
        assert forall|j: int| 0 <= j < name.len() implies name[j] == uci@[j] by {
            if j > 0 {
                assert(rank@[j - 1] == uci@[j - 1 + 1]);
            }
        }
    }
    true
}

/// The square that a move goes to.
fn move_target(uci: &str) -> (r: Option<(char, u8)>)
    ensures
        r == target_of(uci@),
{
    if uci.unicode_len() <= 3 {
        return None;
    }
    let digit: u32 = uci.get_char(3) as u32;
    if digit < 48 || digit > 57 {
        return None;
    }
    Some((uci.get_char(2), (digit - 48) as u8))
}

/// Whether a move leads from one square to the other.
fn can_reach(moves: &Vec<String>, from: (char, u8), to: (char, u8)) -> (r: bool)
    ensures
        r == reaches(project::text_views(moves@), from, to),
{
    let ghost texts = project::text_views(moves@);
    let mut i: usize = 0;
    while i < moves.len()
        invariant
            i <= moves.len(),
            texts == project::text_views(moves@),
            forall|j: int|
                0 <= j < i ==> !(leaves(#[trigger] texts[j], from) && target_of(texts[j]) == Some(
                    to,
                )),
        decreases moves.len() - i,
    {
        assert(texts[i as int] == moves@[i as int]@);
        if move_leaves(moves[i].as_str(), from) {
            if let Some(at) = move_target(moves[i].as_str()) {
                if at.0 == to.0 && at.1 == to.1 {
                    assert(leaves(texts[i as int], from));
                    return true;
                }
            }
        }
        i += 1;
    }
    false
}

// ---------------------------------------------------------------------------
// The squares.
// ---------------------------------------------------------------------------

/// The shade of a square on the board; a1 is dark. It follows the square,
/// never the viewer.
pub open spec fn shade_of(at: (char, u8)) -> Shade {
    if (at.0 as int - 'a' as int + at.1) % 2 == 1 {
        Shade::Dark
    } else {
        Shade::Light
    }
}

/// The marker of a square: selected, or within reach of the selected one while
/// the game goes on.
pub open spec fn marker_of(
    status: StatusView,
    selected: Option<(char, u8)>,
    at: (char, u8),
) -> Marker {
    match selected {
        None => Marker::Unmarked,
        Some(from) => if from == at {
            Marker::Selected
        } else if status.decision is None && reaches(moves_for(status), from, at) {
            Marker::LegalTarget
        } else {
            Marker::Unmarked
        },
    }
}

/// A square as it is shown.
pub open spec fn square_at(
    status: StatusView,
    selected: Option<(char, u8)>,
    at: (char, u8),
) -> Square {
    Square {
        file: at.0,
        rank: at.1,
        shade: shade_of(at),
        piece: standing_on(chess::position_read(status.fen), at),
        marker: marker_of(status, selected, at),
    }
}

/// The `i`-th square in reading order: white reads a8 first and h1 last, black
/// the other way round.
pub open spec fn reading_order(orientation: Color, i: int) -> (char, u8) {
    match orientation {
        Color::White => (('a' as int + i % 8) as char, (8 - i / 8) as u8),
        Color::Black => (('h' as int - i % 8) as char, (1 + i / 8) as u8),
    }
}

/// The character of a file, counted from zero.
fn file_char(n: u8) -> (r: char)
    requires
        n < 8,
    ensures
        r as int == 'a' as int + n,
{
    match n {
        0 => 'a',
        1 => 'b',
        2 => 'c',
        3 => 'd',
        4 => 'e',
        5 => 'f',
        6 => 'g',
        _ => 'h',
    }
}

/// The 64 squares in reading order.
///
/// `selected` marks that square, and every square that a legal move from it
/// can reach.
pub fn squares(status: &Status, orientation: Color, selected: Option<(char, u8)>) -> (r: Vec<
    Square,
>)
    ensures
        r@ == Seq::new(
            64,
            |i: int| square_at(status@, selected, reading_order(orientation, i)),
        ),
        status_spelled_out(status@),
        forall|i: int|
            0 <= i < 64 && (#[trigger] r@[i]).marker == Marker::LegalTarget ==> is_played(
                status@,
                selected->0,
                (r@[i].file, r@[i].rank),
            ),
{
    let pos = chess::read_position(status.fen.as_str());
    let ghost position = chess::position_read(status@.fen);
    let moves: Vec<String> = match &pos {
        Some(p) => moves_in(p),
        None => Vec::new(),
    };
    assert(project::text_views(moves@) =~= moves_for(status@));
    let ghost all = Seq::new(
        64,
        |i: int| square_at(status@, selected, reading_order(orientation, i)),
    );
    let mut out: Vec<Square> = Vec::new();
    let mut i: u8 = 0;
    while i < 64
        invariant
            i <= 64,
            match pos {
                Some(p) => position == Some(chess::position_text(p)),
                None => position is None,
            },
            position == chess::position_read(status@.fen),
            project::text_views(moves@) == moves_for(status@),
            all == Seq::new(
                64,
                |i: int| square_at(status@, selected, reading_order(orientation, i)),
            ),
            out@ == all.take(i as int),
        decreases 64 - i,
    {
        let (column, rank): (u8, u8) = match orientation {
            Color::White => (i % 8, 8 - i / 8),
            Color::Black => (7 - i % 8, 1 + i / 8),
        };
        let file: char = file_char(column);
        let at = (file, rank);
        assert(at == reading_order(orientation, i as int));
        let piece = match &pos {
            Some(p) => standing(p, at),
            None => None,
        };
        let marker: Marker = match selected {
            None => Marker::Unmarked,
            Some(from) => if from.0 == at.0 && from.1 == at.1 {
                Marker::Selected
            } else if status.decision.is_none() && can_reach(&moves, from, at) {
                Marker::LegalTarget
            } else {
                Marker::Unmarked
            },
        };
        let shade: Shade = if (column + rank) % 2 == 1 {
            Shade::Dark
        } else {
            Shade::Light
        };
        let square = Square { file, rank, shade, piece, marker };
        assert(square == all[i as int]);
        out.push(square);
        assert(all.take(i + 1) =~= all.take(i as int).push(all[i as int]));
        i += 1;
    }
    assert(all.take(64) =~= all);
    proof {
        assert forall|i: int|
            0 <= i < 64 && (#[trigger] out@[i]).marker == Marker::LegalTarget implies is_played(
            status@,
            selected->0,
            (out@[i].file, out@[i].rank),
        ) by {
            a_target_can_be_played(status@, selected->0, reading_order(orientation, i));
        }
    }
    out
}

/// Each viewer sees every square exactly once, the one in the reverse order of
/// the other.
pub proof fn black_reads_the_board_backwards(i: int)
    requires
        0 <= i < 64,
    ensures
        on_board(reading_order(Color::White, i)),
        reading_order(Color::Black, i) == reading_order(Color::White, 63 - i),
{
}

/// The move would promote: a pawn of its colour reaches the last rank.
pub open spec fn promotes(status: StatusView, from: (char, u8), to: (char, u8)) -> bool {
    match standing_on(chess::position_read(status.fen), from) {
        Some((color, role)) => role == Role::Pawn && match color {
            Color::White => to.1 == 8,
            Color::Black => to.1 == 1,
        },
        None => false,
    }
}

/// Would moving from one square to the other promote a pawn?
pub fn is_promotion(status: &Status, from: (char, u8), to: (char, u8)) -> (r: bool)
    ensures
        r == promotes(status@, from, to),
{
    let pos = match chess::read_position(status.fen.as_str()) {
        Some(p) => p,
        None => return false,
    };
    match standing(&pos, from) {
        Some((color, role)) => role == Role::Pawn && match color {
            Color::White => to.1 == 8,
            Color::Black => to.1 == 1,
        },
        None => false,
    }
}

/// A move between the two squares is listed: with each of the four letters if
/// it promotes, and without one if it does not.
pub open spec fn is_played(status: StatusView, from: (char, u8), to: (char, u8)) -> bool {
    if promotes(status, from, to) {
        forall|c: char| #[trigger]
            is_letter(c) ==> project::moves_listed(status).contains(
                (name_of(from) + name_of(to)).push(c),
            )
    } else {
        project::moves_listed(status).contains(name_of(from) + name_of(to))
    }
}

/// A listed move promotes exactly if its spelling ends in a letter, whoever
/// moves.
pub proof fn a_letter_tells_a_promotion(status: StatusView, uci: Seq<char>)
    requires
        status_spelled_out(status),
        moves_for(status).contains(uci),
    ensures
        promotes(status, start_of(uci), end_of(uci)) <==> uci.len() == 5,
        target_of(uci) == Some(end_of(uci)),
        leaves(uci, start_of(uci)),
        on_board(start_of(uci)),
        on_board(end_of(uci)),
        uci.take(4) == name_of(start_of(uci)) + name_of(end_of(uci)),
{
    let pos = chess::position_read(status.fen)->0;
    let from = start_of(uci);
    let to = end_of(uci);
    assert(spells_move(pos, uci));
    assert(spelling(from) =~= seq![uci[0] as u8, uci[1] as u8]);
    assert(name_of(from) =~= uci.take(2));
    assert(name_of(from) + name_of(to) =~= uci.take(4));
}

/// A number of more than one digit takes more than one character.
proof fn long_numbers(n: nat)
    requires
        n >= 10,
    ensures
        text::decimal(n).len() >= 2,
        '0' <= text::decimal(n)[1] <= '9',
    decreases n,
{
    reveal_with_fuel(text::decimal, 2);
    if n / 10 >= 10 {
        long_numbers(n / 10);
        assert(text::decimal(n)[1] == text::decimal(n / 10)[1]);
    }
}

/// The square that a listed move begins on is the only one it leaves.
proof fn leaves_one_square(status: StatusView, uci: Seq<char>, from: (char, u8))
    requires
        status_spelled_out(status),
        moves_for(status).contains(uci),
        leaves(uci, from),
    ensures
        from == start_of(uci),
{
    let pos = chess::position_read(status.fen)->0;
    assert(spells_move(pos, uci));
    let name = name_of(from);
    assert(name == uci.take(name.len() as int));
    assert(name[0] == uci[0]);
    if from.1 >= 10 {
        long_numbers(from.1 as nat);
        assert(name[2] == text::decimal(from.1 as nat)[1]);
        assert(uci.take(name.len() as int)[2] == uci[2]);
    } else {
        assert(name[1] == text::digit(from.1 as nat));
        assert(uci.take(name.len() as int)[1] == uci[1]);
    }
}

/// What is marked as within reach can be played: the move between the two
/// squares is listed, spelled with a letter exactly if it promotes.
pub proof fn a_target_can_be_played(status: StatusView, from: (char, u8), to: (char, u8))
    requires
        status_spelled_out(status),
        marker_of(status, Some(from), to) == Marker::LegalTarget,
    ensures
        is_played(status, from, to),
{
    let moves = moves_for(status);
    let i = choose|i: int|
        0 <= i < moves.len() && leaves(#[trigger] moves[i], from) && target_of(moves[i]) == Some(
            to,
        );
    let uci = moves[i];
    assert(moves.contains(uci));
    leaves_one_square(status, uci, from);
    a_letter_tells_a_promotion(status, uci);
    if !promotes(status, from, to) {
        assert(uci.take(4) =~= uci);
    }
}

/// Every listed move can be played: with its first square selected, its last
/// one is marked as within reach.
pub proof fn a_listed_move_is_within_reach(status: StatusView, uci: Seq<char>)
    requires
        status_spelled_out(status),
        project::moves_listed(status).contains(uci),
    ensures
        marker_of(status, Some(start_of(uci)), end_of(uci)) == Marker::LegalTarget,
{
    a_letter_tells_a_promotion(status, uci);
    assert(spells_move(chess::position_read(status.fen)->0, uci));
    let i = moves_for(status).index_of(uci);
    assert(moves_for(status)[i] == uci);
}

/// The board is chequered: two squares that share an edge differ in shade, and
/// the corner on the left of White is dark.
pub proof fn the_board_is_chequered(file: char, rank: u8)
    requires
        on_board((file, rank)),
    ensures
        rank < 8 ==> shade_of((file, rank)) != shade_of((file, (rank + 1) as u8)),
        file < 'h' ==> shade_of((file, rank)) != shade_of(((file as int + 1) as char, rank)),
        shade_of(('a', 1)) == Shade::Dark,
{
    assert(97 <= file as int <= 104);
    let next = (file as int + 1) as char;
    assert(next as int == file as int + 1);
}

/// Every square of the board is read exactly once, whoever looks at it.
pub proof fn every_square_is_read_once(orientation: Color, file: char, rank: u8)
    requires
        on_board((file, rank)),
    ensures
        exists|i: int| 0 <= i < 64 && #[trigger] reading_order(orientation, i) == (file, rank),
        forall|i: int, j: int|
            0 <= i < j < 64 ==> #[trigger] reading_order(orientation, i) != #[trigger] reading_order(
                orientation,
                j,
            ),
{
    assert(97 <= file as int <= 104);
    let column = file as int - 'a' as int;
    let i = match orientation {
        Color::White => (8 - rank) * 8 + column,
        Color::Black => (rank - 1) * 8 + (7 - column),
    };
    assert(0 <= i < 64);
    assert(i / 8 == match orientation {
        Color::White => 8 - rank,
        Color::Black => rank - 1,
    });
    assert(reading_order(orientation, i) == (file, rank));
    assert forall|i: int, j: int| 0 <= i < j < 64 implies #[trigger] reading_order(orientation, i)
        != #[trigger] reading_order(orientation, j) by {
        assert(i == 8 * (i / 8) + i % 8);
        assert(j == 8 * (j / 8) + j % 8);
    }
}

/// The board is read row by row from the top, and a player has their own first
/// rank at the bottom: the ranks fall for White and rise for Black, and within a
/// row the files rise for White and fall for Black.
pub proof fn a_player_sits_at_the_bottom(i: int, j: int)
    requires
        0 <= i < j < 64,
    ensures
        i / 8 < j / 8 ==> reading_order(Color::White, i).1 > reading_order(Color::White, j).1,
        i / 8 < j / 8 ==> reading_order(Color::Black, i).1 < reading_order(Color::Black, j).1,
        i / 8 == j / 8 ==> reading_order(Color::White, i).1 == reading_order(Color::White, j).1
            && reading_order(Color::White, i).0 < reading_order(Color::White, j).0,
        i / 8 == j / 8 ==> reading_order(Color::Black, i).1 == reading_order(Color::Black, j).1
            && reading_order(Color::Black, i).0 > reading_order(Color::Black, j).0,
{
    assert(i == 8 * (i / 8) + i % 8);
    assert(j == 8 * (j / 8) + j % 8);
}

/// One square at most is marked as selected, the one that is; without one, no
/// square is marked, and once the game is over none is within reach.
pub proof fn one_square_is_selected(
    status: StatusView,
    selected: Option<(char, u8)>,
    at: (char, u8),
)
    ensures
        marker_of(status, selected, at) == Marker::Selected <==> selected == Some(at),
        selected is None ==> marker_of(status, selected, at) == Marker::Unmarked,
        status.decision is Some ==> marker_of(status, selected, at) != Marker::LegalTarget,
{
}

/// A listed move starts on a square that shows a piece of the side to move, and a
/// move that promotes starts on a pawn; a square is shown as the one it is.
pub proof fn a_listed_move_starts_on_an_own_piece(
    status: StatusView,
    selected: Option<(char, u8)>,
    uci: Seq<char>,
)
    requires
        status_spelled_out(status),
        moves_for(status).contains(uci),
    ensures
        ({
            let s = square_at(status, selected, start_of(uci));
            &&& (s.file, s.rank) == start_of(uci)
            &&& s.piece matches Some((color, role)) && color == chess::side_to_move(
                chess::position_read(status.fen)->0,
            ) && (uci.len() == 5 ==> role == Role::Pawn)
        }),
{
    a_letter_tells_a_promotion(status, uci);
    let pos = chess::position_read(status.fen)->0;
    assert(spells_move(pos, uci));
    assert(spelling(start_of(uci)) =~= seq![uci[0] as u8, uci[1] as u8]);
}

/// Only a pawn promotes, and only at one of the two edges of the board: a pawn
/// promotes on the first rank exactly if it does not on the last, on whatever file,
/// and on no rank between.
pub proof fn a_pawn_promotes_at_one_edge(
    status: StatusView,
    from: (char, u8),
    f: char,
    g: char,
    rank: u8,
)
    ensures
        (standing_on(chess::position_read(status.fen), from) matches Some((_, role)) && role
            == Role::Pawn) ==> (promotes(status, from, (f, 8)) <==> !promotes(status, from, (g, 1))),
        promotes(status, from, (f, rank)) ==> {
            &&& rank == 1 || rank == 8
            &&& standing_on(chess::position_read(status.fen), from) matches Some((_, role)) && role
                == Role::Pawn
            &&& promotes(status, from, (g, rank))
        },
{
}

} // verus!
