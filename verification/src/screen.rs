//! What the screens of a game show, and what a click on its board means.

use vstd::prelude::*;
use crate::board;
use crate::board::{is_promotion, Marker, Role, Shade};
use crate::delegate_api;
use crate::delegate_api::{GameSummary, GameSummaryView, Side};
use crate::project;
use crate::project::{Decision, Reason, Status};
use crate::session;
use crate::session::{moves_in_order, GameView, Scene, SessionErrorView};
use crate::text;
use crate::text::{contains_text, decimal_text, hex_text, join2, join3};
use crate::types::Color;

verus! {

// ---------------------------------------------------------------------------
// Clicks.
// ---------------------------------------------------------------------------

/// `String::from` a character: the text of that one character.
#[verifier::external_body]
fn char_text(c: char) -> (r: String)
    ensures
        r@ == seq![c],
{
    String::from(c)
}

/// The UCI notation of a move between two squares.
pub open spec fn spelled(from: (char, u8), to: (char, u8)) -> Seq<char> {
    board::name_of(from) + board::name_of(to)
}

/// The UCI notation of a move between two squares.
pub fn spell(from: (char, u8), to: (char, u8)) -> (r: String)
    ensures
        r@ == spelled(from, to),
{
    let start = join2(char_text(from.0).as_str(), decimal_text(from.1 as u64).as_str());
    let end = join2(char_text(to.0).as_str(), decimal_text(to.1 as u64).as_str());
    join2(start.as_str(), end.as_str())
}

/// The letter of the piece that a pawn becomes; nothing where it cannot.
pub open spec fn promotion_letter(role: Role) -> Option<char> {
    match role {
        Role::Queen => Some('q'),
        Role::Rook => Some('r'),
        Role::Bishop => Some('b'),
        Role::Knight => Some('n'),
        _ => None,
    }
}

/// The UCI notation of a promotion; `None` where a pawn cannot become that
/// piece.
pub fn spell_promotion(from: (char, u8), to: (char, u8), role: Role) -> (r: Option<String>)
    ensures
        match r {
            Some(t) => promotion_letter(role) is Some && t@ == spelled(from, to).push(
                promotion_letter(role)->0,
            ),
            None => promotion_letter(role) is None,
        },
{
    let letter: char = match role {
        Role::Queen => 'q',
        Role::Rook => 'r',
        Role::Bishop => 'b',
        Role::Knight => 'n',
        _ => return None,
    };
    let r = join2(spell(from, to).as_str(), char_text(letter).as_str());
    assert(r@ =~= spelled(from, to).push(letter));
    Some(r)
}

/// It is the turn of the player who looks at the game.
pub open spec fn is_our_turn(scene: Scene) -> bool {
    session::color_of_side(scene.side) == scene.status.turn
}

/// Whether it is the turn of the player who looks at the game.
pub fn our_turn(view: &GameView) -> (r: bool)
    ensures
        r == is_our_turn(view@),
{
    Color::from(view.side) == view.status.turn
}

/// The value of a [`Click`].
#[verifier::ext_equal]
pub enum ClickView {
    Ignored,
    Selected((char, u8)),
    Cleared,
    Promoting { from: (char, u8), to: (char, u8) },
    Play(Seq<char>),
}

/// What a click on a square means.
#[derive(Debug, PartialEq, Eq)]
pub enum Click {
    /// Nothing.
    Ignored,
    /// The square is selected.
    Selected((char, u8)),
    /// No square is selected any more.
    Cleared,
    /// The move is held until the player has picked a piece.
    Promoting { from: (char, u8), to: (char, u8) },
    /// The move is played.
    Play(String),
}

impl View for Click {
    type V = ClickView;

    open spec fn view(&self) -> ClickView {
        match self {
            Click::Ignored => ClickView::Ignored,
            Click::Selected(at) => ClickView::Selected(*at),
            Click::Cleared => ClickView::Cleared,
            Click::Promoting { from, to } => ClickView::Promoting { from: *from, to: *to },
            Click::Play(uci) => ClickView::Play(uci@),
        }
    }
}

/// What a click on a square means, while `selected` is selected and the square
/// bears `marker`.
pub open spec fn clicked(
    scene: Scene,
    selected: Option<(char, u8)>,
    here: (char, u8),
    marker: Marker,
) -> ClickView {
    if scene.status.decision is Some || !is_our_turn(scene) {
        ClickView::Ignored
    } else {
        match selected {
            Some(from) => if marker == Marker::LegalTarget {
                if board::promotes(scene.status, from, here) {
                    ClickView::Promoting { from, to: here }
                } else {
                    ClickView::Play(spelled(from, here))
                }
            } else if from == here {
                ClickView::Cleared
            } else {
                ClickView::Selected(here)
            },
            None => ClickView::Selected(here),
        }
    }
}

/// What a click on a square means. Once the game is over, and while it is the
/// opponent's turn, it means nothing: no move would be accepted.
pub fn click(
    view: &GameView,
    selected: Option<(char, u8)>,
    here: (char, u8),
    marker: Marker,
) -> (r: Click)
    ensures
        r@ == clicked(view@, selected, here, marker),
{
    if view.status.is_over() || !our_turn(view) {
        return Click::Ignored;
    }
    match selected {
        Some(from) => if marker == Marker::LegalTarget {
            if is_promotion(&view.status, from, here) {
                Click::Promoting { from, to: here }
            } else {
                Click::Play(spell(from, here))
            }
        } else if from.0 == here.0 && from.1 == here.1 {
            Click::Cleared
        } else {
            Click::Selected(here)
        },
        None => Click::Selected(here),
    }
}

/// Clicking on what is marked as within reach, in turn, plays a listed move, or
/// asks for a piece where any of the four makes a listed move of it.
pub proof fn a_click_within_reach_plays_a_listed_move(
    scene: Scene,
    from: (char, u8),
    here: (char, u8),
)
    requires
        board::status_spelled_out(scene.status),
        is_our_turn(scene),
        board::marker_of(scene.status, Some(from), here) == Marker::LegalTarget,
    ensures
        match clicked(scene, Some(from), here, Marker::LegalTarget) {
            ClickView::Play(uci) => project::moves_listed(scene.status).contains(uci),
            ClickView::Promoting { from: f, to: t } => {
                &&& f == from
                &&& t == here
                &&& forall|role: Role|
                    #![trigger promotion_letter(role)]
                    promotion_letter(role) matches Some(c) ==> project::moves_listed(
                        scene.status,
                    ).contains(spelled(f, t).push(c))
            },
            _ => false,
        },
{
    board::a_target_can_be_played(scene.status, from, here);
    assert forall|role: Role|
        #![trigger promotion_letter(role)]
        board::promotes(scene.status, from, here) implies (promotion_letter(role) matches Some(c)
        ==> project::moves_listed(scene.status).contains(spelled(from, here).push(c))) by {
        match promotion_letter(role) {
            Some(c) => {
                assert(board::is_letter(c));
            },
            None => {},
        }
    }
}

/// Every listed move can be made by clicking, in turn: on its first square, then
/// on its last one, which plays it, or asks for the piece that its letter names.
pub proof fn every_listed_move_can_be_clicked(scene: Scene, uci: Seq<char>)
    requires
        board::status_spelled_out(scene.status),
        is_our_turn(scene),
        project::moves_listed(scene.status).contains(uci),
    ensures
        ({
            let from = board::start_of(uci);
            let here = board::end_of(uci);
            &&& clicked(scene, None, from, Marker::Unmarked) == ClickView::Selected(from)
            &&& match clicked(
                scene,
                Some(from),
                here,
                board::marker_of(scene.status, Some(from), here),
            ) {
                ClickView::Play(played) => played == uci,
                ClickView::Promoting { from: f, to: t } => exists|role: Role| #[trigger]
                    promotion_letter(role) is Some && uci == spelled(f, t).push(
                        promotion_letter(role)->0,
                    ),
                _ => false,
            }
        }),
{
    let pos = crate::chess::position_read(scene.status.fen)->0;
    board::a_listed_move_is_within_reach(scene.status, uci);
    board::a_letter_tells_a_promotion(scene.status, uci);
    assert(board::spells_move(pos, uci));
    if uci.len() == 5 {
        assert(uci =~= uci.take(4).push(uci[4]));
        let role = if uci[4] == 'q' {
            Role::Queen
        } else if uci[4] == 'r' {
            Role::Rook
        } else if uci[4] == 'b' {
            Role::Bishop
        } else {
            Role::Knight
        };
        assert(promotion_letter(role) == Some(uci[4]));
    } else {
        assert(uci =~= uci.take(4));
    }
}

/// A draw can be claimed: in turn, while the game goes on, on one of the two
/// grounds.
pub open spec fn claimable(scene: Scene) -> bool {
    scene.status.decision is None && is_our_turn(scene) && (scene.status.repetitions
        >= project::THREEFOLD || scene.status.halfmove_clock >= project::FIFTY_MOVE_HALFMOVES)
}

/// Whether a draw can be claimed.
pub fn can_claim(view: &GameView) -> (r: bool)
    ensures
        r == claimable(view@),
{
    !view.status.is_over() && our_turn(view) && (view.status.repetitions >= project::THREEFOLD
        || view.status.halfmove_clock >= project::FIFTY_MOVE_HALFMOVES)
}

/// A draw is offered to be claimed exactly where a claim would be signed.
pub proof fn a_claim_is_shown_where_it_is_made(scene: Scene)
    ensures
        claimable(scene) <==> session::planned_claim(scene) is Ok,
{
}

// ---------------------------------------------------------------------------
// Words.
// ---------------------------------------------------------------------------

/// How a game ended, in a few words.
pub open spec fn reason_words(reason: Reason) -> Seq<char> {
    match reason {
        Reason::Checkmate => "checkmate"@,
        Reason::Stalemate => "stalemate"@,
        Reason::InsufficientMaterial => "insufficient material"@,
        Reason::AutomaticDraw => "automatic draw"@,
        Reason::Resignation => "resignation"@,
        Reason::DrawAgreement => "draw agreement"@,
        Reason::DoubleSignForfeit => "double-sign forfeit"@,
        Reason::MutualResignation => "mutual resignation"@,
        Reason::ThreefoldClaim => "threefold repetition, claimed"@,
        Reason::FiftyMoveClaim => "fifty-move rule, claimed"@,
    }
}

/// How a game ended, in a few words.
pub fn reason_text(reason: Reason) -> (r: &'static str)
    ensures
        r@ == reason_words(reason),
{
    match reason {
        Reason::Checkmate => "checkmate",
        Reason::Stalemate => "stalemate",
        Reason::InsufficientMaterial => "insufficient material",
        Reason::AutomaticDraw => "automatic draw",
        Reason::Resignation => "resignation",
        Reason::DrawAgreement => "draw agreement",
        Reason::DoubleSignForfeit => "double-sign forfeit",
        Reason::MutualResignation => "mutual resignation",
        Reason::ThreefoldClaim => "threefold repetition, claimed",
        Reason::FiftyMoveClaim => "fifty-move rule, claimed",
    }
}

/// The result of a game in words; nothing while it goes on.
pub open spec fn outcome_words(decision: Option<Decision>) -> Seq<char> {
    match decision {
        None => ""@,
        Some(d) => (match d.winner {
            Some(Color::White) => "White wins"@,
            Some(Color::Black) => "Black wins"@,
            None => "Draw"@,
        }) + " — "@ + reason_words(d.reason),
    }
}

/// The result of a game in words; nothing while it goes on.
pub fn outcome(status: &Status) -> (r: String)
    ensures
        r@ == outcome_words(status@.decision),
{
    match status.decision {
        None => "".to_owned(),
        Some(d) => {
            let who: &str = match d.winner {
                Some(Color::White) => "White wins",
                Some(Color::Black) => "Black wins",
                None => "Draw",
            };
            join3(who, " — ", reason_text(d.reason))
        },
    }
}

/// The line under the board.
pub open spec fn status_words(scene: Scene) -> Seq<char> {
    if scene.status.decision is Some {
        outcome_words(scene.status.decision)
    } else if is_our_turn(scene) {
        "your move · ply "@ + text::decimal(scene.status.ply as nat)
    } else {
        "waiting for your opponent · ply "@ + text::decimal(scene.status.ply as nat)
    }
}

/// The line under the board.
pub fn status_line(view: &GameView) -> (r: String)
    ensures
        r@ == status_words(view@),
{
    if view.status.is_over() {
        outcome(&view.status)
    } else if our_turn(view) {
        join2("your move · ply ", decimal_text(view.status.ply as u64).as_str())
    } else {
        join2("waiting for your opponent · ply ", decimal_text(view.status.ply as u64).as_str())
    }
}

/// The glyph of a piece. The colour is not part of it, so that both sides have
/// the same visual weight.
pub open spec fn glyph_of(role: Role) -> Seq<char> {
    match role {
        Role::King => "♚"@,
        Role::Queen => "♛"@,
        Role::Rook => "♜"@,
        Role::Bishop => "♝"@,
        Role::Knight => "♞"@,
        Role::Pawn => "♟"@,
    }
}

/// The glyph of a piece.
pub fn glyph(role: Role) -> (r: &'static str)
    ensures
        r@ == glyph_of(role),
{
    match role {
        Role::King => "♚",
        Role::Queen => "♛",
        Role::Rook => "♜",
        Role::Bishop => "♝",
        Role::Knight => "♞",
        Role::Pawn => "♟",
    }
}

/// The style of a square.
pub open spec fn square_style(shade: Shade, marker: Marker) -> Seq<char> {
    match (shade, marker) {
        (_, Marker::Selected) => "sq selected"@,
        (_, Marker::LegalTarget) => "sq target"@,
        (Shade::Light, _) => "sq light"@,
        (Shade::Dark, _) => "sq dark"@,
    }
}

/// The style of a square.
pub fn square_class(shade: Shade, marker: Marker) -> (r: &'static str)
    ensures
        r@ == square_style(shade, marker),
{
    match (shade, marker) {
        (_, Marker::Selected) => "sq selected",
        (_, Marker::LegalTarget) => "sq target",
        (Shade::Light, _) => "sq light",
        (Shade::Dark, _) => "sq dark",
    }
}

/// The style of the board: it is active where a click on it could mean
/// something.
pub open spec fn board_style(scene: Scene) -> Seq<char> {
    if scene.status.decision is Some || !is_our_turn(scene) {
        "board inactive"@
    } else {
        "board"@
    }
}

/// The style of the board.
pub fn board_class(view: &GameView) -> (r: &'static str)
    ensures
        r@ == board_style(view@),
{
    if view.status.is_over() || !our_turn(view) {
        "board inactive"
    } else {
        "board"
    }
}

/// A move in the history, under its number.
pub open spec fn numbered(i: int, uci: Seq<char>) -> Seq<char> {
    text::decimal((i + 1) as nat) + ". "@ + uci
}

/// The moves of a game, numbered from one.
pub fn history_lines(view: &GameView) -> (r: Vec<String>)
    ensures
        project::text_views(r@) == session::moves_along(view@.status.chain, view@.state).map(
            |i: int, uci: Seq<char>| numbered(i, uci),
        ),
{
    let moves = moves_in_order(view);
    let ghost all = project::text_views(moves@);
    let mut out: Vec<String> = Vec::new();
    let mut i: usize = 0;
    while i < moves.len()
        invariant
            i <= moves.len(),
            all == project::text_views(moves@),
            out@.len() == i,
            forall|j: int| 0 <= j < i ==> #[trigger] out@[j]@ == numbered(j, all[j]),
        decreases moves.len() - i,
    {
        let number = decimal_text(i as u64 + 1);
        out.push(join3(number.as_str(), ". ", moves[i].as_str()));
        i += 1;
    }
    assert(project::text_views(out@) =~= all.map(|i: int, uci: Seq<char>| numbered(i, uci)));
    out
}

/// The side in a list of games.
pub open spec fn side_in_list(side: Option<Side>) -> Seq<char> {
    match side {
        Some(s) => s.text(),
        None => "unbound"@,
    }
}

/// The side in a list of games.
pub fn side_label(side: Option<Side>) -> (r: &'static str)
    ensures
        r@ == side_in_list(side),
{
    match side {
        Some(s) => s.name(),
        None => "unbound",
    }
}

/// An error says that a game is bound to another build's contract, and how to
/// migrate it.
pub open spec fn tells_to_migrate(error: Seq<char>, label: Seq<char>) -> bool {
    text::occurs_in(error, "build mismatch"@) && text::occurs_in(error, "--label "@ + label)
}

/// Whether an error says that this game is to be migrated.
pub fn offers_migration(error: &str, label: &str) -> (r: bool)
    ensures
        r == tells_to_migrate(error@, label@),
{
    contains_text(error, "build mismatch") && contains_text(
        error,
        join2("--label ", label).as_str(),
    )
}

/// A game that cannot be opened because another build bound it is one that the
/// screen offers to migrate.
pub proof fn a_mismatch_offers_the_migration(label: Seq<char>, derived: Seq<u8>, recorded: Seq<u8>)
    ensures
        tells_to_migrate(
            (SessionErrorView::BoundMismatch { label, derived, recorded }).sentence(),
            label,
        ),
{
    let e = SessionErrorView::BoundMismatch { label, derived, recorded };
    let whole = e.sentence();
    let first = "build mismatch: this build derives contract "@;
    let fifth =
        ". Rebuild with the same adjourn-contract version used when this game was bound, or run `adjourn game migrate --label "@;
    let lead = first + crate::invite::base58(derived)
        + " from the bound params, but the delegate recorded "@ + crate::invite::base58(recorded)
        + fifth;
    reveal_strlit("build mismatch: this build derives contract ");
    reveal_strlit("build mismatch");
    reveal_strlit("--label ");
    reveal_strlit(
        ". Rebuild with the same adjourn-contract version used when this game was bound, or run `adjourn game migrate --label ",
    );
    assert(whole.subrange(0, 14) =~= "build mismatch"@) by {
        assert(first.subrange(0, 14) =~= "build mismatch"@);
        assert(whole.subrange(0, 14) =~= first.subrange(0, 14));
    }
    assert(text::occurs_at(whole, "build mismatch"@, 0));
    let at = lead.len() - 8;
    let part = "--label "@ + label;
    assert(fifth.subrange(fifth.len() - 8, fifth.len() as int) =~= "--label "@);
    assert(whole.subrange(at, at + part.len()) =~= fifth.subrange(
        fifth.len() - 8,
        fifth.len() as int,
    ) + label);
    assert(text::occurs_at(whole, part, at));
}

// ---------------------------------------------------------------------------
// The page that tries a connection out.
// ---------------------------------------------------------------------------

/// A number that changes with every byte of a module.
pub open spec fn sum_of(bytes: Seq<u8>) -> u32
    decreases bytes.len(),
{
    if bytes.len() == 0 {
        0
    } else {
        ((sum_of(bytes.drop_last()) * 31 + bytes.last()) % 0x1_0000_0000) as u32
    }
}

/// A number that changes with every byte of a module, modulo a power of two.
pub fn checksum(bytes: &[u8]) -> (r: u32)
    ensures
        r == sum_of(bytes@),
{
    let mut sum: u32 = 0;
    let mut i: usize = 0;
    assert(bytes@.take(0) =~= Seq::empty());
    while i < bytes.len()
        invariant
            i <= bytes.len(),
            sum == sum_of(bytes@.take(i as int)),
        decreases bytes.len() - i,
    {
        assert(bytes@.take(i + 1).drop_last() =~= bytes@.take(i as int));
        let wide: u64 = sum as u64 * 31 + bytes[i] as u64;
        sum = (wide % 0x1_0000_0000) as u32;
        i += 1;
    }
    assert(bytes@.take(i as int) =~= bytes@);
    sum
}

/// What is said of an embedded module: how long it is, and its sum.
pub open spec fn module_words(bytes: Seq<u8>) -> Seq<char> {
    text::decimal(bytes.len()) + " B (sum "@ + text::hexadecimal(sum_of(bytes) as nat, 8) + ")"@
}

fn write_module(bytes: &[u8]) -> (r: String)
    ensures
        r@ == module_words(bytes@),
{
    let start = join2(decimal_text(bytes.len() as u64).as_str(), " B (sum ");
    join3(start.as_str(), hex_text(checksum(bytes), 8).as_str(), ")")
}

/// What is said of the two embedded modules.
pub fn embedded_summary(contract: &[u8], delegate: &[u8]) -> (r: String)
    ensures
        r@ == "embedded: contract "@ + module_words(contract@) + " · delegate "@ + module_words(
            delegate@,
        ),
{
    let start = join3("embedded: contract ", write_module(contract).as_str(), " · delegate ");
    join2(start.as_str(), write_module(delegate).as_str())
}

/// The line on a label in the answer to the first question.
pub open spec fn probe_line(g: GameSummaryView) -> Seq<char> {
    "  "@ + g.label + " · "@ + (match g.side {
        Some(s) => "Some("@ + s.text() + ")"@,
        None => "None"@,
    }) + " · last signed ply "@ + text::decimal(g.last_signed_ply as nat)
}

fn write_probe(g: &GameSummary) -> (r: String)
    ensures
        r@ == probe_line(g@),
{
    let side: String = match g.side {
        Some(s) => join3("Some(", s.name(), ")"),
        None => "None".to_owned(),
    };
    let start = join3("  ", g.label.as_str(), " · ");
    let ply = decimal_text(g.last_signed_ply as u64);
    join3(
        join2(start.as_str(), side.as_str()).as_str(),
        " · last signed ply ",
        ply.as_str(),
    )
}

/// The lines on the answer to the first question.
pub fn probe_lines(games: &Vec<GameSummary>) -> (r: Vec<String>)
    ensures
        project::text_views(r@) == seq![
            "ListGames returned "@ + text::decimal(games@.len()) + " game(s)"@,
        ] + delegate_api::summary_views(games@).map_values(|g: GameSummaryView| probe_line(g)),
{
    let ghost all = delegate_api::summary_views(games@);
    let mut out: Vec<String> = Vec::new();
    let count = decimal_text(games.len() as u64);
    out.push(join3("ListGames returned ", count.as_str(), " game(s)"));
    let ghost head = out@[0]@;
    let mut i: usize = 0;
    while i < games.len()
        invariant
            i <= games.len(),
            all == delegate_api::summary_views(games@),
            out@.len() == i + 1,
            out@[0]@ == head,
            forall|j: int| 0 <= j < i ==> (#[trigger] out@[j + 1])@ == probe_line(all[j]),
        decreases games.len() - i,
    {
        out.push(write_probe(&games[i]));
        i += 1;
    }
    assert(project::text_views(out@) =~= seq![head] + all.map_values(
        |g: GameSummaryView| probe_line(g),
    )) by {
        assert forall|j: int| 1 <= j < out@.len() implies #[trigger] out@[j]@ == probe_line(
            all[j - 1],
        ) by {
            assert(out@[(j - 1) + 1]@ == probe_line(all[j - 1]));
        }
    }
    out
}

/// A click counts for something exactly where a move could be planned: while the
/// game is undecided and it is our turn. The board looks alive exactly then, and
/// we are told it is our move exactly then.
pub proof fn clicks_count_only_in_turn(
    scene: Scene,
    selected: Option<(char, u8)>,
    here: (char, u8),
    marker: Marker,
    uci: Seq<char>,
)
    ensures
        clicked(scene, selected, here, marker) is Ignored <==> scene.status.decision is Some
            || session::color_of_side(scene.side) != scene.status.turn,
        session::planned_move(scene, uci) is Ok ==> !(clicked(scene, selected, here, marker)
            is Ignored),
        board_style(scene) == "board"@ <==> !(clicked(scene, selected, here, marker) is Ignored),
        scene.status.decision is None ==> ("your move"@.is_prefix_of(status_words(scene)) <==> !(
        clicked(scene, selected, here, marker) is Ignored)),
{
    reveal_strlit("board");
    reveal_strlit("board inactive");
    reveal_strlit("your move");
    reveal_strlit("your move · ply ");
    reveal_strlit("waiting for your opponent · ply ");
    assert("board"@.len() == 5);
    assert("board inactive"@.len() == 14);
    let words = status_words(scene);
    if scene.status.decision is None {
        if is_our_turn(scene) {
            assert(words.subrange(0, 9) =~= "your move"@);
        } else {
            assert(words[0] == 'w');
            assert("your move"@[0] == 'y');
        }
    }
}

/// A square is selected by the first click on it and let go by the second; a
/// click on another that is not within reach selects that one instead.
pub proof fn a_second_click_lets_go(
    scene: Scene,
    here: (char, u8),
    there: (char, u8),
    marker: Marker,
)
    requires
        scene.status.decision is None,
        is_our_turn(scene),
        here != there,
        board::marker_of(scene.status, Some(here), there) != Marker::LegalTarget,
    ensures
        clicked(scene, None, here, marker) == ClickView::Selected(here),
        clicked(scene, Some(here), here, board::marker_of(scene.status, Some(here), here))
            == ClickView::Cleared,
        clicked(scene, Some(here), there, board::marker_of(scene.status, Some(here), there))
            == ClickView::Selected(there),
{
}

/// A pawn is promoted to a queen, a rook, a bishop or a knight, each by its own
/// letter, and never to a pawn or a king.
pub proof fn a_promotion_has_four_choices(a: Role, b: Role)
    ensures
        promotion_letter(a) is None <==> a == Role::Pawn || a == Role::King,
        a != b && promotion_letter(a) is Some ==> promotion_letter(a) != promotion_letter(b),
        promotion_letter(a) matches Some(c) ==> board::is_letter(c),
{
}

/// Each piece has a glyph of its own, and each reason for the end of a game
/// words of its own.
pub proof fn no_two_look_the_same(a: Role, b: Role, x: Reason, y: Reason)
    ensures
        glyph_of(a) == glyph_of(b) ==> a == b,
        reason_words(x) == reason_words(y) ==> x == y,
{
    reveal_strlit("♚");
    reveal_strlit("♛");
    reveal_strlit("♜");
    reveal_strlit("♝");
    reveal_strlit("♞");
    reveal_strlit("♟");
    assert(glyph_of(a).len() == 1 && glyph_of(b).len() == 1);
    assert(a != b ==> glyph_of(a)[0] != glyph_of(b)[0]);
    reveal_strlit("checkmate");
    reveal_strlit("stalemate");
    reveal_strlit("insufficient material");
    reveal_strlit("automatic draw");
    reveal_strlit("resignation");
    reveal_strlit("draw agreement");
    reveal_strlit("double-sign forfeit");
    reveal_strlit("mutual resignation");
    reveal_strlit("threefold repetition, claimed");
    reveal_strlit("fifty-move rule, claimed");
    assert(x != y ==> reason_words(x).len() != reason_words(y).len() || reason_words(x)[0]
        != reason_words(y)[0]);
}

/// A marked square looks the same on both shades, an unmarked one does not, and
/// the two marks can be told apart.
pub proof fn marks_can_be_told_apart(marker: Marker)
    ensures
        square_style(Shade::Light, marker) == square_style(Shade::Dark, marker) <==> marker
            != Marker::Unmarked,
        square_style(Shade::Light, Marker::Selected) != square_style(
            Shade::Light,
            Marker::LegalTarget,
        ),
        marker != Marker::Unmarked ==> square_style(Shade::Light, marker) != square_style(
            Shade::Light,
            Marker::Unmarked,
        ) && square_style(Shade::Dark, marker) != square_style(Shade::Dark, Marker::Unmarked),
{
    reveal_strlit("sq selected");
    reveal_strlit("sq target");
    reveal_strlit("sq light");
    reveal_strlit("sq dark");
    assert("sq selected"@.len() == 11);
    assert("sq target"@.len() == 9);
    assert("sq light"@.len() == 8);
    assert("sq dark"@.len() == 7);
}

/// The words for a result name the winner, and call a game without one a draw;
/// the line on the command line names the same one.
pub proof fn a_result_names_the_winner(d: Decision)
    ensures
        d.winner matches Some(c) ==> (Side::of(c).text() + " wins"@).is_prefix_of(
            outcome_words(Some(d)),
        ) && ("game over: "@ + (Side::of(c).text() + " wins"@)).is_prefix_of(
            crate::output::result_line(d),
        ),
        d.winner is None ==> "Draw"@.is_prefix_of(outcome_words(Some(d))) && ("game over: "@
            + "draw"@).is_prefix_of(crate::output::result_line(d)),
{
    reveal_strlit("White wins");
    reveal_strlit("Black wins");
    reveal_strlit("White");
    reveal_strlit("Black");
    reveal_strlit(" wins");
    reveal_strlit("Draw");
    let words = outcome_words(Some(d));
    let line = crate::output::result_line(d);
    match d.winner {
        Some(c) => {
            let name = Side::of(c).text() + " wins"@;
            match c {
                Color::White => assert(name =~= "White wins"@),
                Color::Black => assert(name =~= "Black wins"@),
            }
            assert(words.subrange(0, name.len() as int) =~= name);
            let long = "game over: "@ + name;
            assert(line.subrange(0, long.len() as int) =~= long);
        },
        None => {
            assert(words.subrange(0, 4) =~= "Draw"@);
            let long = "game over: "@ + "draw"@;
            assert(line.subrange(0, long.len() as int) =~= long);
        },
    }
}

/// The sum of a module tells two modules apart that differ in the last byte.
pub proof fn the_sum_tells_the_last_byte(bytes: Seq<u8>, a: u8, b: u8)
    requires
        a != b,
    ensures
        sum_of(bytes.push(a)) != sum_of(bytes.push(b)),
{
    assert(bytes.push(a).drop_last() =~= bytes);
    assert(bytes.push(b).drop_last() =~= bytes);
}

/// A migration is not offered for what a migration would not mend.
pub proof fn other_errors_offer_no_migration(label: Seq<char>)
    ensures
        !tells_to_migrate(SessionErrorView::GameOver.sentence(), label),
        !tells_to_migrate(SessionErrorView::NotYourTurn.sentence(), label),
        !tells_to_migrate(SessionErrorView::OutOfStep.sentence(), label),
{
    reveal_strlit("the game is already over");
    reveal_strlit("it is not your turn");
    reveal_strlit("an answer arrived out of step");
    holds_no_b("the game is already over"@);
    holds_no_b("it is not your turn"@);
    holds_no_b("an answer arrived out of step"@);
}

proof fn holds_no_b(words: Seq<char>)
    requires
        forall|i: int| 0 <= i < words.len() ==> #[trigger] words[i] != 'b',
    ensures
        !text::occurs_in(words, "build mismatch"@),
{
    reveal_strlit("build mismatch");
    let part = "build mismatch"@;
    assert(part.len() == 14 && part[0] == 'b');
    assert forall|i: int| !text::occurs_at(words, part, i) by {
        if text::occurs_at(words, part, i) {
            assert(words.subrange(i, i + 14)[0] == words[i]);
        }
    }
}

/// The moves of a game are numbered from one, each before its text.
pub proof fn moves_are_numbered_from_one(i: int, uci: Seq<char>)
    requires
        0 <= i,
    ensures
        ({
            let line = numbered(i, uci);
            let number = line.take(line.len() - uci.len() - 2);
            &&& line.skip(line.len() - uci.len()) == uci
            &&& text::number_in(number) == i + 1
        }),
{
    reveal_strlit(". ");
    let line = numbered(i, uci);
    assert(". "@.len() == 2);
    assert(line.skip(line.len() - uci.len()) =~= uci);
    assert(line.take(line.len() - uci.len() - 2) =~= text::decimal((i + 1) as nat));
    text::a_number_reads_back((i + 1) as nat);
}

} // verus!
