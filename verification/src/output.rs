//! What the command line prints, line by line, and the exit codes.

use vstd::prelude::*;
use crate::delegate_api;
use crate::delegate_api::{EntropyQuality, GameSummary, GameSummaryView, Side};
use crate::invite;
use crate::invite::to_base58;
use crate::project;
use crate::project::{Decision, Reason, Status, StatusView};
use crate::screen;
use crate::screen::reason_text;
use crate::text;
use crate::text::{decimal_text, join2, join3, join5};
use crate::types::Color;

verus! {

pub const EXIT_OK: u8 = 0;

/// A refusal, or a condition that was not met.
pub const EXIT_REFUSAL: u8 = 1;

/// The node could not be reached, or did not answer.
pub const EXIT_TRANSPORT: u8 = 3;

/// The exit code of a command that failed.
pub fn exit_code(transport: bool) -> (r: u8)
    ensures
        transport ==> r == EXIT_TRANSPORT,
        !transport ==> r == EXIT_REFUSAL,
{
    if transport {
        EXIT_TRANSPORT
    } else {
        EXIT_REFUSAL
    }
}

// ---------------------------------------------------------------------------
// Where a game stands.
// ---------------------------------------------------------------------------

/// How a game ended.
pub open spec fn reason_rendered(reason: Reason) -> Seq<char> {
    match reason {
        Reason::AutomaticDraw => "automatic draw (fivefold repetition or the 75-move rule)"@,
        _ => screen::reason_words(reason),
    }
}

/// How a game ended.
pub fn render_reason(reason: Reason) -> (r: &'static str)
    ensures
        r@ == reason_rendered(reason),
{
    match reason {
        Reason::AutomaticDraw => "automatic draw (fivefold repetition or the 75-move rule)",
        _ => reason_text(reason),
    }
}

/// The name of a side.
pub open spec fn color_words(c: Color) -> Seq<char> {
    Side::of(c).text()
}

/// The line on the result of a game.
pub open spec fn result_line(d: Decision) -> Seq<char> {
    "game over: "@ + (match d.winner {
        Some(c) => color_words(c) + " wins"@,
        None => "draw"@,
    }) + " -- "@ + reason_rendered(d.reason)
}

fn write_result(d: Decision) -> (r: String)
    ensures
        r@ == result_line(d),
{
    let who: String = match d.winner {
        Some(c) => join2(Side::from(c).name(), " wins"),
        None => "draw".to_owned(),
    };
    let start = join3("game over: ", who.as_str(), " -- ");
    join2(start.as_str(), render_reason(d.reason))
}

/// The first line on a game.
pub open spec fn head_line(label: Seq<char>, status: StatusView) -> Seq<char> {
    label + " -- ply "@ + text::decimal(status.ply as nat) + ", "@ + color_words(status.turn)
        + " to move"@
}

/// The line on a repeated position.
pub open spec fn repetition_line(status: StatusView) -> Seq<char> {
    "position repeated "@ + text::decimal(status.repetitions)
        + " times (claimable at 3, automatic at 5)"@
}

/// The line on the halfmove clock.
pub open spec fn clock_line(status: StatusView) -> Seq<char> {
    text::decimal(status.halfmove_clock as nat)
        + " halfmoves since a capture or pawn move (claimable at 100, automatic at 150)"@
}

/// The line on moves that are not in the chain.
pub open spec fn ignored_line(status: StatusView) -> Seq<char> {
    text::decimal(status.ignored)
        + " record(s) in state are ignored by the projection (illegal, wrong-parent, or stale)"@
}

/// A line, where there is reason for it.
pub open spec fn line_if(reason: bool, line: Seq<char>) -> Seq<Seq<char>> {
    if reason {
        seq![line]
    } else {
        Seq::empty()
    }
}

/// The lines on a game: the ply and the turn, the position, and then whatever
/// else there is to say.
pub open spec fn status_rendered(label: Seq<char>, status: StatusView) -> Seq<Seq<char>> {
    seq![head_line(label, status), "fen: "@ + status.fen] + line_if(
        status.decision is Some,
        result_line(status.decision->0),
    ) + line_if(status.repetitions >= project::THREEFOLD, repetition_line(status)) + line_if(
        status.halfmove_clock >= project::FIFTY_MOVE_HALFMOVES,
        clock_line(status),
    ) + line_if(status.ignored > 0, ignored_line(status))
}

/// Add a line.
fn push_line(out: &mut Vec<String>, line: String)
    ensures
        project::text_views(final(out)@) == project::text_views(old(out)@).push(line@),
{
    out.push(line);
    assert(project::text_views(out@) =~= project::text_views(old(out)@).push(line@));
}

/// The lines on a game.
pub fn render_status(label: &str, status: &Status) -> (r: Vec<String>)
    ensures
        project::text_views(r@) == status_rendered(label@, status@),
{
    let mut out: Vec<String> = Vec::new();
    let start = join5(
        label,
        " -- ply ",
        decimal_text(status.ply as u64).as_str(),
        ", ",
        Side::from(status.turn).name(),
    );
    push_line(&mut out, join2(start.as_str(), " to move"));
    push_line(&mut out, join2("fen: ", status.fen.as_str()));
    if let Some(d) = status.decision {
        push_line(&mut out, write_result(d));
    }
    if status.repetitions >= project::THREEFOLD {
        push_line(
            &mut out,
            join3(
                "position repeated ",
                decimal_text(status.repetitions as u64).as_str(),
                " times (claimable at 3, automatic at 5)",
            ),
        );
    }
    if status.halfmove_clock >= project::FIFTY_MOVE_HALFMOVES {
        push_line(
            &mut out,
            join2(
                decimal_text(status.halfmove_clock as u64).as_str(),
                " halfmoves since a capture or pawn move (claimable at 100, automatic at 150)",
            ),
        );
    }
    if status.ignored > 0 {
        push_line(
            &mut out,
            join2(
                decimal_text(status.ignored as u64).as_str(),
                " record(s) in state are ignored by the projection (illegal, wrong-parent, or stale)",
            ),
        );
    }
    assert(project::text_views(out@) =~= status_rendered(label@, status@));
    out
}

// ---------------------------------------------------------------------------
// Keys and games.
// ---------------------------------------------------------------------------

/// How a key was generated.
pub open spec fn entropy_words(entropy: Option<EntropyQuality>) -> Seq<char> {
    match entropy {
        Some(EntropyQuality::HostBacked) => "host-backed entropy"@,
        Some(EntropyQuality::Degraded) => "DEGRADED entropy, not securely random"@,
        None => "entropy unknown"@,
    }
}

fn entropy_text(entropy: Option<EntropyQuality>) -> (r: &'static str)
    ensures
        r@ == entropy_words(entropy),
{
    match entropy {
        Some(EntropyQuality::HostBacked) => "host-backed entropy",
        Some(EntropyQuality::Degraded) => "DEGRADED entropy, not securely random",
        None => "entropy unknown",
    }
}

/// The line on a key.
pub open spec fn key_line(g: GameSummaryView) -> Seq<char> {
    g.label + "\t"@ + invite::base58(g.public_key) + "\t"@ + (if g.game_id is Some {
        "bound"@
    } else {
        "unbound"@
    }) + "\t"@ + entropy_words(g.entropy)
}

fn write_key(g: &GameSummary) -> (r: String)
    ensures
        r@ == key_line(g@),
{
    let bound: &str = if g.game_id.is_some() {
        "bound"
    } else {
        "unbound"
    };
    let start = join5(
        g.label.as_str(),
        "\t",
        to_base58(g.public_key.as_slice()).as_str(),
        "\t",
        bound,
    );
    join3(start.as_str(), "\t", entropy_text(g.entropy))
}

/// The lines on every key there is.
pub open spec fn keys_rendered(games: Seq<GameSummaryView>) -> Seq<Seq<char>> {
    if games.len() == 0 {
        seq!["no keys yet -- create one with `adjourn key new --label L`"@]
    } else {
        games.map_values(|g: GameSummaryView| key_line(g))
    }
}

/// The lines on every key there is, bound or not.
pub fn render_key_list(games: &Vec<GameSummary>) -> (r: Vec<String>)
    ensures
        project::text_views(r@) == keys_rendered(delegate_api::summary_views(games@)),
{
    let ghost all = delegate_api::summary_views(games@);
    let mut out: Vec<String> = Vec::new();
    if games.len() == 0 {
        push_line(
            &mut out,
            "no keys yet -- create one with `adjourn key new --label L`".to_owned(),
        );
        assert(project::text_views(out@) =~= keys_rendered(all));
        return out;
    }
    let mut i: usize = 0;
    while i < games.len()
        invariant
            i <= games.len(),
            all == delegate_api::summary_views(games@),
            project::text_views(out@) == all.take(i as int).map_values(
                |g: GameSummaryView| key_line(g),
            ),
        decreases games.len() - i,
    {
        push_line(&mut out, write_key(&games[i]));
        assert(all.take(i + 1).map_values(|g: GameSummaryView| key_line(g)) =~= all.take(
            i as int,
        ).map_values(|g: GameSummaryView| key_line(g)).push(key_line(all[i as int])));
        i += 1;
    }
    assert(all.take(i as int) =~= all);
    out
}

/// The line on a bound game.
pub open spec fn game_line(g: GameSummaryView) -> Seq<char> {
    g.label + "\t"@ + (match g.side {
        Some(s) => s.text(),
        None => "?"@,
    }) + "\tcontract "@ + (match g.contract {
        Some(c) => invite::base58(c),
        None => ""@,
    }) + "\tlast signed ply "@ + text::decimal(g.last_signed_ply as nat) + "\t"@ + entropy_words(
        g.entropy,
    )
}

fn write_game(g: &GameSummary) -> (r: String)
    ensures
        r@ == game_line(g@),
{
    let side: &str = match g.side {
        Some(s) => s.name(),
        None => "?",
    };
    let contract: String = match &g.contract {
        Some(c) => to_base58(c.as_slice()),
        None => "".to_owned(),
    };
    let start = join5(g.label.as_str(), "\t", side, "\tcontract ", contract.as_str());
    join5(
        start.as_str(),
        "\tlast signed ply ",
        decimal_text(g.last_signed_ply as u64).as_str(),
        "\t",
        entropy_text(g.entropy),
    )
}

/// The lines on the games that are bound, in the order of the list.
pub open spec fn game_lines(games: Seq<GameSummaryView>) -> Seq<Seq<char>>
    decreases games.len(),
{
    if games.len() == 0 {
        Seq::empty()
    } else if games.last().game_id is Some {
        game_lines(games.drop_last()).push(game_line(games.last()))
    } else {
        game_lines(games.drop_last())
    }
}

/// The lines on the games that are bound.
pub open spec fn games_rendered(games: Seq<GameSummaryView>) -> Seq<Seq<char>> {
    if game_lines(games).len() == 0 {
        seq!["no bound games yet -- bind one with `adjourn game bind`"@]
    } else {
        game_lines(games)
    }
}

/// The lines on the games that are bound.
pub fn render_game_list(games: &Vec<GameSummary>) -> (r: Vec<String>)
    ensures
        project::text_views(r@) == games_rendered(delegate_api::summary_views(games@)),
{
    let ghost all = delegate_api::summary_views(games@);
    let mut out: Vec<String> = Vec::new();
    let mut i: usize = 0;
    assert(project::text_views(out@) =~= game_lines(all.take(0)));
    while i < games.len()
        invariant
            i <= games.len(),
            all == delegate_api::summary_views(games@),
            project::text_views(out@) == game_lines(all.take(i as int)),
        decreases games.len() - i,
    {
        assert(all.take(i + 1).drop_last() =~= all.take(i as int));
        assert(all.take(i + 1).last() == games@[i as int]@);
        if games[i].game_id.is_some() {
            push_line(&mut out, write_game(&games[i]));
        }
        i += 1;
    }
    assert(all.take(i as int) =~= all);
    assert(project::text_views(out@).len() == out@.len());
    if out.len() == 0 {
        push_line(&mut out, "no bound games yet -- bind one with `adjourn game bind`".to_owned());
        assert(project::text_views(out@) =~= games_rendered(all));
    }
    out
}

// ---------------------------------------------------------------------------
// Laws.
// ---------------------------------------------------------------------------

/// Every game that is bound has a line of its own, in the order they are listed
/// in, and no other has one.
pub proof fn every_bound_game_has_a_line(games: Seq<GameSummaryView>)
    ensures
        game_lines(games) == games.filter(|g: GameSummaryView| g.game_id is Some).map_values(
            |g: GameSummaryView| game_line(g),
        ),
    decreases games.len(),
{
    reveal(Seq::filter);
    let bound = |g: GameSummaryView| g.game_id is Some;
    let line = |g: GameSummaryView| game_line(g);
    if games.len() > 0 {
        every_bound_game_has_a_line(games.drop_last());
        let front = games.drop_last().filter(bound);
        if bound(games.last()) {
            assert(games.filter(bound) == front.push(games.last()));
            assert(front.push(games.last()).map_values(line) =~= front.map_values(line).push(
                line(games.last()),
            ));
        } else {
            assert(games.filter(bound) == front);
        }
    } else {
        assert(games.filter(bound).map_values(line) =~= Seq::empty());
    }
}

/// A draw that could be claimed is told of, whoever is to move, and so is a
/// result; a game that is neither decided nor near a draw, with no record passed
/// over, takes two lines.
pub proof fn what_matters_is_told(label: Seq<char>, status: StatusView)
    ensures
        ({
            let lines = status_rendered(label, status);
            &&& status.repetitions >= 3 ==> lines.contains(repetition_line(status))
            &&& status.halfmove_clock >= 100 ==> lines.contains(clock_line(status))
            &&& status.ignored > 0 ==> lines.contains(ignored_line(status))
            &&& status.decision matches Some(d) ==> lines.contains(result_line(d))
            &&& lines.len() == 2 <==> status.decision is None && status.repetitions < 3
                && status.halfmove_clock < 100 && status.ignored == 0
        }),
{
    let lines = status_rendered(label, status);
    let a: int = if status.decision is Some {
        1
    } else {
        0
    };
    let b: int = if status.repetitions >= 3 {
        1
    } else {
        0
    };
    let c: int = if status.halfmove_clock >= 100 {
        1
    } else {
        0
    };
    if status.decision is Some {
        assert(lines[2] == result_line(status.decision->0));
    }
    if status.repetitions >= 3 {
        assert(lines[2 + a] == repetition_line(status));
    }
    if status.halfmove_clock >= 100 {
        assert(lines[2 + a + b] == clock_line(status));
    }
    if status.ignored > 0 {
        assert(lines[2 + a + b + c] == ignored_line(status));
    }
}

/// A key is said to be bound exactly if it has a line among the games.
pub proof fn a_bound_key_is_a_game(g: GameSummaryView)
    ensures
        game_lines(seq![g]).len() == 1 <==> g.game_id is Some,
        games_rendered(seq![g]).len() == 1,
        keys_rendered(seq![g]) == seq![key_line(g)],
{
    let one = seq![g];
    assert(one.drop_last() =~= Seq::empty());
    assert(game_lines(one.drop_last()) =~= Seq::empty());
    assert(keys_rendered(one) =~= seq![key_line(g)]);
}

/// The three things that can be known of a key's randomness are told apart.
pub proof fn entropy_is_told_apart(a: Option<EntropyQuality>, b: Option<EntropyQuality>)
    ensures
        entropy_words(a) == entropy_words(b) ==> a == b,
{
    reveal_strlit("host-backed entropy");
    reveal_strlit("DEGRADED entropy, not securely random");
    reveal_strlit("entropy unknown");
    assert("host-backed entropy"@[0] == 'h');
    assert("DEGRADED entropy, not securely random"@[0] == 'D');
    assert("entropy unknown"@[0] == 'e');
}

/// The first line says whose move it is, and at which ply the game stands.
pub proof fn the_first_line_says_whose_move_it_is(label: Seq<char>, status: StatusView)
    ensures
        ({
            let line = status_rendered(label, status)[0];
            let end = ", "@ + Side::of(status.turn).text() + " to move"@;
            let start = label + " -- ply "@;
            &&& line.len() >= end.len() && line.skip(line.len() - end.len()) == end
            &&& start.is_prefix_of(line)
            &&& 0 <= status.ply ==> text::number_in(
                line.subrange(start.len() as int, line.len() - end.len()),
            ) == status.ply
        }),
{
    let line = status_rendered(label, status)[0];
    let end = ", "@ + Side::of(status.turn).text() + " to move"@;
    let start = label + " -- ply "@;
    let number = text::decimal(status.ply as nat);
    assert(line =~= start + number + end);
    assert(line.skip(line.len() - end.len()) =~= end);
    assert(line.subrange(0, start.len() as int) =~= start);
    assert(line.subrange(start.len() as int, line.len() - end.len()) =~= number);
    if 0 <= status.ply {
        text::a_number_reads_back(status.ply as nat);
    }
}

/// The line of a key begins with its label, and says whether a game is bound to
/// it.
pub proof fn a_key_is_said_to_be_bound(g: GameSummaryView)
    ensures
        g.label.is_prefix_of(key_line(g)),
        g.game_id is Some ==> text::occurs_in(key_line(g), "\t"@ + "bound"@ + "\t"@),
        g.game_id is None ==> text::occurs_in(key_line(g), "\t"@ + "unbound"@ + "\t"@),
        g.label.is_prefix_of(game_line(g)),
{
    let line = key_line(g);
    assert(line.subrange(0, g.label.len() as int) =~= g.label);
    let at = (g.label + "\t"@ + invite::base58(g.public_key)).len() as int;
    let part = if g.game_id is Some {
        "\t"@ + "bound"@ + "\t"@
    } else {
        "\t"@ + "unbound"@ + "\t"@
    };
    assert(line.subrange(at, at + part.len()) =~= part);
    assert(text::occurs_at(line, part, at));
    let game = game_line(g);
    assert(game.subrange(0, g.label.len() as int) =~= g.label);
}

} // verus!
