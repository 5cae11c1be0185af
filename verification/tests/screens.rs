//! What is printed and shown, word for word.

use adjourn::board::{squares, Marker, Role, Shade};
use adjourn::delegate_api::{EntropyQuality, GameSummary, Side};
use adjourn::output::{
    exit_code, render_game_list, render_key_list, render_reason, render_status, EXIT_OK,
    EXIT_REFUSAL, EXIT_TRANSPORT,
};
use adjourn::project::{FIFTY_MOVE_HALFMOVES, THREEFOLD};
use adjourn::screen::{
    board_class, can_claim, checksum, click, embedded_summary, glyph, history_lines,
    offers_migration, outcome, probe_lines, reason_text, side_label, spell, spell_promotion,
    square_class, status_line, Click,
};
use adjourn::session::{GameView, SessionError};
use adjourn::types::Color;
use adjourn::{make_move, project, Body, Decision, GameParams, GameState, Reason, Record};
use ed25519_dalek::SigningKey;

fn viewed(moves: &[&str], side: Side) -> GameView {
    let w = SigningKey::from_bytes(&[1u8; 32]);
    let b = SigningKey::from_bytes(&[2u8; 32]);
    let params = GameParams {
        white: w.verifying_key().to_bytes(),
        black: b.verifying_key().to_bytes(),
        nonce: [7u8; 16],
    };
    let mut state = GameState::empty();
    for (i, uci) in moves.iter().enumerate() {
        let key = if i % 2 == 0 { &w } else { &b };
        let rec = make_move(&state, &params, key, uci).expect("legal");
        assert!(state.insert_verified(&rec, &params));
    }
    let status = project(&state, &params);
    GameView {
        label: "g".into(),
        side,
        game_id: params.game_id(),
        params,
        contract: [5u8; 32],
        state,
        status,
    }
}

const SCHOLARS: &[&str] = &["e2e4", "e7e5", "f1c4", "b8c6", "d1h5", "g8f6", "h5f7"];
const SHUFFLE: &[&str] = &[
    "g1f3", "g8f6", "f3g1", "f6g8", "g1f3", "g8f6", "f3g1", "f6g8",
];

#[test]
fn a_fresh_game_is_two_lines() {
    let view = viewed(&[], Side::White);
    assert_eq!(
        render_status("casual", &view.status),
        vec![
            "casual -- ply 0, White to move",
            "fen: rnbqkbnr/pppppppp/8/8/8/8/PPPPPPPP/RNBQKBNR w KQkq - 0 1",
        ]
    );
}

#[test]
fn a_decided_game_says_how() {
    let view = viewed(SCHOLARS, Side::White);
    let lines = render_status("g", &view.status);
    assert_eq!(lines[0], "g -- ply 7, Black to move");
    assert_eq!(lines[2], "game over: White wins -- checkmate");
    assert_eq!(lines.len(), 3);
    assert_eq!(outcome(&view.status), "White wins — checkmate");
    assert_eq!(status_line(&view), "White wins — checkmate");
    let mut drawn = view.status.clone();
    drawn.decision = Some(Decision {
        winner: None,
        reason: Reason::AutomaticDraw,
    });
    assert_eq!(
        render_status("g", &drawn)[2],
        "game over: draw -- automatic draw (fivefold repetition or the 75-move rule)"
    );
    assert_eq!(outcome(&drawn), "Draw — automatic draw");
}

#[test]
fn a_repeated_position_and_a_long_quiet_are_pointed_out() {
    let view = viewed(SHUFFLE, Side::White);
    let lines = render_status("g", &view.status);
    assert_eq!(
        lines[2],
        "position repeated 3 times (claimable at 3, automatic at 5)"
    );
    let mut quiet = view.status.clone();
    quiet.halfmove_clock = 100;
    quiet.ignored = 2;
    let lines = render_status("g", &quiet);
    assert_eq!(
        lines[3],
        "100 halfmoves since a capture or pawn move (claimable at 100, automatic at 150)"
    );
    assert_eq!(
        lines[4],
        "2 record(s) in state are ignored by the projection (illegal, wrong-parent, or stale)"
    );
}

#[test]
fn every_reason_has_its_words() {
    for (reason, words) in [
        (Reason::Checkmate, "checkmate"),
        (Reason::Stalemate, "stalemate"),
        (Reason::InsufficientMaterial, "insufficient material"),
        (Reason::AutomaticDraw, "automatic draw"),
        (Reason::Resignation, "resignation"),
        (Reason::DrawAgreement, "draw agreement"),
        (Reason::DoubleSignForfeit, "double-sign forfeit"),
        (Reason::MutualResignation, "mutual resignation"),
        (Reason::ThreefoldClaim, "threefold repetition, claimed"),
        (Reason::FiftyMoveClaim, "fifty-move rule, claimed"),
    ] {
        assert_eq!(reason_text(reason), words);
        if reason != Reason::AutomaticDraw {
            assert_eq!(render_reason(reason), words);
        }
    }
}

fn summary(label: &str, game: Option<GameParams>) -> GameSummary {
    GameSummary {
        label: label.into(),
        public_key: [1u8; 32],
        game_id: game.as_ref().map(|g| g.game_id()),
        side: game.as_ref().map(|_| Side::Black),
        last_signed_ply: if game.is_some() { 12 } else { 0 },
        entropy: if game.is_some() {
            Some(EntropyQuality::Degraded)
        } else {
            None
        },
        contract: game.as_ref().map(|_| [4u8; 32]),
        params: game,
        previous: None,
    }
}

#[test]
fn keys_and_games_are_listed() {
    assert_eq!(
        render_key_list(&Vec::new()),
        vec!["no keys yet -- create one with `adjourn key new --label L`"]
    );
    let params = viewed(&[], Side::White).params;
    let games = vec![summary("free", None), summary("busy", Some(params))];
    let key = bs58::encode([1u8; 32]).into_string();
    assert_eq!(
        render_key_list(&games),
        vec![
            format!("free\t{key}\tunbound\tentropy unknown"),
            format!("busy\t{key}\tbound\tDEGRADED entropy, not securely random"),
        ]
    );
    assert_eq!(
        render_game_list(&games),
        vec![format!(
            "busy\tBlack\tcontract {}\tlast signed ply 12\tDEGRADED entropy, not securely random",
            bs58::encode([4u8; 32]).into_string()
        )]
    );
    assert_eq!(
        render_game_list(&vec![summary("free", None)]),
        vec!["no bound games yet -- bind one with `adjourn game bind`"]
    );
}

#[test]
fn the_exit_codes_differ() {
    assert_eq!(EXIT_OK, 0);
    assert_eq!(exit_code(false), EXIT_REFUSAL);
    assert_eq!(exit_code(true), EXIT_TRANSPORT);
    assert_eq!((EXIT_REFUSAL, EXIT_TRANSPORT), (1, 3));
}

#[test]
fn a_click_selects_then_plays() {
    let view = viewed(&[], Side::White);
    assert_eq!(
        click(&view, None, ('e', 2), Marker::Unmarked),
        Click::Selected(('e', 2))
    );
    let board = squares(&view.status, Color::White, Some(('e', 2)));
    let e4 = board.iter().find(|s| (s.file, s.rank) == ('e', 4)).unwrap();
    assert_eq!(
        click(&view, Some(('e', 2)), ('e', 4), e4.marker),
        Click::Play("e2e4".into())
    );
    assert_eq!(
        click(&view, Some(('e', 2)), ('e', 2), Marker::Selected),
        Click::Cleared
    );
    assert_eq!(
        click(&view, Some(('e', 2)), ('d', 2), Marker::Unmarked),
        Click::Selected(('d', 2))
    );
}

#[test]
fn a_click_out_of_turn_means_nothing() {
    let theirs = viewed(&["e2e4"], Side::White);
    assert_eq!(
        click(&theirs, None, ('d', 2), Marker::Unmarked),
        Click::Ignored
    );
    let over = viewed(SCHOLARS, Side::Black);
    assert_eq!(
        click(&over, None, ('a', 7), Marker::Unmarked),
        Click::Ignored
    );
    assert_eq!(status_line(&theirs), "waiting for your opponent · ply 1");
    assert_eq!(
        status_line(&viewed(&["e2e4"], Side::Black)),
        "your move · ply 1"
    );
}

#[test]
fn a_promotion_waits_for_a_piece() {
    let view = viewed(
        &[
            "b2b4", "a7a5", "b4a5", "b7b6", "a5b6", "h7h6", "b6b7", "h6h5",
        ],
        Side::White,
    );
    assert_eq!(
        click(&view, Some(('b', 7)), ('a', 8), Marker::LegalTarget),
        Click::Promoting {
            from: ('b', 7),
            to: ('a', 8)
        }
    );
    assert_eq!(spell(('b', 7), ('a', 8)), "b7a8");
    for (role, uci) in [
        (Role::Queen, Some("b7a8q")),
        (Role::Rook, Some("b7a8r")),
        (Role::Bishop, Some("b7a8b")),
        (Role::Knight, Some("b7a8n")),
        (Role::King, None),
        (Role::Pawn, None),
    ] {
        assert_eq!(
            spell_promotion(('b', 7), ('a', 8), role).as_deref(),
            uci
        );
    }
}

#[test]
fn squares_off_the_board_hold_nothing() {
    let view = viewed(&[], Side::White);
    for off in [('i', 1), ('a', 0), ('a', 9), ('A', 1), ('é', 1)] {
        assert!(!adjourn::board::is_promotion(&view.status, off, ('a', 8)));
        let board = squares(&view.status, Color::White, Some(off));
        assert!(board.iter().all(|s| s.marker == Marker::Unmarked));
    }
}

#[test]
fn a_status_without_a_position_shows_an_empty_board() {
    let mut status = viewed(&[], Side::White).status;
    status.fen = "no position".into();
    let board = squares(&status, Color::White, Some(('e', 2)));
    assert_eq!(board.len(), 64);
    assert!(board.iter().all(|s| s.piece.is_none()));
}

#[test]
fn a_decided_game_marks_no_targets() {
    let mut status = viewed(&[], Side::White).status;
    status.decision = Some(Decision {
        winner: Some(Color::Black),
        reason: Reason::Resignation,
    });
    let board = squares(&status, Color::White, Some(('e', 2)));
    assert!(board.iter().all(|s| s.marker != Marker::LegalTarget));
    assert_eq!(
        board
            .iter()
            .filter(|s| s.marker == Marker::Selected)
            .count(),
        1
    );
}

#[test]
fn every_piece_stands_where_it_starts() {
    let status = viewed(&[], Side::White).status;
    let board = squares(&status, Color::White, None);
    let back: Vec<Role> = board[56..].iter().map(|s| s.piece.unwrap().1).collect();
    assert_eq!(
        back,
        vec![
            Role::Rook,
            Role::Knight,
            Role::Bishop,
            Role::Queen,
            Role::King,
            Role::Bishop,
            Role::Knight,
            Role::Rook
        ]
    );
    assert!(board[8..16]
        .iter()
        .all(|s| s.piece == Some((Color::Black, Role::Pawn))));
    assert!(board[16..48].iter().all(|s| s.piece.is_none()));
}

#[test]
fn a_draw_is_claimed_on_either_ground_and_in_turn() {
    let mut view = viewed(SHUFFLE, Side::White);
    assert_eq!(view.status.repetitions, THREEFOLD);
    assert!(can_claim(&view));
    view.side = Side::Black;
    assert!(!can_claim(&view), "white is to move");
    view.side = Side::White;
    view.status.repetitions = 2;
    assert!(!can_claim(&view));
    view.status.halfmove_clock = FIFTY_MOVE_HALFMOVES;
    assert!(can_claim(&view));
    view.status.decision = Some(Decision {
        winner: None,
        reason: Reason::DrawAgreement,
    });
    assert!(!can_claim(&view));
}

#[test]
fn every_piece_has_a_glyph_of_its_own() {
    let glyphs = [
        glyph(Role::King),
        glyph(Role::Queen),
        glyph(Role::Rook),
        glyph(Role::Bishop),
        glyph(Role::Knight),
        glyph(Role::Pawn),
    ];
    assert_eq!(glyphs.concat(), "\u{265A}\u{265B}\u{265C}\u{265D}\u{265E}\u{265F}");
}

#[test]
fn only_the_game_that_is_stuck_is_offered_a_migration() {
    let error = SessionError::BoundMismatch {
        label: "g1".into(),
        derived: [1u8; 32],
        recorded: [2u8; 32],
    }
    .message();
    assert!(offers_migration(&error, "g1"));
    assert!(!offers_migration(&error, "g2"));
    assert!(!offers_migration("it is not your turn", "g1"));
    let offer = SessionError::OfferMismatch {
        derived: [1u8; 32],
        offered: [2u8; 32],
    }
    .message();
    assert!(offer.starts_with("build mismatch: this build derives contract "));
    assert!(!offers_migration(&offer, "g1"));
}

#[test]
fn ignored_records_are_counted_in_the_status() {
    let mut view = viewed(&["e2e4"], Side::White);
    let b = SigningKey::from_bytes(&[2u8; 32]);
    let junk = Record::sign(
        &b,
        &view.params,
        Body::Move {
            ply: 2,
            parent: [9u8; 32],
            uci: "e7e5".into(),
        },
    );
    view.state.insert_verified(&junk, &view.params);
    let status = project(&view.state, &view.params);
    assert_eq!(status.ignored, 1);
}

#[test]
fn squares_and_boards_have_their_styles() {
    assert_eq!(square_class(Shade::Light, Marker::Unmarked), "sq light");
    assert_eq!(square_class(Shade::Dark, Marker::Unmarked), "sq dark");
    assert_eq!(square_class(Shade::Dark, Marker::Selected), "sq selected");
    assert_eq!(square_class(Shade::Light, Marker::LegalTarget), "sq target");
    assert_eq!(board_class(&viewed(&[], Side::White)), "board");
    assert_eq!(board_class(&viewed(&[], Side::Black)), "board inactive");
    assert_eq!(board_class(&viewed(SCHOLARS, Side::Black)), "board inactive");
    assert_eq!(side_label(Some(Side::White)), "White");
    assert_eq!(side_label(None), "unbound");
}

#[test]
fn the_history_is_numbered() {
    assert_eq!(
        history_lines(&viewed(&["e2e4", "e7e5", "g1f3"], Side::White)),
        vec!["1. e2e4", "2. e7e5", "3. g1f3"]
    );
}

#[test]
fn the_embedded_modules_are_summed_up() {
    assert_eq!(checksum(&[]), 0);
    assert_eq!(checksum(&[1, 2]), 33);
    let long = vec![255u8; 100];
    let sum = long
        .iter()
        .fold(0u32, |acc, b| acc.wrapping_mul(31).wrapping_add(*b as u32));
    assert_eq!(checksum(&long), sum);
    assert_eq!(
        embedded_summary(&[1, 2], &long),
        format!("embedded: contract 2 B (sum 00000021) · delegate 100 B (sum {sum:08x})")
    );
}

#[test]
fn a_probe_lists_what_it_found() {
    let params = viewed(&[], Side::White).params;
    assert_eq!(
        probe_lines(&vec![summary("free", None), summary("busy", Some(params))]),
        vec![
            "ListGames returned 2 game(s)",
            "  free · None · last signed ply 0",
            "  busy · Some(Black) · last signed ply 12",
        ]
    );
}
