//! Attacks on convergence and on the projection, and the edges of chess.

use adjourn::types::{signing_payload, Color, MAX_PLY};
use adjourn::{
    legal_moves, make_move, project, Body, Decision, GameParams, GameState, Reason, Record,
    RecordId,
};
use ed25519_dalek::hazmat::{raw_sign, ExpandedSecretKey};
use ed25519_dalek::SigningKey;
use sha2::Sha512;

fn keys() -> (SigningKey, SigningKey, GameParams) {
    let w = SigningKey::from_bytes(&[1u8; 32]);
    let b = SigningKey::from_bytes(&[2u8; 32]);
    let params = GameParams {
        white: w.verifying_key().to_bytes(),
        black: b.verifying_key().to_bytes(),
        nonce: [7u8; 16],
    };
    (w, b, params)
}

fn play(moves: &[&str]) -> (GameState, GameParams, SigningKey, SigningKey) {
    let (w, b, params) = keys();
    let mut state = GameState::empty();
    for (i, uci) in moves.iter().enumerate() {
        let key = if i % 2 == 0 { &w } else { &b };
        let rec = make_move(&state, &params, key, uci)
            .unwrap_or_else(|| panic!("move {} ({}) rejected", i + 1, uci));
        assert!(state.insert_verified(&rec, &params));
    }
    (state, params, w, b)
}

const SCHOLARS: &[&str] = &["e2e4", "e7e5", "f1c4", "b8c6", "d1h5", "g8f6", "h5f7"];

fn poison(rec: &Record) -> Record {
    Record {
        body: rec.body.clone(),
        signer: rec.signer,
        sig: vec![0u8; 64],
    }
}

fn raw_state(records: &[Record]) -> GameState {
    let mut s = GameState::empty();
    for r in records {
        s.absorb_for_test(r);
    }
    s
}

#[test]
fn forged_signature_cannot_evict_the_valid_record() {
    let (state, params, _, _) = play(&["e2e4"]);
    let good = state.records.values()[0].clone();
    let bad = poison(&good);
    assert_eq!(good.id(), bad.id(), "poison must collide by id");
    assert!(good.verify(&params) && !bad.verify(&params));
    assert!(bad.sig < good.sig, "poison must win a naive byte tiebreak");

    let mut a = state.clone();
    a.apply_delta(&vec![bad.clone()], &params);

    let mut b_incoming = GameState::empty();
    b_incoming.absorb_for_test(&bad);
    let mut b = state.clone();
    b.merge(&b_incoming, &params);

    assert_eq!(a, state, "delta path admitted a forgery");
    assert_eq!(b, state, "merge path admitted a forgery");
    assert!(a.all_valid(&params) && b.all_valid(&params));
}

#[test]
fn merge_and_filter_commute() {
    let (state, params, w, _) = play(&["e2e4"]);
    let good = state.records.values()[0].clone();

    let mut spam = Vec::new();
    for i in 0..6u64 {
        let mut parent = [0u8; 32];
        parent[..8].copy_from_slice(&i.to_le_bytes());
        spam.push(Record::sign(
            &w,
            &params,
            Body::Move {
                ply: 5,
                parent,
                uci: "g1f3".into(),
            },
        ));
    }

    let mut attacker = GameState::empty();
    attacker.absorb_for_test(&poison(&good));
    for r in &spam[..3] {
        attacker.absorb_for_test(r);
    }

    let mut honest = state.clone();
    for r in &spam[3..] {
        honest.absorb_for_test(r);
    }

    let filter_then_merge = attacker
        .filter_valid(&params)
        .merged(&honest.filter_valid(&params), &params);
    let merge_then_filter = attacker.merged(&honest, &params).filter_valid(&params);

    assert_eq!(filter_then_merge, merge_then_filter);
    assert_eq!(
        filter_then_merge.len(),
        3,
        "the ply-1 move plus top-K=2 of the ply-5 spam group survive"
    );
}

#[test]
fn superset_reverses_the_outcome_and_rewinds_the_board() {
    let (state, params, w, _) = play(SCHOLARS);
    let before = project(&state, &params);
    assert_eq!(before.ply, 7);
    assert_eq!(before.decision.unwrap().winner, Some(Color::White));

    let fork = Record::sign(
        &w,
        &params,
        Body::Move {
            ply: 3,
            parent: before.chain[1],
            uci: "g1f3".into(),
        },
    );
    let mut bigger = state.clone();
    assert!(bigger.insert_verified(&fork, &params));

    let after = project(&bigger, &params);
    assert_eq!(after.decision.unwrap().reason, Reason::DoubleSignForfeit);
    assert_eq!(after.decision.unwrap().winner, Some(Color::Black));
    assert_eq!(after.ply, 2, "chain truncated to the fork point");
    assert_ne!(after.fen, before.fen, "reported position rewound");
}

#[test]
fn resignation_outranks_a_later_board_result() {
    let (state, params, w, _) = play(SCHOLARS);
    assert_eq!(
        project(&state, &params).decision.unwrap().reason,
        Reason::Checkmate,
        "precondition: this line is mate for White"
    );

    let mut s = state.clone();
    assert!(s.insert_verified(&Record::sign(&w, &params, Body::Resign), &params));

    let d = project(&s, &params).decision.unwrap();
    assert_eq!(d.reason, Reason::Resignation);
    assert_eq!(d.winner, Some(Color::Black), "White resigned; White loses");
}

#[test]
fn stale_draw_offer_is_ignored() {
    let (state, params, w, b) = play(&["e2e4", "e7e5", "g1f3", "b8c6", "f1c4", "g8f6"]);
    let chain = project(&state, &params).chain;

    let offer = Record::sign(
        &b,
        &params,
        Body::DrawOffer {
            ply: 2,
            at: chain[1],
        },
    );
    let accept = Record::sign(
        &w,
        &params,
        Body::DrawAccept {
            ply: 2,
            offer: offer.id(),
        },
    );

    let mut s = state.clone();
    assert!(s.insert_verified(&offer, &params));
    assert!(s.insert_verified(&accept, &params));

    let st = project(&s, &params);
    assert_eq!(st.ply, 6, "game is four plies past the offer");
    assert_eq!(
        st.decision, None,
        "an offer from ply 2 must not bind at ply 6"
    );
}

#[test]
fn draw_offer_at_the_current_head_is_accepted() {
    let (state, params, w, b) = play(&["e2e4", "e7e5", "g1f3", "b8c6", "f1c4", "g8f6"]);
    let chain_len = project(&state, &params).chain.len() as u16;
    let head = *project(&state, &params).chain.last().unwrap();

    let offer = Record::sign(
        &b,
        &params,
        Body::DrawOffer {
            ply: chain_len,
            at: head,
        },
    );
    let accept = Record::sign(
        &w,
        &params,
        Body::DrawAccept {
            ply: chain_len,
            offer: offer.id(),
        },
    );

    let mut s = state.clone();
    assert!(s.insert_verified(&offer, &params));
    assert!(s.insert_verified(&accept, &params));

    assert_eq!(
        project(&s, &params).decision.unwrap().reason,
        Reason::DrawAgreement
    );
}

#[test]
fn accepting_and_then_moving_voids_your_own_acceptance() {
    let (state, params, w, b) = play(&["e2e4", "e7e5", "g1f3", "b8c6", "f1c4", "g8f6"]);
    let chain_len = project(&state, &params).chain.len() as u16;
    let head = *project(&state, &params).chain.last().unwrap();

    let offer = Record::sign(
        &b,
        &params,
        Body::DrawOffer {
            ply: chain_len,
            at: head,
        },
    );
    let accept = Record::sign(
        &w,
        &params,
        Body::DrawAccept {
            ply: chain_len,
            offer: offer.id(),
        },
    );

    let mut s = state.clone();
    assert!(s.insert_verified(&offer, &params));
    assert!(s.insert_verified(&accept, &params));
    assert_eq!(
        project(&s, &params).decision.unwrap().reason,
        Reason::DrawAgreement,
        "precondition: the offer is live and accepted"
    );
    assert!(
        make_move(&s, &params, &w, "c4f7").is_none(),
        "an honest client must not be able to renege"
    );

    let reneged = Record::sign(
        &w,
        &params,
        Body::Move {
            ply: 7,
            parent: head,
            uci: "c4f7".into(),
        },
    );
    assert!(s.insert_verified(&reneged, &params));

    let st = project(&s, &params);
    assert_eq!(st.ply, 7);
    assert_eq!(st.decision, None, "the move supersedes the acceptance");
}

const PROMO_LINE: &[&str] = &[
    "e2e4", "d7d5", "e4d5", "c7c6", "d5c6", "g8f6", "c6b7", "e7e6",
];

#[test]
fn queen_promotion_and_underpromotion_round_trip() {
    let (state, params, w, _) = play(PROMO_LINE);
    for uci in ["b7a8q", "b7a8n", "b7c8q", "b7c8r"] {
        let rec = make_move(&state, &params, &w, uci)
            .unwrap_or_else(|| panic!("promotion {uci} rejected"));
        let mut s = state.clone();
        assert!(s.insert_verified(&rec, &params));
        assert_eq!(
            project(&s, &params).ply,
            9,
            "promotion {uci} did not project"
        );
    }
    let moves = legal_moves(&state, &params);
    assert!(moves.contains(&"b7a8q".to_string()));
    assert!(moves.contains(&"b7a8n".to_string()));
}

#[test]
fn promotion_without_a_piece_suffix_is_rejected() {
    let (state, params, w, _) = play(PROMO_LINE);
    assert!(make_move(&state, &params, &w, "b7a8").is_none());
}

const CASTLE_LINE: &[&str] = &["e2e4", "e7e5", "g1f3", "b8c6", "f1c4", "f8c5"];

#[test]
fn kingside_castling_uses_king_target_notation() {
    let (state, params, w, _) = play(CASTLE_LINE);
    let moves = legal_moves(&state, &params);
    assert!(
        moves.contains(&"e1g1".to_string()),
        "expected e1g1, got {moves:?}"
    );

    let rec = make_move(&state, &params, &w, "e1g1").expect("castling rejected");
    let mut s = state.clone();
    assert!(s.insert_verified(&rec, &params));
    assert!(
        project(&s, &params).fen.contains("RK1"),
        "rook did not move: {}",
        project(&s, &params).fen
    );
}

#[test]
fn make_move_canonicalises_castling_notation() {
    let (state, params, w, _) = play(CASTLE_LINE);
    let king_target = make_move(&state, &params, &w, "e1g1").expect("e1g1");
    let rook_target = make_move(&state, &params, &w, "e1h1").expect("e1h1");

    assert_eq!(
        king_target.id(),
        rook_target.id(),
        "the two spellings must produce one record"
    );
    assert!(
        matches!(&king_target.body, Body::Move { uci, .. } if uci == "e1g1"),
        "canonical form should be the king-target spelling"
    );
}

#[test]
fn two_spellings_of_one_castling_move_now_forfeit() {
    let (state, params, w, _) = play(CASTLE_LINE);
    let head = *project(&state, &params).chain.last().unwrap();

    let mut s = state.clone();
    for uci in ["e1g1", "e1h1"] {
        let rec = Record::sign(
            &w,
            &params,
            Body::Move {
                ply: 7,
                parent: head,
                uci: uci.into(),
            },
        );
        assert!(s.insert_verified(&rec, &params));
    }
    assert_eq!(s.len(), state.len() + 2, "two distinct bodies are in state");

    let st = project(&s, &params);
    assert_eq!(
        st.decision.map(|d| d.reason),
        Some(Reason::DoubleSignForfeit),
        "two Move records at one ply forfeit, whatever they spell"
    );
    assert_eq!(
        st.decision.and_then(|d| d.winner),
        Some(Color::Black),
        "the signer forfeits, so their opponent wins"
    );
    assert_eq!(st.ply, 6, "the chain stops one ply short of the fraud");
}

#[test]
fn en_passant_capture_projects() {
    let (state, params, _, _) = play(&["e2e4", "a7a6", "e4e5", "d7d5", "e5d6"]);
    let st = project(&state, &params);
    assert_eq!(st.ply, 5);
    assert!(
        st.fen.starts_with("rnbqkbnr/1pp1pppp/p2P4"),
        "en passant capture wrong: {}",
        st.fen
    );
}

fn shuffle(cycles: usize) -> Vec<&'static str> {
    let mut line = Vec::new();
    for _ in 0..cycles {
        line.extend_from_slice(&["g1f3", "b8c6", "f3g1", "c6b8"]);
    }
    line
}

#[test]
fn fivefold_repetition_draws_automatically() {
    let (state, params, _, _) = play(&shuffle(3));
    let st = project(&state, &params);
    assert_eq!(st.ply, 12);
    assert_eq!(st.repetitions, 4, "start position seen four times");
    assert_eq!(st.decision, None, "four occurrences is not yet five");

    let (state, params, _, _) = play(&shuffle(4));
    let st = project(&state, &params);
    assert_eq!(st.ply, 16);
    assert_eq!(st.repetitions, 5);
    assert_eq!(
        st.decision,
        Some(Decision {
            winner: None,
            reason: Reason::AutomaticDraw
        })
    );
}

#[test]
fn moves_after_an_automatic_draw_are_ignored() {
    let (state, params, w, _) = play(&shuffle(4));
    let head = *project(&state, &params).chain.last().unwrap();

    let after = Record::sign(
        &w,
        &params,
        Body::Move {
            ply: 17,
            parent: head,
            uci: "g1f3".into(),
        },
    );
    let mut s = state.clone();
    assert!(s.insert_verified(&after, &params));

    let st = project(&s, &params);
    assert_eq!(st.ply, 16, "the chain must not extend past the draw");
    assert_eq!(st.decision.unwrap().reason, Reason::AutomaticDraw);
}

#[test]
fn threefold_repetition_is_reported_but_not_forced() {
    let (state, params, _, _) = play(&shuffle(2));
    let st = project(&state, &params);
    assert_eq!(st.repetitions, 3);
    assert_eq!(
        st.decision, None,
        "threefold must not end the game by itself"
    );
}

#[test]
fn halfmove_clock_tracks_quiet_and_resetting_moves() {
    let (state, params, _, _) = play(&["g1f3", "b8c6"]);
    assert_eq!(
        project(&state, &params).halfmove_clock,
        2,
        "two quiet moves"
    );

    let (state, params, _, _) = play(&["e2e4", "e7e5", "g1f3"]);
    assert_eq!(
        project(&state, &params).halfmove_clock,
        1,
        "pawn moves reset the clock"
    );
}

#[test]
fn two_valid_signatures_on_one_body_converge_in_one_round() {
    let (w, _b, params) = keys();
    let body = Body::Move {
        ply: 1,
        parent: params.genesis(),
        uci: "e2e4".into(),
    };
    let payload = signing_payload(&params.game_id(), &body);

    let canonical = Record::sign(&w, &params, body.clone());

    let mut esk = ExpandedSecretKey::from(&w.to_bytes());
    esk.hash_prefix[0] ^= 0x01;
    let alt_sig = raw_sign::<Sha512>(&esk, &payload, &w.verifying_key());
    let alt = Record {
        body,
        signer: w.verifying_key().to_bytes(),
        sig: alt_sig.to_bytes().to_vec(),
    };

    assert!(alt.verify(&params), "second signature must also be valid");
    assert_ne!(canonical.sig, alt.sig, "signatures must differ");
    assert_eq!(canonical.id(), alt.id(), "same statement, same id");

    let mut a = GameState::empty();
    assert!(a.insert_verified(&canonical, &params));
    let mut b = GameState::empty();
    assert!(b.insert_verified(&alt, &params));

    assert!(
        a.all_valid(&params) && b.all_valid(&params),
        "both are valid"
    );
    assert_ne!(
        a.summarize(),
        b.summarize(),
        "the summary must distinguish two signatures over one body"
    );

    let to_b = a.delta_against(&b.summarize());
    let to_a = b.delta_against(&a.summarize());
    assert!(!to_b.is_empty() && !to_a.is_empty(), "neither side offered");
    a.apply_delta(&to_a, &params);
    b.apply_delta(&to_b, &params);

    assert_eq!(a, b, "peers did not converge");
    assert_eq!(a.encode(), b.encode(), "encodings differ after convergence");
    assert_eq!(a.len(), 1, "the two records must collapse to one slot");

    assert!(a.delta_against(&b.summarize()).is_empty());
    assert!(b.delta_against(&a.summarize()).is_empty());
}

#[test]
fn property_1_sync_soundness_holds_on_a_signature_collision() {
    let (w, _b, params) = keys();
    let body = Body::Move {
        ply: 1,
        parent: params.genesis(),
        uci: "e2e4".into(),
    };
    let payload = signing_payload(&params.game_id(), &body);

    let canonical = Record::sign(&w, &params, body.clone());
    let mut esk = ExpandedSecretKey::from(&w.to_bytes());
    esk.hash_prefix[0] ^= 0x01;
    let alt = Record {
        body,
        signer: w.verifying_key().to_bytes(),
        sig: raw_sign::<Sha512>(&esk, &payload, &w.verifying_key())
            .to_bytes()
            .to_vec(),
    };

    let (lo, hi) = if canonical.sig < alt.sig {
        (canonical, alt)
    } else {
        (alt, canonical)
    };
    let mut a = GameState::empty();
    assert!(a.insert_verified(&lo, &params));
    let mut b = GameState::empty();
    assert!(b.insert_verified(&hi, &params));

    let delta = a.delta_against(&b.summarize());
    let mut b_after = b.clone();
    b_after.apply_delta(&delta, &params);

    assert_eq!(
        b_after.merged(&a, &params),
        b_after,
        "the delta did not dominate the join"
    );
}

#[test]
fn a_record_beyond_max_ply_is_not_valid() {
    let (w, _b, params) = keys();
    let ok = Record::sign(
        &w,
        &params,
        Body::Move {
            ply: MAX_PLY,
            parent: params.genesis(),
            uci: "e2e4".into(),
        },
    );
    assert!(
        ok.verify(&params),
        "a record at exactly MAX_PLY must stay valid"
    );

    let too_far = Record::sign(
        &w,
        &params,
        Body::Move {
            ply: MAX_PLY + 1,
            parent: params.genesis(),
            uci: "e2e4".into(),
        },
    );
    assert!(
        !too_far.verify(&params),
        "ply > MAX_PLY must be structurally invalid"
    );

    let mut state = GameState::empty();
    state.insert_verified(&too_far, &params);
    assert!(
        state.is_empty(),
        "an over-MAX_PLY record must never enter state"
    );
}

#[test]
fn the_ply_cap_applies_to_draw_records_too() {
    let (w, _b, params) = keys();
    let rec = Record::sign(
        &w,
        &params,
        Body::DrawOffer {
            ply: MAX_PLY + 1,
            at: params.genesis(),
        },
    );
    assert!(
        !rec.verify(&params),
        "draw records carry a ply and are capped too"
    );
}

#[test]
fn resign_has_no_ply_and_one_possible_id() {
    let (w, _b, params) = keys();
    let a = Record::sign(&w, &params, Body::Resign);
    let b = Record::sign(&w, &params, Body::Resign);
    assert_eq!(
        a.body.ply(),
        None,
        "Resign is a unit variant: no ply to group on"
    );
    assert_eq!(
        a.id(),
        b.id(),
        "one signer has exactly one possible Resign id"
    );
}

#[test]
fn flooding_draw_offers_cannot_evict_a_move_at_the_same_ply() {
    let (state, params, w, _b) = play(&["e2e4"]);
    let white_move = state.records.keys()[0];

    let offers: Vec<Record> = (0..50u64)
        .map(|i| {
            let mut at = [0u8; 32];
            at[..8].copy_from_slice(&i.to_le_bytes());
            Record::sign(&w, &params, Body::DrawOffer { ply: 1, at })
        })
        .collect();

    let mut flooded = state.clone();
    let mut raw_offers = GameState::empty();
    for o in &offers {
        raw_offers.absorb_for_test(o);
    }
    flooded.merge(&raw_offers, &params);

    assert!(
        flooded.records.contains_key(&white_move),
        "kind is part of the group key, so offers never compete with moves"
    );
}

#[test]
fn a_buried_double_sign_still_forfeits() {
    let (state, params, w, _b) = play(&["e2e4", "e7e5"]);
    let head = project(&state, &params)
        .chain
        .last()
        .copied()
        .expect("head");

    let a = Record::sign(
        &w,
        &params,
        Body::Move {
            ply: 3,
            parent: head,
            uci: "g1f3".into(),
        },
    );
    let b = Record::sign(
        &w,
        &params,
        Body::Move {
            ply: 3,
            parent: head,
            uci: "b1c3".into(),
        },
    );

    let mut fraud = state.clone();
    fraud.merge(&raw_state(&[a.clone(), b.clone()]), &params);
    let caught = project(&fraud, &params);
    assert_eq!(
        caught.decision.map(|d| d.reason),
        Some(Reason::DoubleSignForfeit),
        "unburied, a double-sign forfeits"
    );

    let mut buried = state.clone();
    let mut junk: Vec<Record> = vec![a.clone(), b.clone()];
    for i in 0..64u64 {
        let mut parent = [0u8; 32];
        parent[..8].copy_from_slice(&i.to_le_bytes());
        junk.push(Record::sign(
            &w,
            &params,
            Body::Move {
                ply: 3,
                parent,
                uci: "e2e4".into(),
            },
        ));
    }
    buried.merge(&raw_state(&junk), &params);

    assert!(
        !buried.records.contains_key(&a.id()) || !buried.records.contains_key(&b.id()),
        "precondition: burial really did evict at least one half of the fraud"
    );
    assert_eq!(
        buried
            .records
            .values()
            .into_iter()
            .filter(|r| matches!(&r.body, Body::Move { ply: 3, .. }) && r.signer == a.signer)
            .count(),
        2,
        "eviction floors the group at K=2 -- it never empties it"
    );

    let st = project(&buried, &params);
    assert_eq!(
        st.decision.map(|d| d.reason),
        Some(Reason::DoubleSignForfeit),
        "buried, it STILL forfeits: the rule counts records, not legality"
    );
    assert_eq!(
        st.decision.and_then(|d| d.winner),
        Some(Color::Black),
        "the burier forfeits, not their opponent"
    );
    assert_eq!(st.ply, 2, "the chain stops one ply short of the fraud");
}

#[test]
fn two_move_records_at_one_ply_forfeit_regardless_of_legality() {
    let (state, params, _w, b) = play(&["e2e4"]);

    let mut s = state.clone();
    for uci in ["a1a8", "h8h1"] {
        let rec = Record::sign(
            &b,
            &params,
            Body::Move {
                ply: 40,
                parent: [3u8; 32],
                uci: uci.into(),
            },
        );
        assert!(s.insert_verified(&rec, &params));
    }

    let st = project(&s, &params);
    assert_eq!(
        st.decision,
        Some(Decision {
            winner: Some(Color::White),
            reason: Reason::DoubleSignForfeit
        }),
        "two Move records in one group forfeit, position-free"
    );
}

#[test]
fn a_mutual_double_sign_is_a_draw() {
    let (state, params, w, b) = play(&["e2e4"]);

    let mut s = state.clone();
    for (key, ply) in [(&w, 41u16), (&b, 40u16)] {
        for uci in ["a1a8", "h8h1"] {
            let rec = Record::sign(
                key,
                &params,
                Body::Move {
                    ply,
                    parent: [3u8; 32],
                    uci: uci.into(),
                },
            );
            assert!(s.insert_verified(&rec, &params));
        }
    }

    assert_eq!(
        project(&s, &params).decision,
        Some(Decision {
            winner: None,
            reason: Reason::DoubleSignForfeit
        })
    );
}

fn junk_below(
    key: &SigningKey,
    params: &GameParams,
    ply: u16,
    uci: &str,
    below: RecordId,
) -> Option<Record> {
    for i in 0..200_000u64 {
        let mut parent = [0u8; 32];
        parent[..8].copy_from_slice(&i.to_le_bytes());
        let rec = Record::sign(
            key,
            params,
            Body::Move {
                ply,
                parent,
                uci: uci.into(),
            },
        );
        if rec.id() < below {
            return Some(rec);
        }
    }
    None
}

#[test]
fn retroactive_move_substitution_forfeits() {
    let (state, params, w, _b) = play(&["e2e4", "e7e5", "g1f3", "b8c6"]);
    let before = project(&state, &params);
    assert_eq!(before.ply, 4);
    let head = before.chain.last().copied().expect("head");

    let real = make_move(&state, &params, &w, "f1b5").expect("Bb5 is legal");
    let mut s = state.clone();
    assert!(s.insert_verified(&real, &params));
    assert_eq!(project(&s, &params).ply, 5, "the real move is on the chain");

    let alt = [
        "h2h3", "a2a3", "d2d3", "b1c3", "f3g5", "f1c4", "f1e2", "f1d3",
    ]
    .iter()
    .map(|uci| {
        Record::sign(
            &w,
            &params,
            Body::Move {
                ply: 5,
                parent: head,
                uci: (*uci).into(),
            },
        )
    })
    .find(|rec| rec.id() < real.id())
    .expect("some legal alternative sorts below the real move");

    let junk = junk_below(&w, &params, 5, "e2e4", real.id().min(alt.id()))
        .expect("a wrong-parent record below both");

    let mut attacked = s.clone();
    attacked.merge(&raw_state(&[alt.clone(), junk.clone()]), &params);

    assert!(
        !attacked.records.contains_key(&real.id()),
        "precondition: the real move really was evicted"
    );
    assert!(attacked.records.contains_key(&alt.id()));
    assert!(attacked.records.contains_key(&junk.id()));

    let st = project(&attacked, &params);
    assert_eq!(
        st.decision.map(|d| d.reason),
        Some(Reason::DoubleSignForfeit),
        "the substitution is a double-sign, and is caught structurally"
    );
    assert_eq!(
        st.decision.and_then(|d| d.winner),
        Some(Color::Black),
        "the substituting player loses, rather than getting a free takeback"
    );
    assert_eq!(st.ply, 4, "the chain stops before the rewritten ply");
    assert_eq!(
        st.fen, before.fen,
        "and the board is the last agreed position"
    );
}

#[test]
fn reviving_an_expired_draw_offer_by_rewinding_forfeits() {
    let (state, params, w, b) = play(&["e2e4", "e7e5", "g1f3"]);
    let head_at_3 = project(&state, &params)
        .chain
        .last()
        .copied()
        .expect("head");

    let offer = Record::sign(
        &b,
        &params,
        Body::DrawOffer {
            ply: 3,
            at: head_at_3,
        },
    );
    let mut s = state.clone();
    assert!(s.insert_verified(&offer, &params));

    let reply = make_move(&s, &params, &b, "b8c6").expect("legal");
    assert!(s.insert_verified(&reply, &params));
    let real = make_move(&s, &params, &w, "f1b5").expect("legal");
    assert!(s.insert_verified(&real, &params));

    let accept = Record::sign(
        &w,
        &params,
        Body::DrawAccept {
            ply: 5,
            offer: offer.id(),
        },
    );
    assert!(s.insert_verified(&accept, &params));
    assert_eq!(
        project(&s, &params).decision,
        None,
        "precondition: the stale offer alone does nothing"
    );

    let junk_a = junk_below(&w, &params, 5, "e2e4", real.id()).expect("junk below");
    let junk_b =
        junk_below(&w, &params, 5, "d2d4", real.id().min(junk_a.id())).expect("second junk below");
    let mut attacked = s.clone();
    attacked.merge(&raw_state(&[junk_a, junk_b]), &params);
    assert!(
        !attacked.records.contains_key(&real.id()),
        "precondition: the rewind really did evict White's ply-5 move"
    );

    let st = project(&attacked, &params);
    assert_eq!(
        st.decision.map(|d| d.reason),
        Some(Reason::DoubleSignForfeit),
        "the rewind forfeits instead of cashing the expired offer"
    );
    assert_eq!(
        st.decision.and_then(|d| d.winner),
        Some(Color::Black),
        "and it is the rewinder who loses"
    );
}

const THREEFOLD_LINE: &[&str] = &[
    "g1f3", "g8f6", "f3g1", "f6g8",
    "g1f3", "g8f6", "f3g1", "f6g8",
];

#[test]
fn a_threefold_claim_at_the_head_draws_the_game() {
    let (state, params, w, _b) = play(THREEFOLD_LINE);
    let status = project(&state, &params);
    assert!(status.repetitions >= 3, "the line must actually repeat");
    assert!(
        status.decision.is_none(),
        "threefold alone does not end the game"
    );

    assert_eq!(
        status.turn,
        Color::White,
        "this line ends with white to move"
    );
    let head = status.chain.last().copied().expect("head");
    let claim = Record::sign(
        &w,
        &params,
        Body::DrawClaim {
            ply: status.ply,
            at: head,
        },
    );

    let mut claimed = state.clone();
    assert!(claimed.insert_verified(&claim, &params));
    let after = project(&claimed, &params);
    assert_eq!(
        after.decision.map(|d| d.reason),
        Some(Reason::ThreefoldClaim),
        "a valid claim at the head draws"
    );
    assert_eq!(
        after.decision.and_then(|d| d.winner),
        None,
        "a claim is a draw"
    );
}

#[test]
fn a_claim_with_no_valid_ground_is_ignored_not_fatal() {
    let (state, params, w, _b) = play(&["e2e4", "e7e5"]);
    let status = project(&state, &params);
    let head = status.chain.last().copied().expect("head");
    let claim = Record::sign(
        &w,
        &params,
        Body::DrawClaim {
            ply: status.ply,
            at: head,
        },
    );

    let mut claimed = state.clone();
    assert!(claimed.insert_verified(&claim, &params));
    let after = project(&claimed, &params);
    assert_eq!(
        after.decision, None,
        "no repetition, no fifty-move: ignored"
    );
    assert_eq!(after.ply, status.ply, "and the game is otherwise untouched");
}

#[test]
fn a_stale_claim_is_ignored() {
    let (state, params, w, _b) = play(THREEFOLD_LINE);
    let status = project(&state, &params);
    let head = status.chain.last().copied().expect("head");
    let claim = Record::sign(
        &w,
        &params,
        Body::DrawClaim {
            ply: status.ply,
            at: head,
        },
    );

    let mut moved = state.clone();
    let mv = make_move(&moved, &params, &w, "e2e4").expect("legal");
    assert!(moved.insert_verified(&mv, &params));
    assert!(moved.insert_verified(&claim, &params));

    assert_eq!(
        project(&moved, &params).decision,
        None,
        "the head moved on, so the claim expired"
    );
}

#[test]
fn a_valid_claim_outranks_a_pending_draw_agreement() {
    let (state, params, w, b) = play(THREEFOLD_LINE);
    let status = project(&state, &params);
    let head = status.chain.last().copied().expect("head");

    let offer = Record::sign(
        &b,
        &params,
        Body::DrawOffer {
            ply: status.ply,
            at: head,
        },
    );
    let accept = Record::sign(
        &w,
        &params,
        Body::DrawAccept {
            ply: status.ply,
            offer: offer.id(),
        },
    );
    let claim = Record::sign(
        &w,
        &params,
        Body::DrawClaim {
            ply: status.ply,
            at: head,
        },
    );

    let mut both = state.clone();
    for rec in [&offer, &accept, &claim] {
        assert!(both.insert_verified(rec, &params));
    }

    assert_eq!(
        project(&both, &params).decision.map(|d| d.reason),
        Some(Reason::ThreefoldClaim),
        "claim sits above agreement in the precedence"
    );
}

#[test]
fn only_the_player_to_move_may_claim() {
    let (state, params, _w, b) = play(THREEFOLD_LINE);
    let status = project(&state, &params);
    assert_eq!(status.turn, Color::White, "white is to move on this line");
    let head = status.chain.last().copied().expect("head");

    let claim = Record::sign(
        &b,
        &params,
        Body::DrawClaim {
            ply: status.ply,
            at: head,
        },
    );
    let mut claimed = state.clone();
    assert!(claimed.insert_verified(&claim, &params));
    assert_eq!(project(&claimed, &params).decision, None);
}

#[test]
fn a_claim_does_not_disturb_a_checkmate() {
    let (state, params, _w, b) = play(SCHOLARS);
    let status = project(&state, &params);
    assert_eq!(
        status.decision.map(|d| d.reason),
        Some(Reason::Checkmate),
        "scholar's mate ends in checkmate"
    );
    let head = status.chain.last().copied().expect("head");

    let claim = Record::sign(
        &b,
        &params,
        Body::DrawClaim {
            ply: status.ply,
            at: head,
        },
    );
    let mut claimed = state.clone();
    claimed.insert_verified(&claim, &params);

    assert_eq!(
        project(&claimed, &params).decision.map(|d| d.reason),
        Some(Reason::Checkmate),
        "a mated player cannot claim their way out of a loss"
    );
}

#[test]
fn ignored_counts_illegal_moves_but_not_resignations() {
    let (state, params, w, b) = play(&["e2e4", "e7e5"]);
    let base = project(&state, &params).ignored;
    assert_eq!(base, 0, "a clean game ignores nothing");

    let mut with_resign = state.clone();
    assert!(with_resign.insert_verified(&Record::sign(&b, &params, Body::Resign), &params));
    assert_eq!(
        project(&with_resign, &params).ignored,
        0,
        "resignations are not ignored moves"
    );

    let mut with_junk = state.clone();
    assert!(with_junk.insert_verified(
        &Record::sign(
            &w,
            &params,
            Body::Move {
                ply: 3,
                parent: [9u8; 32],
                uci: "g1f3".into()
            }
        ),
        &params
    ));
    assert_eq!(project(&with_junk, &params).ignored, 1);
}

#[test]
fn a_crowd_of_forgeries_cannot_crowd_out_a_genuine_record() {
    let (w, _, params) = keys();
    let genuine = Record::sign(
        &w,
        &params,
        Body::Move {
            ply: 1,
            parent: [0xff; 32],
            uci: "e2e4".into(),
        },
    );
    // Records that nobody signed, of the same group, all with smaller ids.
    let mut forged = Vec::new();
    let mut i = 0u64;
    while forged.len() < 3 {
        let mut parent = [0u8; 32];
        parent[..8].copy_from_slice(&i.to_le_bytes());
        let rec = Record {
            body: Body::Move {
                ply: 1,
                parent,
                uci: "e2e4".into(),
            },
            signer: genuine.signer,
            sig: vec![0u8; 64],
        };
        if rec.id() < genuine.id() {
            forged.push(rec);
        }
        i += 1;
    }
    let honest = raw_state(&[genuine.clone()]);
    let crowd = raw_state(&forged);
    let none = GameState::empty();
    for (a, b) in [(&honest, &crowd), (&crowd, &honest)] {
        let merge_first = none.merged(&a.merged(b, &params), &params);
        let filter_first = none
            .merged(a, &params)
            .merged(&none.merged(b, &params), &params);
        assert_eq!(merge_first, filter_first);
        assert_eq!(merge_first.len(), 1);
        assert_eq!(merge_first.records.values()[0], &genuine);
    }
}

#[test]
fn a_listed_move_is_played_as_it_is_spelled() {
    let openings: [&[&str]; 3] = [
        &[],
        &["e2e4", "e7e5", "g1f3", "b8c6", "f1c4", "f8c5"],
        &["e2e4", "a7a6", "e4e5", "d7d5"],
    ];
    for moves in openings {
        let (state, params, w, b) = play(moves);
        let key = if moves.len() % 2 == 0 { &w } else { &b };
        let listed = legal_moves(&state, &params);
        for (i, uci) in listed.iter().enumerate() {
            assert!(!listed[..i].contains(uci), "{uci} is listed twice");
            let rec = make_move(&state, &params, key, uci).expect("a listed move is legal");
            assert!(rec.verify(&params));
            assert!(matches!(rec.body, Body::Move { uci: played, .. } if played == *uci));
        }
    }
    let (castling, params, w, _) = play(openings[1]);
    assert!(legal_moves(&castling, &params).contains(&"e1g1".to_string()));
    assert!(!legal_moves(&castling, &params).contains(&"e1h1".to_string()));
    let rec = make_move(&castling, &params, &w, "e1h1").expect("the same move");
    assert!(matches!(rec.body, Body::Move { uci, .. } if uci == "e1g1"));
    let (en_passant, params, _, _) = play(openings[2]);
    assert!(legal_moves(&en_passant, &params).contains(&"e5d6".to_string()));
    let (over, params, _, _) = play(SCHOLARS);
    assert!(legal_moves(&over, &params).is_empty());
}
