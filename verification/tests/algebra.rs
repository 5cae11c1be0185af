//! The laws of merge, projection under any order of delivery, and what a
//! hostile player can and cannot do to the record set.

use adjourn::state::encode_delta;
use adjourn::types::{signing_payload, Color};
use adjourn::{
    make_move, project, Body, Decision, GameParams, GameState, Reason, Record, Summary,
};
use ed25519_dalek::hazmat::{raw_sign, ExpandedSecretKey};
use ed25519_dalek::SigningKey;
use sha2::Sha512;

fn keys() -> (SigningKey, SigningKey, GameParams) {
    let w = SigningKey::from_bytes(&[1u8; 32]);
    let b = SigningKey::from_bytes(&[2u8; 32]);
    let params = GameParams {
        white: w.verifying_key().to_bytes(),
        black: b.verifying_key().to_bytes(),
        nonce: [7u8; 16],
    };
    (w, b, params)
}

fn play(moves: &[&str]) -> (GameState, GameParams, SigningKey, SigningKey) {
    let (w, b, params) = keys();
    let mut state = GameState::empty();
    for (i, uci) in moves.iter().enumerate() {
        let key = if i % 2 == 0 { &w } else { &b };
        let rec = make_move(&state, &params, key, uci)
            .unwrap_or_else(|| panic!("move {} ({}) rejected", i + 1, uci));
        assert!(state.insert_verified(&rec, &params));
    }
    (state, params, w, b)
}

fn spam_moves(key: &SigningKey, params: &GameParams, ply: u16, n: usize) -> Vec<Record> {
    (0..n)
        .map(|i| {
            let mut parent = [0u8; 32];
            parent[..8].copy_from_slice(&(i as u64).to_le_bytes());
            Record::sign(key, params, Body::Move { ply, parent, uci: "e2e4".into() })
        })
        .collect()
}

fn raw(records: &[Record]) -> GameState {
    let mut s = GameState::empty();
    for r in records {
        s.absorb_for_test(r);
    }
    s
}

fn second_valid_signature(key: &SigningKey, params: &GameParams, body: &Body) -> Record {
    let payload = signing_payload(&params.game_id(), body);
    let mut esk = ExpandedSecretKey::from(&key.to_bytes());
    esk.hash_prefix[0] ^= 0x01;
    Record {
        body: body.clone(),
        signer: key.verifying_key().to_bytes(),
        sig: raw_sign::<Sha512>(&esk, &payload, &key.verifying_key())
            .to_bytes()
            .to_vec(),
    }
}

struct Rng(u64);
impl Rng {
    fn next(&mut self) -> u64 {
        let mut x = self.0;
        x ^= x << 13;
        x ^= x >> 7;
        x ^= x << 17;
        self.0 = x;
        x
    }
    fn below(&mut self, n: usize) -> usize {
        (self.next() % n as u64) as usize
    }
}

const SCHOLARS: &[&str] = &["e2e4", "e7e5", "f1c4", "b8c6", "d1h5", "g8f6", "h5f7"];

#[test]
fn scholars_mate_is_detected() {
    let (state, params, _, _) = play(SCHOLARS);
    let st = project(&state, &params);
    assert_eq!(st.ply, 7);
    assert_eq!(
        st.decision,
        Some(Decision {
            winner: Some(Color::White),
            reason: Reason::Checkmate
        })
    );
}

fn merge_is_a_monoid_rounds(from: usize, to: usize) {
    let (full, params, _, _) = play(SCHOLARS);
    let recs: Vec<Record> = full.records.values().into_iter().cloned().collect();
    let mut rng = Rng(0xDEADBEEF);

    for round in 0..to {
        let buckets: Vec<usize> = recs.iter().map(|_| rng.below(3)).collect();
        if round < from {
            continue;
        }
        let (mut a, mut b, mut c) = (GameState::empty(), GameState::empty(), GameState::empty());
        for (r, bucket) in recs.iter().zip(buckets) {
            match bucket {
                0 => a.insert_verified(r, &params),
                1 => b.insert_verified(r, &params),
                _ => c.insert_verified(r, &params),
            };
        }

        assert_eq!(
            a.merged(&b, &params),
            b.merged(&a, &params),
            "merge not commutative"
        );

        assert_eq!(
            a.merged(&b, &params).merged(&c, &params),
            a.merged(&b.merged(&c, &params), &params),
            "merge not associative"
        );

        assert_eq!(a.merged(&a, &params), a, "merge not idempotent");
        let ab = a.merged(&b, &params);
        assert_eq!(
            ab.merged(&b, &params),
            ab,
            "re-merging a subset changed state"
        );

        assert_eq!(
            a.merged(&GameState::empty(), &params),
            a,
            "empty is not identity"
        );
    }
}

#[test]
fn merge_is_a_monoid() {
    merge_is_a_monoid_rounds(0, 25);
}

#[test]
fn merge_is_a_monoid_from_round_25() {
    merge_is_a_monoid_rounds(25, 50);
}

#[test]
fn merge_is_a_monoid_from_round_50() {
    merge_is_a_monoid_rounds(50, 75);
}

#[test]
fn merge_is_a_monoid_from_round_75() {
    merge_is_a_monoid_rounds(75, 100);
}

#[test]
fn merge_is_a_monoid_from_round_100() {
    merge_is_a_monoid_rounds(100, 125);
}

#[test]
fn merge_is_a_monoid_from_round_125() {
    merge_is_a_monoid_rounds(125, 150);
}

#[test]
fn merge_is_a_monoid_from_round_150() {
    merge_is_a_monoid_rounds(150, 175);
}

#[test]
fn merge_is_a_monoid_from_round_175() {
    merge_is_a_monoid_rounds(175, 200);
}

fn projection_is_order_independent_rounds(from: usize, to: usize) {
    let (full, params, _, _) = play(SCHOLARS);
    let expected = project(&full, &params);
    let recs: Vec<Record> = full.records.values().into_iter().cloned().collect();
    let mut rng = Rng(0x1234_5678);

    for round in 0..to {
        let mut shuffled = recs.clone();
        for i in (1..shuffled.len()).rev() {
            shuffled.swap(i, rng.below(i + 1));
        }
        let twice: Vec<bool> = recs.iter().map(|_| rng.below(4) == 0).collect();
        if round < from {
            continue;
        }
        let mut s = GameState::empty();
        for (r, again) in shuffled.iter().zip(twice) {
            s.insert_verified(r, &params);
            if again {
                s.insert_verified(r, &params);
            }
        }
        let got = project(&s, &params);
        assert_eq!(got.fen, expected.fen, "divergent position");
        assert_eq!(got.decision, expected.decision, "divergent outcome");
        assert_eq!(got.chain, expected.chain, "divergent chain");
    }
}

#[test]
fn projection_is_order_independent() {
    projection_is_order_independent_rounds(0, 83);
}

#[test]
fn projection_is_order_independent_from_round_83() {
    projection_is_order_independent_rounds(83, 166);
}

#[test]
fn projection_is_order_independent_from_round_166() {
    projection_is_order_independent_rounds(166, 249);
}

#[test]
fn projection_is_order_independent_from_round_249() {
    projection_is_order_independent_rounds(249, 332);
}

#[test]
fn projection_is_order_independent_from_round_332() {
    projection_is_order_independent_rounds(332, 415);
}

#[test]
fn projection_is_order_independent_from_round_415() {
    projection_is_order_independent_rounds(415, 500);
}

#[test]
fn partial_state_projects_to_a_prefix() {
    let (full, params, _, _) = play(SCHOLARS);
    let full_status = project(&full, &params);

    for n in 0..=SCHOLARS.len() {
        let mut s = GameState::empty();
        for id in full_status.chain.iter().take(n) {
            s.insert_verified(full.records.get(id).unwrap(), &params);
        }
        assert_eq!(project(&s, &params).ply, n as u16);
    }

    let mut s = GameState::empty();
    for (i, id) in full_status.chain.iter().enumerate() {
        if i == 2 {
            continue;
        }
        s.insert_verified(full.records.get(id).unwrap(), &params);
    }
    assert_eq!(project(&s, &params).ply, 2);
}

#[test]
fn double_signing_forfeits() {
    let (state, params, _w, b) = play(&["e2e4"]);
    let mut forked = state.clone();

    for uci in ["e7e5", "c7c5"] {
        let rec = make_move(&state, &params, &b, uci).unwrap();
        assert!(forked.insert_verified(&rec, &params));
    }

    let st = project(&forked, &params);
    assert_eq!(
        st.decision,
        Some(Decision {
            winner: Some(Color::White),
            reason: Reason::DoubleSignForfeit
        })
    );
    let mut rebuilt = GameState::empty();
    for r in forked.records.values().into_iter().rev() {
        rebuilt.insert_verified(r, &params);
    }
    assert_eq!(project(&rebuilt, &params).decision, st.decision);
}

#[test]
fn illegal_move_is_ignored_not_fatal() {
    let (state, params, _w, b) = play(&["e2e4"]);
    let mut poisoned = state.clone();

    let junk = Record::sign(
        &b,
        &params,
        Body::Move {
            ply: 2,
            parent: project(&state, &params).chain[0],
            uci: "a1a8".into(),
        },
    );
    assert!(poisoned.insert_verified(&junk, &params));

    assert!(poisoned.all_valid(&params));
    assert_eq!(project(&poisoned, &params).ply, 1);
    assert_eq!(project(&poisoned, &params).decision, None);
    assert_eq!(project(&poisoned, &params).ignored, 1);
}

#[test]
fn a_second_move_at_the_ply_of_an_illegal_one_forfeits() {
    let (state, params, w, b) = play(&["e2e4"]);
    let mut poisoned = state.clone();
    let junk = Record::sign(
        &b,
        &params,
        Body::Move {
            ply: 2,
            parent: project(&state, &params).chain[0],
            uci: "a1a8".into(),
        },
    );
    assert!(poisoned.insert_verified(&junk, &params));
    let real = make_move(&poisoned, &params, &b, "e7e5").unwrap();
    assert!(poisoned.insert_verified(&real, &params));
    // The rule counts statements at a ply; whether they are legal is not asked.
    let st = project(&poisoned, &params);
    assert_eq!(st.ply, 1);
    assert_eq!(
        st.decision,
        Some(Decision {
            winner: Some(Color::White),
            reason: Reason::DoubleSignForfeit
        })
    );
    assert!(make_move(&poisoned, &params, &w, "g1f3").is_none());
}

#[test]
fn wrong_turn_and_forgery_are_rejected() {
    let (state, params, w, _b) = play(&["e2e4"]);

    assert!(make_move(&state, &params, &w, "d2d4").is_none());

    let outsider = SigningKey::from_bytes(&[9u8; 32]);
    let rec = Record::sign(
        &outsider,
        &params,
        Body::Move {
            ply: 2,
            parent: params.genesis(),
            uci: "e7e5".into(),
        },
    );
    let mut s = state.clone();
    assert!(!s.insert_verified(&rec, &params));
    assert_eq!(s.len(), state.len());

    let mut tampered = state.records.values()[0].clone();
    tampered.sig[0] ^= 0xFF;
    assert!(!tampered.verify(&params));
}

#[test]
fn moves_do_not_replay_across_games() {
    let (w, b, params) = keys();
    let other = GameParams {
        nonce: [8u8; 16],
        ..params.clone()
    };
    assert_ne!(params.game_id(), other.game_id());
    assert_ne!(params.genesis(), other.genesis());

    let mut s = GameState::empty();
    let rec = make_move(&s, &params, &w, "e2e4").unwrap();
    s.insert_verified(&rec, &params);

    let mut s2 = GameState::empty();
    assert!(!s2.insert_verified(&rec, &other));
    assert!(s2.is_empty());
    let _ = b;
}

fn sync_soundness_two_step_rounds(from: usize, to: usize) {
    let (full, params, _, _) = play(SCHOLARS);
    let recs: Vec<Record> = full.records.values().into_iter().cloned().collect();
    let mut rng = Rng(0xC0FFEE);

    for round in 0..to {
        let held: Vec<(bool, bool)> = recs
            .iter()
            .map(|_| (rng.below(2) == 0, rng.below(2) == 0))
            .collect();
        if round < from {
            continue;
        }
        let (mut a, mut b) = (GameState::empty(), GameState::empty());
        for (r, (by_a, by_b)) in recs.iter().zip(held) {
            if by_a {
                a.insert_verified(r, &params);
            }
            if by_b {
                b.insert_verified(r, &params);
            }
        }

        let summary = a.summarize();
        let delta = b.delta_against(&summary);
        let mut a_after = a.clone();
        a_after.apply_delta(&delta, &params);

        assert_eq!(
            a_after.merged(&b, &params),
            a_after,
            "delta did not dominate the peer's state"
        );
        assert_eq!(a_after, a.merged(&b, &params), "delta sync != full merge");

        let d2 = b.delta_against(&a_after.summarize());
        assert!(d2.is_empty(), "sync did not converge in one round");
    }
}

#[test]
fn sync_soundness_two_step() {
    sync_soundness_two_step_rounds(0, 60);
}

#[test]
fn sync_soundness_two_step_from_round_60() {
    sync_soundness_two_step_rounds(60, 120);
}

#[test]
fn sync_soundness_two_step_from_round_120() {
    sync_soundness_two_step_rounds(120, 180);
}

#[test]
fn sync_soundness_two_step_from_round_180() {
    sync_soundness_two_step_rounds(180, 240);
}

#[test]
fn sync_soundness_two_step_from_round_240() {
    sync_soundness_two_step_rounds(240, 300);
}

#[test]
fn resignation_and_draw_agreement() {
    let (state, params, _w, b) = play(&["e2e4", "e7e5"]);

    let mut resigned = state.clone();
    resigned.insert_verified(&Record::sign(&b, &params, Body::Resign), &params);
    assert_eq!(
        project(&resigned, &params).decision,
        Some(Decision {
            winner: Some(Color::White),
            reason: Reason::Resignation
        })
    );

    let (state, params, w, b) = play(&["e2e4", "e7e5"]);
    let status = project(&state, &params);
    let head = status.chain.last().copied().unwrap();
    let offer = Record::sign(&w, &params, Body::DrawOffer { ply: status.ply, at: head });
    let accept = Record::sign(&b, &params, Body::DrawAccept { ply: status.ply, offer: offer.id() });
    let mut drawn = state.clone();
    drawn.insert_verified(&offer, &params);
    drawn.insert_verified(&accept, &params);
    assert_eq!(
        project(&drawn, &params).decision,
        Some(Decision {
            winner: None,
            reason: Reason::DrawAgreement
        })
    );

    let mut sneaky = state.clone();
    let offer2 = Record::sign(&w, &params, Body::DrawOffer { ply: status.ply, at: head });
    let self_accept = Record::sign(&w, &params, Body::DrawAccept { ply: status.ply, offer: offer2.id() });
    sneaky.insert_verified(&offer2, &params);
    sneaky.insert_verified(&self_accept, &params);
    assert_eq!(project(&sneaky, &params).decision, None);
}

#[test]
fn signature_malleability_does_not_split_records() {
    let (w, _b, params) = keys();
    let body = Body::Move {
        ply: 1,
        parent: params.genesis(),
        uci: "e2e4".into(),
    };
    let a = Record::sign(&w, &params, body.clone());
    let mut mangled = a.clone();
    mangled.sig[63] ^= 0x01;

    assert_eq!(a.id(), mangled.id(), "id must not depend on signature");

    for order in [[&a, &mangled], [&mangled, &a]] {
        let mut s = GameState::empty();
        for rec in order {
            s.insert_verified(rec, &params);
        }
        assert_eq!(s.len(), 1, "one statement, one slot");
        assert_eq!(s.records.values()[0], &a, "forgery won");
    }

    let alt = second_valid_signature(&w, &params, &body);
    assert!(alt.verify(&params) && alt.sig != a.sig);
    assert_eq!(a.id(), alt.id());

    let mut s1 = GameState::empty();
    s1.insert_verified(&a, &params);
    s1.insert_verified(&alt, &params);
    let mut s2 = GameState::empty();
    s2.insert_verified(&alt, &params);
    s2.insert_verified(&a, &params);
    assert_eq!(s1, s2, "collision tiebreak is order-dependent");
    assert_eq!(s1.len(), 1);

    let mut loser = GameState::empty();
    loser.insert_verified(if a.sig < alt.sig { &alt } else { &a }, &params);
    assert_ne!(loser.summarize(), s1.summarize());
    assert_eq!(s1.delta_against(&loser.summarize()).len(), 1);

    let payload = signing_payload(&params.game_id(), &body);
    assert!(payload.starts_with(b"adjourn-v1/sig"));
}

#[test]
fn summary_packs_to_64_bytes_per_entry() {
    let (full, _params, _, _) = play(SCHOLARS);
    let summary = full.summarize();
    assert_eq!(summary.len(), 7);

    let bytes = summary.encode();

    assert!(
        bytes.len() <= 7 * 64 + 4,
        "summary should pack to ~448 bytes, got {}",
        bytes.len()
    );

    let back = Summary::decode(&bytes).expect("decode");
    assert_eq!(back, summary, "summary did not round-trip");
}

#[test]
fn summary_rejects_a_misaligned_payload() {
    let (full, _params, _, _) = play(&["e2e4"]);
    let bytes = full.summarize().encode();
    let mut broken = Vec::new();
    ciborium::into_writer(&ciborium::Value::Bytes(vec![0u8; 63]), &mut broken).expect("encode");
    assert!(
        Summary::decode(&broken).is_none(),
        "a 63-byte payload is not a whole number of entries and must be refused"
    );
    assert!(Summary::decode(&bytes).is_some());
}

#[test]
fn state_encodes_as_a_bare_sequence_of_records() {
    let (full, _params, _, _) = play(SCHOLARS);
    let bytes = full.encode();
    assert_eq!(
        bytes[0], 0x87,
        "expected a 7-element CBOR array, got first byte 0x{:02x}",
        bytes[0]
    );
}

#[test]
fn decode_rejects_duplicate_record_ids() {
    let (w, _b, params) = keys();
    let body = Body::Move {
        ply: 1,
        parent: params.genesis(),
        uci: "e2e4".into(),
    };
    let rec = Record::sign(&w, &params, body.clone());
    let alt = second_valid_signature(&w, &params, &body);
    assert_eq!(rec.id(), alt.id());

    let other = Record::sign(
        &w,
        &params,
        Body::Move {
            ply: 1,
            parent: params.genesis(),
            uci: "d2d4".into(),
        },
    );
    let ok_bytes = encode_delta(&vec![rec.clone(), other]);
    assert!(
        GameState::decode(&ok_bytes).is_some(),
        "control failed: a well-formed two-record sequence must decode"
    );

    let bytes = encode_delta(&vec![rec, alt]);
    assert!(
        GameState::decode(&bytes).is_none(),
        "decode accepted a state carrying two records under one id"
    );
}

#[test]
fn round_trips_through_cbor() {
    let (full, params, _, _) = play(SCHOLARS);
    let bytes = full.encode();
    let back = GameState::decode(&bytes).expect("decode");
    assert_eq!(back, full);
    assert_eq!(project(&back, &params).fen, project(&full, &params).fen);

    let mut rebuilt = GameState::empty();
    for r in full.records.values().into_iter().rev() {
        rebuilt.insert_verified(r, &params);
    }
    assert_eq!(rebuilt.encode(), bytes, "encoding is not canonical");
    println!(
        "full-game state: {} bytes, {} records",
        bytes.len(),
        full.len()
    );
}

#[test]
fn eviction_bounds_a_spammed_group() {
    let (w, _b, params) = keys();
    let spam = spam_moves(&w, &params, 1, 50);
    let mut state = GameState::empty();
    state.merge(&raw(&spam), &params);
    assert_eq!(state.len(), 2, "Move groups are capped at K=2");
}

fn eviction_distributes_over_merge_rounds(from: usize, to: usize) {
    let (w, b, params) = keys();
    let mut spam = spam_moves(&w, &params, 1, 25);
    spam.extend(spam_moves(&b, &params, 2, 25));

    let mut rng = Rng(0x9E3779B97F4A7C15);
    let mut whole = raw(&spam);
    whole.evict();

    for round in 0..to {
        let mut left = Vec::new();
        let mut right = Vec::new();
        for rec in &spam {
            if rng.below(2) == 0 {
                left.push(rec.clone());
            } else {
                right.push(rec.clone());
            }
        }
        if round < from {
            continue;
        }

        let mut split = GameState::empty();
        split.merge(&raw(&left), &params);
        split.merge(&raw(&right), &params);

        assert_eq!(
            split.records, whole.records,
            "top-K must distribute over union for every partition"
        );
    }
}

#[test]
fn eviction_distributes_over_merge() {
    eviction_distributes_over_merge_rounds(0, 16);
}

#[test]
fn eviction_distributes_over_merge_from_round_16() {
    eviction_distributes_over_merge_rounds(16, 32);
}

#[test]
fn eviction_distributes_over_merge_from_round_32() {
    eviction_distributes_over_merge_rounds(32, 48);
}

#[test]
fn eviction_distributes_over_merge_from_round_48() {
    eviction_distributes_over_merge_rounds(48, 64);
}

#[test]
fn eviction_is_idempotent() {
    let (w, _b, params) = keys();
    let mut state = GameState::empty();
    state.merge(&raw(&spam_moves(&w, &params, 1, 30)), &params);
    let once = state.clone();
    state.evict();
    assert_eq!(once.records, state.records);
}

#[test]
fn merge_with_eviction_stays_commutative_and_associative() {
    let (w, b, params) = keys();
    let a = spam_moves(&w, &params, 1, 9);
    let c = spam_moves(&b, &params, 2, 9);
    let d = spam_moves(&w, &params, 3, 9);

    let abc = raw(&a).merged(&raw(&c), &params).merged(&raw(&d), &params);
    let cba = raw(&d).merged(&raw(&c), &params).merged(&raw(&a), &params);
    assert_eq!(abc.records, cba.records, "order of merges must not matter");
}

#[test]
fn a_spammer_cannot_evict_the_opponents_records() {
    let (state, params, w, _b) = play(&["e2e4", "e7e5"]);
    let black_move = state
        .records
        .values()
        .into_iter()
        .find(|r| r.color(&params) == Some(Color::Black))
        .map(|r| r.id())
        .expect("black moved");

    let mut flooded = state.clone();
    flooded.merge(&raw(&spam_moves(&w, &params, 2, 60)), &params);

    assert!(
        flooded.records.contains_key(&black_move),
        "grouping is per signer: only your own records compete with yours"
    );
}

#[test]
fn property_1_holds_after_eviction() {
    let (w, b, params) = keys();
    let mut a = GameState::empty();
    a.merge(&raw(&spam_moves(&w, &params, 1, 12)), &params);
    let mut peer_b = GameState::empty();
    peer_b.merge(&raw(&spam_moves(&b, &params, 2, 12)), &params);

    let delta = a.delta_against(&peer_b.summarize());
    let mut applied = peer_b.clone();
    applied.apply_delta(&delta, &params);

    let joined = applied.merged(&a, &params);
    assert_eq!(applied.records, joined.records, "the delta dominates the join");
}

#[test]
fn two_peers_converge_when_one_holds_a_record_the_other_evicts() {
    let (w, _b, params) = keys();
    let spam = spam_moves(&w, &params, 1, 20);
    let mut a = GameState::empty();
    a.merge(&raw(&spam[..10]), &params);
    let mut peer_b = GameState::empty();
    peer_b.merge(&raw(&spam[10..]), &params);

    let to_b = a.delta_against(&peer_b.summarize());
    let to_a = peer_b.delta_against(&a.summarize());
    peer_b.apply_delta(&to_b, &params);
    a.apply_delta(&to_a, &params);

    assert_eq!(a.records, peer_b.records, "converged after one round trip");
}

#[test]
fn delivery_order_and_repeats_do_not_matter_in_a_crowded_group() {
    let (w, _, params) = keys();
    let spam = spam_moves(&w, &params, 1, 4);
    let forged = Record {
        sig: vec![0u8; 64],
        ..spam[0].clone()
    };
    let first = [&spam[0], &spam[1], &spam[2], &spam[3], &forged];
    let second = [&forged, &spam[3], &spam[1], &spam[3], &spam[0], &spam[2], &spam[0]];
    let mut a = GameState::empty();
    for r in first {
        a.insert_verified(r, &params);
    }
    let mut b = GameState::empty();
    for r in second {
        b.insert_verified(r, &params);
    }
    assert_eq!(a, b);
    assert_eq!(a.len(), 2);
    assert_eq!(project(&a, &params).decision, project(&b, &params).decision);
}
