//! A corpus of states, weighted toward partial and crafted ones: merging only
//! has work to do where two peers hold different parts of one record set.

use adjourn::types::{signing_payload, MAX_PLY};
use adjourn::{make_move, project, Body, GameParams, GameState, Record, RecordId};
use ed25519_dalek::hazmat::{raw_sign, ExpandedSecretKey};
use ed25519_dalek::SigningKey;
use sha2::Sha512;
use std::collections::BTreeMap;

const SCHOLARS: &[&str] = &["e2e4", "e7e5", "f1c4", "b8c6", "d1h5", "g8f6", "h5f7"];

/// Knights out and back: the start position occurs at plies 0, 4 and 8.
const THREEFOLD_LINE: &[&str] = &[
    "g1f3", "g8f6", "f3g1", "f6g8", "g1f3", "g8f6", "f3g1", "f6g8",
];

fn keys() -> (SigningKey, SigningKey, GameParams) {
    let w = SigningKey::from_bytes(&[1u8; 32]);
    let b = SigningKey::from_bytes(&[2u8; 32]);
    let params = GameParams {
        white: w.verifying_key().to_bytes(),
        black: b.verifying_key().to_bytes(),
        nonce: [7u8; 16],
    };
    (w, b, params)
}

fn play(moves: &[&str]) -> GameState {
    let (w, b, params) = keys();
    let mut state = GameState::empty();
    for (i, uci) in moves.iter().enumerate() {
        let key = if i % 2 == 0 { &w } else { &b };
        let rec = make_move(&state, &params, key, uci).expect("legal");
        assert!(state.insert_verified(&rec, &params));
    }
    state
}

/// A state of exactly these records, neither verified nor evicted.
fn raw(records: &[Record]) -> GameState {
    let mut s = GameState::empty();
    for r in records {
        s.absorb_for_test(r);
    }
    s
}

/// A second, different, but valid signature over one body.
fn second_valid_signature(key: &SigningKey, params: &GameParams, body: &Body) -> Record {
    let payload = signing_payload(&params.game_id(), body);
    let mut esk = ExpandedSecretKey::from(&key.to_bytes());
    esk.hash_prefix[0] ^= 0x01;
    Record {
        body: body.clone(),
        signer: key.verifying_key().to_bytes(),
        sig: raw_sign::<Sha512>(&esk, &payload, &key.verifying_key())
            .to_bytes()
            .to_vec(),
    }
}

fn off_chain(key: &SigningKey, params: &GameParams, ply: u16, i: u64) -> Record {
    let mut parent = [0u8; 32];
    parent[..8].copy_from_slice(&i.to_le_bytes());
    Record::sign(
        key,
        params,
        Body::Move {
            ply,
            parent,
            uci: "e2e4".into(),
        },
    )
}

/// A record off the chain whose id sorts below another.
fn junk_below(key: &SigningKey, params: &GameParams, ply: u16, below: RecordId) -> Record {
    (0..2000u64)
        .map(|i| off_chain(key, params, ply, i))
        .find(|rec| rec.id() < below)
        .expect("an id below the target")
}

fn corpus() -> Vec<(&'static str, GameState)> {
    let (w, b, params) = keys();
    let mut states: Vec<(&'static str, GameState)> = vec![
        ("empty", GameState::empty()),
        ("one_move", play(&["d2d4"])),
    ];

    let mate = play(SCHOLARS);
    let all: Vec<Record> = mate.records.values().into_iter().cloned().collect();
    states.push(("mate_full", mate));
    states.push(("mate_prefix", raw(&all[..3])));
    states.push(("mate_suffix", raw(&all[3..])));
    let alternating: Vec<Record> = all.iter().step_by(2).cloned().collect();
    states.push(("mate_alternating", raw(&alternating)));
    states.push(("mate_single", raw(&all[..1])));

    let crowd: Vec<Record> = (0..30u64).map(|i| off_chain(&w, &params, 1, i)).collect();
    states.push(("over_k_group", raw(&crowd)));

    let two_ply = play(&["e2e4", "e7e5"]);
    let st = project(&two_ply, &params);
    let head = *st.chain.last().unwrap();
    let mut double_sign = two_ply.clone();
    for uci in ["g1f3", "b1c3"] {
        double_sign.absorb_for_test(&Record::sign(
            &w,
            &params,
            Body::Move {
                ply: 3,
                parent: head,
                uci: uci.into(),
            },
        ));
    }
    states.push(("double_sign_forfeit", double_sign));

    let five = play(&["e2e4", "e7e5", "g1f3", "b8c6", "f1b5"]);
    let chain = project(&five, &params).chain;
    let mut substitution = five.clone();
    substitution.absorb_for_test(&junk_below(&w, &params, 5, chain[4]));
    states.push(("substitution_attempt", substitution));

    let offer = Record::sign(
        &b,
        &params,
        Body::DrawOffer {
            ply: st.ply,
            at: head,
        },
    );
    let accept = Record::sign(
        &w,
        &params,
        Body::DrawAccept {
            ply: st.ply,
            offer: offer.id(),
        },
    );
    states.push(("draw_agreed", raw(&[all[0].clone(), offer.clone(), accept])));
    states.push(("draw_offer_only", raw(&[offer])));
    let stale = Record::sign(
        &b,
        &params,
        Body::DrawOffer {
            ply: 1,
            at: params.genesis(),
        },
    );
    states.push(("stale_draw_offer", raw(&[stale])));

    let rep = play(THREEFOLD_LINE);
    let rep_status = project(&rep, &params);
    let mut claimed = rep.clone();
    claimed.absorb_for_test(&Record::sign(
        &w,
        &params,
        Body::DrawClaim {
            ply: rep_status.ply,
            at: *rep_status.chain.last().unwrap(),
        },
    ));
    states.push(("threefold_claim", claimed));
    states.push(("threefold_line", rep));

    let resigned = Record::sign(&b, &params, Body::Resign);
    states.push(("resigned", raw(&[all[0].clone(), resigned])));
    states.push(("at_max_ply", raw(&[off_chain(&w, &params, MAX_PLY, 0)])));

    let body = Body::Move {
        ply: 1,
        parent: params.genesis(),
        uci: "e2e4".into(),
    };
    let sig_a = Record::sign(&w, &params, body.clone());
    let sig_b = second_valid_signature(&w, &params, &body);
    assert_eq!(sig_a.id(), sig_b.id(), "the pair must share an id");
    assert_ne!(sig_a.sig, sig_b.sig, "the signatures must differ");
    states.push(("malleable_sig_a", raw(&[sig_a])));
    states.push(("malleable_sig_b", raw(&[sig_b])));
    states
}

#[test]
fn every_state_of_the_corpus_reads_back_and_is_its_own() {
    let mut seen: BTreeMap<Vec<u8>, &str> = BTreeMap::new();
    for (name, state) in corpus() {
        let bytes = state.encode();
        let back = GameState::decode(&bytes).expect("decodes");
        assert_eq!(back, state, "state {name} does not round-trip");
        if let Some(other) = seen.insert(bytes, name) {
            panic!("state {name} is byte-identical to {other}");
        }
    }
    assert_eq!(seen.len(), 19);
}

#[test]
fn neighbours_in_the_corpus_merge_the_same_either_way() {
    let (_, _, params) = keys();
    let states = corpus();
    for pair in states.windows(2) {
        let (name, a) = &pair[0];
        let (_, b) = &pair[1];
        assert_eq!(
            a.merged(b, &params),
            b.merged(a, &params),
            "{name} and its neighbour"
        );
    }
}
