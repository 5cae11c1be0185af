//! The contract, byte strings in and byte strings out.

use adjourn::contract::{Contract, ContractError, UpdateData, ValidateResult};
use adjourn::state::{decode_delta, encode_delta, Delta, Summary};
use adjourn::{make_move, project, Body, GameParams, GameState, Record};
use ed25519_dalek::SigningKey;

fn keys() -> (SigningKey, SigningKey, GameParams) {
    let w = SigningKey::from_bytes(&[1u8; 32]);
    let b = SigningKey::from_bytes(&[2u8; 32]);
    let params = GameParams {
        white: w.verifying_key().to_bytes(),
        black: b.verifying_key().to_bytes(),
        nonce: [7u8; 16],
    };
    (w, b, params)
}

fn play(moves: &[&str]) -> (GameState, GameParams, SigningKey, SigningKey) {
    let (w, b, params) = keys();
    let mut state = GameState::empty();
    for (i, uci) in moves.iter().enumerate() {
        let key = if i % 2 == 0 { &w } else { &b };
        let rec = make_move(&state, &params, key, uci).expect("legal move");
        assert!(state.insert_verified(&rec, &params));
    }
    (state, params, w, b)
}

fn validate(params: &GameParams, state: &[u8]) -> ValidateResult {
    Contract::validate_state(&params.encode(), state).expect("validate_state")
}

#[test]
fn empty_state_is_valid() {
    let (_, _, params) = keys();
    assert_eq!(
        validate(&params, &[]),
        ValidateResult::Valid
    );
}

#[test]
fn a_played_game_is_valid() {
    let (state, params, _, _) = play(&["e2e4", "e7e5"]);
    assert_eq!(
        validate(&params, &state.encode()),
        ValidateResult::Valid
    );
}

#[test]
fn an_illegal_move_does_not_make_the_state_invalid() {
    let (state, params, w, _) = play(&["e2e4", "e7e5"]);
    let head = *project(&state, &params).chain.last().unwrap();

    let mut s = state.clone();
    let garbage = Record::sign(
        &w,
        &params,
        Body::Move {
            ply: 3,
            parent: head,
            uci: "a1a8".into(),
        },
    );
    assert!(s.insert_verified(&garbage, &params));

    assert_eq!(
        validate(&params, &s.encode()),
        ValidateResult::Valid,
        "chess legality must not be a validity condition"
    );
    assert_eq!(
        project(&s, &params).ply,
        2,
        "and the projection must ignore it"
    );
}

#[test]
fn a_state_carrying_a_forgery_is_invalid() {
    let (state, params, _, _) = play(&["e2e4"]);
    let good = state.records.values()[0].clone();

    let mut s = state.clone();
    s.absorb_for_test(&Record {
        body: good.body.clone(),
        signer: good.signer,
        sig: vec![0u8; 64],
    });

    assert_eq!(validate(&params, &s.encode()), ValidateResult::Invalid);
}

#[test]
fn a_state_signed_by_a_stranger_is_invalid() {
    let (state, params, _, _) = play(&["e2e4"]);
    let stranger = SigningKey::from_bytes(&[9u8; 32]);

    let mut s = state.clone();
    s.absorb_for_test(&Record::sign(&stranger, &params, Body::Resign));

    assert_eq!(validate(&params, &s.encode()), ValidateResult::Invalid);
}

fn update(
    params: &GameParams,
    state: &GameState,
    data: Vec<UpdateData>,
) -> Result<GameState, ContractError> {
    let bytes = Contract::update_state(&params.encode(), &state.encode(), &data)?;
    Ok(GameState::decode(&bytes).expect("contract emitted decodable state"))
}

#[test]
fn a_delta_advances_the_state() {
    let (state, params, _, b) = play(&["e2e4"]);
    let reply = make_move(&state, &params, &b, "e7e5").expect("legal");
    let delta: Delta = vec![reply];

    let after = update(
        &params,
        &state,
        vec![UpdateData::Delta(encode_delta(&delta))],
    )
    .expect("update");

    assert_eq!(after.len(), 2);
    assert_eq!(project(&after, &params).ply, 2);
}

#[test]
fn a_whole_state_merges() {
    let (mine, params, _, _) = play(&["e2e4", "e7e5"]);
    let (theirs, _, _, _) = play(&["e2e4", "e7e5", "g1f3", "b8c6"]);

    let after = update(
        &params,
        &mine,
        vec![UpdateData::State(theirs.encode())],
    )
    .expect("update");

    assert_eq!(project(&after, &params).ply, 4);
}

#[test]
fn an_empty_delta_is_a_no_op() {
    let (state, params, _, _) = play(&["e2e4", "e7e5"]);
    let after = update(
        &params,
        &state,
        vec![UpdateData::Delta(Vec::new())],
    )
    .expect("update");
    assert_eq!(after, state);
}

#[test]
fn applying_the_same_delta_twice_changes_nothing() {
    let (state, params, _, b) = play(&["e2e4"]);
    let reply = make_move(&state, &params, &b, "e7e5").expect("legal");
    let delta = encode_delta(&vec![reply]);

    let once = update(&params, &state, vec![UpdateData::Delta(delta.clone())]).expect("update");
    let twice = update(&params, &once, vec![UpdateData::Delta(delta)]).expect("update");
    assert_eq!(once, twice, "update_state is not idempotent");
}

#[test]
fn a_delta_carrying_a_forgery_is_rejected() {
    let (state, params, _, _) = play(&["e2e4"]);
    let good = state.records.values()[0].clone();
    let forged = Record {
        body: good.body.clone(),
        signer: good.signer,
        sig: vec![0u8; 64],
    };

    let err = update(
        &params,
        &state,
        vec![UpdateData::Delta(encode_delta(&vec![forged]))],
    )
    .expect_err("a forged record must not be accepted");
    assert!(matches!(err, ContractError::InvalidUpdateWithInfo { .. }));
}

fn summarize(params: &GameParams, state: &GameState) -> Vec<u8> {
    Contract::summarize_state(&params.encode(), &state.encode()).expect("summarize")
}

fn state_delta(params: &GameParams, state: &GameState, summary: Vec<u8>) -> Vec<u8> {
    Contract::get_state_delta(&params.encode(), &state.encode(), &summary)
        .expect("get_state_delta")
}

#[test]
fn summary_round_trips_through_cbor() {
    let (state, params, _, _) = play(&["e2e4", "e7e5"]);
    let bytes = summarize(&params, &state);
    let decoded = Summary::decode(&bytes).expect("decode summary");
    assert_eq!(decoded, state.summarize());
}

#[test]
fn an_empty_summary_asks_for_everything() {
    let (state, params, _, _) = play(&["e2e4", "e7e5"]);
    let d = state_delta(&params, &state, Vec::new());
    let decoded = decode_delta(&d).expect("decode delta");
    assert_eq!(decoded.len(), state.len(), "peer holding nothing needs all");
}

#[test]
fn a_delta_against_our_own_summary_is_zero_bytes() {
    let (state, params, _, _) = play(&["e2e4", "e7e5"]);
    let d = state_delta(&params, &state, summarize(&params, &state));
    assert!(
        d.is_empty(),
        "an up-to-date peer must get zero bytes, got {}",
        d.len()
    );
}

#[test]
fn two_peers_converge_in_one_round() {
    let (full, params, _, _) = play(&["e2e4", "e7e5", "g1f3", "b8c6"]);
    let records: Vec<Record> = full.records.values().into_iter().cloned().collect();

    let mut a = GameState::empty();
    let mut b = GameState::empty();
    for (i, rec) in records.iter().enumerate() {
        if i % 2 == 0 {
            a.insert_verified(rec, &params);
        } else {
            b.insert_verified(rec, &params);
        }
    }
    assert_ne!(a, b);

    let a_after = {
        let d = state_delta(&params, &b, summarize(&params, &a));
        update(&params, &a, vec![UpdateData::Delta(d)]).expect("update")
    };
    let b_after = {
        let d = state_delta(&params, &a, summarize(&params, &b));
        update(&params, &b, vec![UpdateData::Delta(d)]).expect("update")
    };

    assert_eq!(a_after, b_after, "peers did not converge");
    assert_eq!(a_after, full);
    assert_eq!(
        a_after.encode(),
        b_after.encode(),
        "converged states must be byte-identical"
    );

    for (from, to) in [(&b_after, &a_after), (&a_after, &b_after)] {
        let again = state_delta(&params, from, summarize(&params, to));
        assert!(
            again.is_empty(),
            "sync did not settle in one round: {} bytes still offered",
            again.len()
        );
    }
}

#[test]
fn an_over_k_state_comes_back_normalized_through_update() {
    let (w, _b, params) = keys();

    let mut spam = GameState::empty();
    for i in 0..30u64 {
        let mut parent = [0u8; 32];
        parent[..8].copy_from_slice(&i.to_le_bytes());
        spam.absorb_for_test(&Record::sign(
            &w,
            &params,
            Body::Move {
                ply: 1,
                parent,
                uci: "e2e4".into(),
            },
        ));
    }
    assert_eq!(spam.len(), 30, "the crafted state really is over-K");

    let out = update(
        &params,
        &GameState::empty(),
        vec![UpdateData::State(spam.encode())],
    )
    .expect("update_state");

    assert_eq!(
        out.len(),
        2,
        "the contract normalizes an over-K state to K=2"
    );
}

#[test]
fn an_over_k_base_state_is_normalized_before_the_update_is_applied() {
    let (w, _b, params) = keys();

    let mut spam = GameState::empty();
    for i in 0..30u64 {
        let mut parent = [0u8; 32];
        parent[..8].copy_from_slice(&i.to_le_bytes());
        spam.absorb_for_test(&Record::sign(
            &w,
            &params,
            Body::Move {
                ply: 1,
                parent,
                uci: "e2e4".into(),
            },
        ));
    }
    assert_eq!(spam.len(), 30, "the crafted base state really is over-K");

    let out = update(
        &params,
        &spam,
        vec![UpdateData::Delta(Vec::new())],
    )
    .expect("update_state");

    assert_eq!(
        out.len(),
        2,
        "update_state must normalize its base state, exactly as summarize/delta do"
    );
}

#[test]
fn an_over_k_state_summarizes_and_diffs_as_normalized() {
    let (w, _b, params) = keys();

    let mut spam = GameState::empty();
    for i in 0..30u64 {
        let mut parent = [0u8; 32];
        parent[..8].copy_from_slice(&i.to_le_bytes());
        spam.absorb_for_test(&Record::sign(
            &w,
            &params,
            Body::Move {
                ply: 1,
                parent,
                uci: "e2e4".into(),
            },
        ));
    }
    assert_eq!(spam.len(), 30, "the crafted state really is over-K");

    let summary_bytes = summarize(&params, &spam);
    let decoded = Summary::decode(&summary_bytes).expect("decode summary");
    assert_eq!(
        decoded.len(),
        2,
        "summarize_state must normalize before summarizing"
    );

    let delta_bytes = state_delta(&params, &spam, Vec::new());
    let delta = decode_delta(&delta_bytes).expect("decode delta");
    assert_eq!(
        delta.len(),
        2,
        "get_state_delta must normalize before diffing"
    );

    let mut normalized = GameState::empty();
    for rec in &delta {
        normalized.insert_verified(rec, &params);
    }
    let again = state_delta(&params, &spam, summarize(&params, &normalized));
    assert!(
        again.is_empty(),
        "an already-normalized peer must not be re-offered evicted-away records"
    );
}
