//! The exact bytes of what is hashed, signed, stored and sent.

use adjourn::contract::{Contract, ContractError, UpdateData, ValidateResult};
use adjourn::delegate_api::{EntropyQuality, GameSummary, Refusal, Request, Response, Side};
use adjourn::delegate_policy::{body_hash, derive_seed, GameRecord, HostEntropy};
use adjourn::invite::{GameOffer, Invite, InviteError, INVITE_FORMAT};
use adjourn::state::{decode_delta, encode_delta};
use adjourn::types::signing_payload;
use adjourn::{make_move, Body, GameParams, GameState, Record, Summary};
use ciborium::Value;
use ed25519_dalek::{Signer, SigningKey};
use sha2::{Digest, Sha256};

fn keys() -> (SigningKey, SigningKey, GameParams) {
    let w = SigningKey::from_bytes(&[1u8; 32]);
    let b = SigningKey::from_bytes(&[2u8; 32]);
    let params = GameParams {
        white: w.verifying_key().to_bytes(),
        black: b.verifying_key().to_bytes(),
        nonce: [7u8; 16],
    };
    (w, b, params)
}

fn sha(parts: &[&[u8]]) -> [u8; 32] {
    let mut h = Sha256::new();
    for p in parts {
        h.update(p);
    }
    h.finalize().into()
}

fn text(t: &str) -> Value {
    Value::Text(t.to_string())
}

fn bytes(b: &[u8]) -> Value {
    Value::Bytes(b.to_vec())
}

fn number(n: u64) -> Value {
    Value::Integer(n.into())
}

fn table(rows: Vec<(&str, Value)>) -> Value {
    Value::Map(rows.into_iter().map(|(k, v)| (text(k), v)).collect())
}

fn written(v: &Value) -> Vec<u8> {
    let mut out = Vec::new();
    ciborium::into_writer(v, &mut out).expect("encode");
    out
}

fn params_value(p: &GameParams) -> Value {
    table(vec![
        ("white", bytes(&p.white)),
        ("black", bytes(&p.black)),
        ("nonce", bytes(&p.nonce)),
    ])
}

fn move_value(ply: u64, parent: &[u8], uci: &str) -> Value {
    table(vec![(
        "m",
        table(vec![
            ("p", number(ply)),
            ("t", bytes(parent)),
            ("u", text(uci)),
        ]),
    )])
}

fn a_move(params: &GameParams) -> Body {
    Body::Move {
        ply: 1,
        parent: params.genesis(),
        uci: "e2e4".into(),
    }
}

#[test]
fn parameters_are_a_table_of_byte_strings() {
    let (_, _, params) = keys();
    assert_eq!(params.encode(), written(&params_value(&params)));
    assert_eq!(GameParams::decode(&params.encode()), Some(params));
    assert_eq!(GameParams::decode(&[]), None);
    assert_eq!(GameParams::decode(&[0xa0]), None);
}

#[test]
fn fields_may_come_in_any_order_and_beside_others() {
    let (_, _, params) = keys();
    let shuffled = table(vec![
        ("nonce", bytes(&params.nonce)),
        ("colour", text("teal")),
        ("black", bytes(&params.black)),
        ("white", bytes(&params.white)),
    ]);
    assert_eq!(GameParams::decode(&written(&shuffled)), Some(params.clone()));
    let repeated = table(vec![
        ("white", bytes(&params.white)),
        ("black", bytes(&params.black)),
        ("nonce", bytes(&params.nonce)),
        ("nonce", bytes(&params.nonce)),
    ]);
    assert_eq!(GameParams::decode(&written(&repeated)), None);
    let short = table(vec![
        ("white", bytes(&params.white[1..])),
        ("black", bytes(&params.black)),
        ("nonce", bytes(&params.nonce)),
    ]);
    assert_eq!(GameParams::decode(&written(&short)), None);
}

#[test]
fn a_field_may_be_named_by_its_bytes() {
    let (_, _, params) = keys();
    let spelled = Value::Map(vec![
        (bytes(b"white"), bytes(&params.white)),
        (text("black"), bytes(&params.black)),
        (bytes(b"\xff"), text("teal")),
        (Value::Tag(5, Box::new(bytes(b"nonce"))), bytes(&params.nonce)),
    ]);
    assert_eq!(GameParams::decode(&written(&spelled)), Some(params.clone()));
    let twice = Value::Map(vec![
        (bytes(b"white"), bytes(&params.white)),
        (text("white"), bytes(&params.white)),
        (text("black"), bytes(&params.black)),
        (text("nonce"), bytes(&params.nonce)),
    ]);
    assert_eq!(GameParams::decode(&written(&twice)), None);
    let numbered = Value::Map(vec![
        (number(1), text("teal")),
        (text("white"), bytes(&params.white)),
        (text("black"), bytes(&params.black)),
        (text("nonce"), bytes(&params.nonce)),
    ]);
    assert_eq!(GameParams::decode(&written(&numbered)), None);
}

#[test]
fn a_variant_may_be_named_by_its_bytes_and_hold_an_array() {
    let fields = Value::Array(vec![text("g"), bytes(&[6u8; 32])]);
    let rebind = Request::Rebind {
        label: "g".into(),
        contract: [6u8; 32],
    };
    let spelled = Value::Map(vec![(bytes(b"Rebind"), fields.clone())]);
    assert_eq!(Request::decode(&written(&spelled)), Ok(rebind));
    let tagged = table(vec![("Rebind", Value::Tag(5, Box::new(fields)))]);
    assert!(Request::decode(&written(&tagged)).is_err());
    let short = table(vec![("Rebind", Value::Array(vec![text("g")]))]);
    assert!(Request::decode(&written(&short)).is_err());
    let unnamed = Value::Map(vec![(bytes(b"\xff"), Value::Null)]);
    assert!(Request::decode(&written(&unnamed)).is_err());
    assert!(Request::decode(&written(&bytes(b"ListGames"))).is_err());
}

#[test]
fn what_goes_with_a_bare_variant_is_passed_over() {
    let list = table(vec![("ListGames", number(1))]);
    assert_eq!(Request::decode(&written(&list)), Ok(Request::ListGames));
    let refused = table(vec![("Refused", table(vec![("NoEntropy", Value::Null)]))]);
    assert_eq!(
        Response::decode(&written(&refused)),
        Ok(Response::Refused(Refusal::NoEntropy))
    );
    let quality = table(vec![("HostBacked", Value::Null)]);
    assert_eq!(
        EntropyQuality::decode(&written(&quality)),
        Some(EntropyQuality::HostBacked)
    );
}

#[test]
fn the_game_id_and_the_genesis_are_domain_separated_digests() {
    let (_, _, params) = keys();
    let id = sha(&[
        b"adjourn-v1/game",
        &params.white,
        &params.black,
        &params.nonce,
    ]);
    assert_eq!(params.game_id(), id);
    assert_eq!(params.genesis(), sha(&[b"adjourn-v1/genesis", &id]));
}

#[test]
fn a_record_is_signed_over_the_game_and_the_body() {
    let (w, _, params) = keys();
    let body = a_move(&params);
    let encoded = written(&move_value(1, &params.genesis(), "e2e4"));
    let mut payload = b"adjourn-v1/sig".to_vec();
    payload.extend_from_slice(&params.game_id());
    payload.extend_from_slice(&encoded);
    assert_eq!(signing_payload(&params.game_id(), &body), payload);

    let rec = Record::sign(&w, &params, body.clone());
    assert_eq!(rec.sig, w.sign(&payload).to_bytes().to_vec());
    assert_eq!(rec.signer, w.verifying_key().to_bytes());
    assert_eq!(
        rec.id(),
        sha(&[b"adjourn-v1/rec", &rec.signer, &encoded])
    );
    assert_eq!(
        rec.sig_digest(),
        sha(&[b"adjourn-v1/sigdigest", &rec.sig])
    );
    assert_ne!(body_hash(&body), rec.id());
}

#[test]
fn a_state_is_an_array_of_records() {
    let (w, _, params) = keys();
    let mut state = GameState::empty();
    let rec = make_move(&state, &params, &w, "e2e4").unwrap();
    assert!(state.insert_verified(&rec, &params));
    let record = table(vec![
        ("b", move_value(1, &params.genesis(), "e2e4")),
        ("k", bytes(&rec.signer)),
        ("s", bytes(&rec.sig)),
    ]);
    assert_eq!(state.encode(), written(&Value::Array(vec![record])));
    assert_eq!(encode_delta(&vec![rec.clone()]), state.encode());
    assert_eq!(decode_delta(&state.encode()), Some(vec![rec.clone()]));
    assert_eq!(decode_delta(&[0xff]), None);

    let summary = state.summarize();
    let mut packed = rec.id().to_vec();
    packed.extend_from_slice(&rec.sig_digest());
    assert_eq!(summary.encode(), written(&bytes(&packed)));
    assert_eq!(summary.get(&rec.id()), Some(&rec.sig_digest()));
    assert!(!summary.contains_key(&params.genesis()));
    assert_eq!(Summary::decode(&[0xff]), None);
}

#[test]
fn a_state_comes_in_the_order_of_its_ids() {
    let (w, b, params) = keys();
    let mut state = GameState::empty();
    for (i, uci) in ["e2e4", "e7e5", "g1f3", "b8c6", "f1c4"].iter().enumerate() {
        let key = if i % 2 == 0 { &w } else { &b };
        let rec = make_move(&state, &params, key, uci).unwrap();
        state.insert_verified(&rec, &params);
    }
    let ids = state.records.keys();
    assert_eq!(ids.len(), 5);
    assert!(ids.windows(2).all(|pair| pair[0] < pair[1]));
    let listed: Vec<[u8; 32]> = state.records.values().iter().map(|r| r.id()).collect();
    assert_eq!(listed, ids);
}

#[test]
fn every_request_reads_back() {
    let (_, _, params) = keys();
    for request in [
        Request::CreateGameKey {
            label: "a".into(),
            caller_entropy: Some([9u8; 32]),
        },
        Request::CreateGameKey {
            label: "a".into(),
            caller_entropy: None,
        },
        Request::BindGame {
            label: "a".into(),
            params: params.clone(),
            contract: [5u8; 32],
        },
        Request::Rebind {
            label: "a".into(),
            contract: [6u8; 32],
        },
        Request::Sign {
            game_id: [7u8; 32],
            body: Body::DrawClaim {
                ply: 4,
                at: [8u8; 32],
            },
        },
        Request::ListGames,
    ] {
        assert_eq!(Request::decode(&request.encode()), Ok(request));
    }
    assert_eq!(Request::ListGames.encode(), written(&text("ListGames")));
    assert_eq!(
        Request::Rebind {
            label: "a".into(),
            contract: [6u8; 32]
        }
        .encode(),
        written(&table(vec![(
            "Rebind",
            table(vec![("label", text("a")), ("contract", bytes(&[6u8; 32]))])
        )]))
    );
}

#[test]
fn every_response_reads_back() {
    let (w, _, params) = keys();
    let record = Record::sign(&w, &params, Body::Resign);
    for response in [
        Response::GameKey {
            label: "a".into(),
            public_key: [1u8; 32],
            entropy: EntropyQuality::HostBacked,
        },
        Response::Bound { game_id: [2u8; 32] },
        Response::Signed { record },
        Response::Games(vec![
            GameSummary {
                label: "a".into(),
                public_key: [1u8; 32],
                game_id: None,
                side: None,
                last_signed_ply: 0,
                entropy: None,
                params: None,
                contract: None,
                previous: None,
            },
            GameSummary {
                label: "b".into(),
                public_key: [1u8; 32],
                game_id: Some(params.game_id()),
                side: Some(Side::Black),
                last_signed_ply: 12,
                entropy: Some(EntropyQuality::Degraded),
                params: Some(params.clone()),
                contract: Some([3u8; 32]),
                previous: Some([4u8; 32]),
            },
        ]),
        Response::Refused(Refusal::NoEntropy),
    ] {
        assert_eq!(Response::decode(&response.encode()), Ok(response));
    }
}

fn every_refusal() -> Vec<(Refusal, &'static str)> {
    vec![
        (Refusal::UnknownLabel, "no key exists for that label"),
        (Refusal::LabelExists, "a key already exists for that label"),
        (Refusal::UnknownGame, "no game is bound to that label"),
        (
            Refusal::AlreadyBound { game_id: [1u8; 32] },
            "that label is already bound to a different game",
        ),
        (
            Refusal::KeyNotInParams,
            "this key is not one of the two players named in the game's parameters",
        ),
        (
            Refusal::WrongSide {
                ours: Side::White,
                ply_needs: Side::Black,
            },
            "it is Black's turn, but this key plays White",
        ),
        (
            Refusal::PlyAlreadySigned { ply: 7 },
            "you have already signed a different move at ply 7; re-send the identical move, or wait for your opponent",
        ),
        (
            Refusal::PlyOutOfRange {
                ply: 5000,
                max: 4096,
            },
            "ply 5000 is past the maximum of 4096; no valid record can carry it",
        ),
        (
            Refusal::WrongOrigin,
            "this game was bound by a different caller",
        ),
        (
            Refusal::NoEntropy,
            "no entropy source is available to generate a key",
        ),
        (
            Refusal::StaleRecordFormat {
                found: 9,
                expected: 3,
            },
            "the stored record is format 9, but this delegate speaks format 3",
        ),
        (
            Refusal::Malformed("too short".into()),
            "malformed request: too short",
        ),
        (Refusal::StoreFailed, "the secret store rejected the write"),
        (
            Refusal::IllegalMove,
            "that move is illegal in the current position",
        ),
    ]
}

#[test]
fn every_refusal_reads_back_and_reads_as_a_sentence() {
    for (refusal, words) in every_refusal() {
        assert_eq!(refusal.message(), words);
        let response = Response::Refused(refusal);
        assert_eq!(Response::decode(&response.encode()), Ok(response));
    }
}

#[test]
fn an_invite_is_the_base58_of_a_table() {
    let invite = Invite::new(Side::Black, [3u8; 32], [9u8; 16]);
    let expected = table(vec![
        ("v", number(1)),
        ("side", text("Black")),
        ("public_key", bytes(&[3u8; 32])),
        ("nonce", bytes(&[9u8; 16])),
    ]);
    assert_eq!(
        invite.encode(),
        bs58::encode(written(&expected)).into_string()
    );
    let offer = GameOffer::new(keys().2, [4u8; 32]);
    let expected = table(vec![
        ("v", number(1)),
        ("params", params_value(&offer.params)),
        ("contract", bytes(&[4u8; 32])),
    ]);
    assert_eq!(
        offer.encode(),
        bs58::encode(written(&expected)).into_string()
    );
}

#[test]
fn spaces_around_a_blob_are_ignored() {
    let invite = Invite::new(Side::White, [3u8; 32], [9u8; 16]);
    let padded = format!(" \t\n{}\u{a0}\u{2003}\r\n", invite.encode());
    assert_eq!(Invite::decode(&padded), Ok(invite));
}

#[test]
fn every_blob_error_is_told_apart() {
    let mut invite = Invite::new(Side::White, [3u8; 32], [9u8; 16]);
    invite.v = INVITE_FORMAT + 1;
    let newer = Invite::decode(&invite.encode()).unwrap_err();
    assert_eq!(
        newer,
        InviteError::Version {
            found: 2,
            expected: 1
        }
    );
    assert_eq!(newer.message(), "blob is format 2, this build speaks 1");
    let spelling = Invite::decode("0OIl").unwrap_err();
    assert_eq!(spelling, InviteError::Base58);
    assert_eq!(spelling.message(), "not valid base58");
    let offer = GameOffer::new(keys().2, [4u8; 32]);
    let other = Invite::decode(&offer.encode()).unwrap_err();
    assert_eq!(other, InviteError::Malformed);
    assert_eq!(other.message(), "not a valid blob");
    assert_eq!(Invite::decode("").unwrap_err(), InviteError::Malformed);
}

#[test]
fn a_seed_mixes_all_that_goes_into_it() {
    let (seed, quality) =
        derive_seed(HostEntropy::Live([2u8; 32]), Some([1u8; 32]), "g1").expect("seed");
    assert_eq!(quality, EntropyQuality::HostBacked);
    assert_eq!(
        seed,
        sha(&[
            b"adjourn-v1/keygen",
            &[2u8; 32],
            &[1u8; 32],
            &2u32.to_le_bytes(),
            b"g1"
        ])
    );
}

#[test]
fn the_contract_names_what_it_cannot_read() {
    let (_, _, params) = keys();
    let raw = params.encode();
    let junk: &[u8] = &[0xff];
    assert!(matches!(
        Contract::validate_state(junk, &GameState::empty().encode()),
        Err(ContractError::Deser(_))
    ));
    // A state of no bytes is valid before the parameters are looked at.
    assert_eq!(
        Contract::validate_state(junk, &[]),
        Ok(ValidateResult::Valid)
    );
    assert!(matches!(
        Contract::validate_state(&raw, junk),
        Err(ContractError::Deser(_))
    ));
    assert!(matches!(
        Contract::summarize_state(&raw, junk),
        Err(ContractError::Deser(_))
    ));
    assert!(matches!(
        Contract::get_state_delta(&raw, &[], junk),
        Err(ContractError::Deser(_))
    ));
    assert!(matches!(
        Contract::update_state(&raw, &[], &vec![UpdateData::Delta(junk.to_vec())]),
        Err(ContractError::Deser(_))
    ));
    assert!(matches!(
        Contract::update_state(&raw, &[], &vec![UpdateData::State(junk.to_vec())]),
        Err(ContractError::Deser(_))
    ));
    assert_eq!(
        Contract::update_state(&raw, &[], &vec![UpdateData::Unknown]),
        Err(ContractError::InvalidUpdate)
    );
    assert_eq!(
        Contract::update_state(&raw, &[], &vec![UpdateData::Related]),
        Ok(GameState::empty().encode())
    );
}

#[test]
fn a_forged_state_is_refused_as_an_update() {
    let (w, _, params) = keys();
    let mut forged = GameState::empty();
    forged.absorb_for_test(&Record {
        body: a_move(&params),
        signer: w.verifying_key().to_bytes(),
        sig: vec![0u8; 64],
    });
    assert!(matches!(
        Contract::update_state(
            &params.encode(),
            &[],
            &vec![UpdateData::State(forged.encode())]
        ),
        Err(ContractError::InvalidUpdateWithInfo { .. })
    ));
}

#[test]
fn both_halves_of_an_update_are_taken_in() {
    let (w, b, params) = keys();
    let mut first = GameState::empty();
    let e4 = make_move(&first, &params, &w, "e2e4").unwrap();
    first.insert_verified(&e4, &params);
    let e5 = make_move(&first, &params, &b, "e7e5").unwrap();
    let after = Contract::update_state(
        &params.encode(),
        &[],
        &vec![UpdateData::StateAndDelta {
            state: first.encode(),
            delta: encode_delta(&vec![e5.clone()]),
        }],
    )
    .expect("update");
    let mut both = first.clone();
    both.insert_verified(&e5, &params);
    assert_eq!(after, both.encode());
}

#[test]
fn an_older_game_record_keeps_its_guard() {
    let (_, _, params) = keys();
    let old = table(vec![
        ("v", number(2)),
        ("label", text("g1")),
        ("params", params_value(&params)),
        ("side", text("White")),
        ("origin", Value::Null),
        ("contract", bytes(&[5u8; 32])),
        ("entropy", text("HostBacked")),
        ("last_signed_ply", number(41)),
        ("last_move_body_hash", bytes(&[6u8; 32])),
    ]);
    let rec = GameRecord::decode(&written(&old)).expect("an older layout decodes");
    assert_eq!(rec.format, 2);
    let now = adjourn::delegate_policy::migrate_record(rec).expect("and is brought up to date");
    assert_eq!(now.format, adjourn::delegate_policy::GAME_RECORD_FORMAT);
    assert_eq!(now.last_signed_ply, 41);
    assert_eq!(now.last_move_body_hash, [6u8; 32]);
    assert_eq!(now.previous, None);
    let mut unknown = now.clone();
    unknown.format = 1;
    assert_eq!(adjourn::delegate_policy::migrate_record(unknown), None);
}

#[test]
fn an_empty_byte_string_is_an_empty_list() {
    let (_, _, params) = keys();
    let raw = params.encode();
    for empty in [&[0x40u8][..], &[0x5f, 0xff], &[0x5f, 0x40, 0xff], &[0xc5, 0x40]] {
        assert_eq!(GameState::decode(empty), Some(GameState::empty()));
        assert_eq!(decode_delta(empty), Some(Vec::new()));
        assert_eq!(
            Contract::validate_state(&raw, empty),
            Ok(ValidateResult::Valid)
        );
        let listed = [&[0xa1, 0x65][..], b"Games", empty].concat();
        assert_eq!(Response::decode(&listed), Ok(Response::Games(Vec::new())));
    }
    assert_eq!(GameState::decode(&[0x41, 0x00]), None);
    assert_eq!(decode_delta(&[0x60]), None);
}

/// The parameters with each item written by hand.
fn params_by_hand(p: &GameParams, table: &[u8], white: &[u8], key: &[u8], end: &[u8]) -> Vec<u8> {
    [
        table,
        white,
        key,
        &[0x65],
        b"black",
        &[0x58, 32],
        &p.black,
        &[0x65],
        b"nonce",
        &[0x50],
        &p.nonce,
        end,
    ]
    .concat()
}

#[test]
fn what_comes_in_chunks_is_no_name_and_no_key() {
    let (_, _, params) = keys();
    let name = [&[0x65][..], b"white"].concat();
    let key = [&[0x58, 32][..], &params.white].concat();
    let whole = params_by_hand(&params, &[0xa3], &name, &key, &[]);
    assert_eq!(whole, params.encode());
    // The table may be left open, and an array of numbers may be too.
    let open = params_by_hand(&params, &[0xbf], &name, &key, &[0xff]);
    assert_eq!(GameParams::decode(&open), Some(params.clone()));
    let numbers: Vec<u8> = params
        .white
        .iter()
        .flat_map(|b| [0x18, *b])
        .collect();
    let array = [&[0x9f][..], &numbers, &[0xff]].concat();
    let counted = params_by_hand(&params, &[0xa3], &name, &array, &[]);
    assert_eq!(GameParams::decode(&counted), Some(params.clone()));
    // A name may not, nor a key.
    let chunked_name = [&[0x7f, 0x62][..], b"wh", &[0x63], b"ite", &[0xff]].concat();
    let named = params_by_hand(&params, &[0xa3], &chunked_name, &key, &[]);
    assert_eq!(GameParams::decode(&named), None);
    let chunked_key = [
        &[0x5f, 0x50][..],
        &params.white[..16],
        &[0x5f, 0x50],
        &params.white[16..],
        &[0xff, 0xff],
    ]
    .concat();
    let keyed = params_by_hand(&params, &[0xa3], &name, &chunked_key, &[]);
    assert_eq!(GameParams::decode(&keyed), None);
}

#[test]
fn what_comes_in_chunks_is_no_variant() {
    let whole = [&[0xa1, 0x69][..], b"ListGames", &[0xf6]].concat();
    assert_eq!(Request::decode(&whole), Ok(Request::ListGames));
    let open = [&[0xbf, 0x69][..], b"ListGames", &[0xf6, 0xff]].concat();
    assert!(Request::decode(&open).is_err());
    let named = [&[0xa1, 0x7f, 0x69][..], b"ListGames", &[0xff, 0xf6]].concat();
    assert!(Request::decode(&named).is_err());
    let alone = [&[0x7f, 0x69][..], b"ListGames", &[0xff]].concat();
    assert!(Request::decode(&alone).is_err());
    // The fields of a variant may come in a table that is left open, and a
    // label in chunks.
    let rebind = [
        &[0xa1, 0x66][..],
        b"Rebind",
        &[0xbf, 0x65],
        b"label",
        &[0x7f, 0x61],
        b"g",
        &[0x60, 0xff, 0x68],
        b"contract",
        &[0x58, 32],
        &[6u8; 32],
        &[0xff],
    ]
    .concat();
    assert_eq!(
        Request::decode(&rebind),
        Ok(Request::Rebind {
            label: "g".into(),
            contract: [6u8; 32],
        })
    );
}

#[test]
fn chunks_are_found_behind_numbers_of_every_size() {
    let (_, _, params) = keys();
    let fields = |extra: Value| {
        Value::Map(vec![
            (text("extra"), extra),
            (text("white"), bytes(&params.white)),
            (text("black"), bytes(&params.black)),
            (text("nonce"), bytes(&params.nonce)),
        ])
    };
    let long = "x".repeat(70_000);
    for extra in [
        number(23),
        number(24),
        number(256),
        number(65_536),
        number(4_294_967_296),
        Value::Integer((-1).into()),
        Value::Integer((-257).into()),
        Value::Float(1.5),
        Value::Bool(true),
        Value::Null,
        Value::Tag(2, Box::new(bytes(&[0, 1]))),
        Value::Tag(7, Box::new(Value::Array(vec![number(1), text("two")]))),
        text(&long),
        table(vec![("a", number(1)), ("b", bytes(&[0u8; 300]))]),
    ] {
        let raw = written(&fields(extra));
        assert_eq!(GameParams::decode(&raw), Some(params.clone()));
        // The same with the last name in one chunk.
        let at = raw.len() - 16 - 1 - 6;
        let mut chunked = raw[..at].to_vec();
        chunked.push(0x7f);
        chunked.extend_from_slice(&raw[at..at + 6]);
        chunked.push(0xff);
        chunked.extend_from_slice(&raw[at + 6..]);
        assert_eq!(GameParams::decode(&chunked), None);
    }
}

#[test]
fn a_name_is_not_too_long() {
    let (_, _, params) = keys();
    for (length, read) in [(4096, true), (4097, false)] {
        let name = "n".repeat(length);
        let value = table(vec![
            (name.as_str(), Value::Null),
            ("white", bytes(&params.white)),
            ("black", bytes(&params.black)),
            ("nonce", bytes(&params.nonce)),
        ]);
        assert_eq!(GameParams::decode(&written(&value)).is_some(), read);
    }
}

#[test]
fn the_words_of_the_decoder_are_passed_on() {
    let (_, _, params) = keys();
    let raw = params.encode();
    let cut = &raw[..raw.len() - 1];
    let words = ciborium::from_reader::<Value, _>(cut)
        .expect_err("cut short")
        .to_string();
    assert!(!words.is_empty());
    assert_eq!(
        Contract::validate_state(cut, &GameState::empty().encode()),
        Err(ContractError::Deser(words.clone()))
    );
    assert_eq!(
        Request::decode(cut),
        Err(Refusal::Malformed(words))
    );
    // Bytes that are CBOR, but of another kind.
    assert_eq!(
        Contract::validate_state(&raw, &raw),
        Err(ContractError::Deser("the state cannot be read".into()))
    );
}

#[test]
fn a_peer_that_sends_the_summary_itself_is_sent_nothing() {
    let (w, _, params) = keys();
    let raw = params.encode();
    let mut state = GameState::empty();
    let empty = Contract::summarize_state(&raw, &[]).unwrap();
    assert!(!empty.is_empty());
    assert_eq!(Contract::get_state_delta(&raw, &[], &empty), Ok(Vec::new()));
    let first = make_move(&state, &params, &w, "e2e4").unwrap();
    assert!(state.insert_verified(&first, &params));
    let stored = state.encode();
    let summary = Contract::summarize_state(&raw, &stored).unwrap();
    assert_eq!(
        Contract::get_state_delta(&raw, &stored, &summary),
        Ok(Vec::new())
    );
    assert!(!Contract::get_state_delta(&raw, &stored, &empty)
        .unwrap()
        .is_empty());
}
