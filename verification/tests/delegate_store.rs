//! The delegate against stores that fail, lie low, or belong to somebody else.

use adjourn::delegate::{handle, handle_create_game_key, handle_message, probe_host_entropy};
use adjourn::delegate_api::{EntropyQuality, GameSummary, Refusal, Request, Response};
use adjourn::delegate_policy::HostEntropy;
use adjourn::secrets::{
    game_secret, key_secret, list_labels, load_bound_game, load_game, load_owner, load_quality,
    load_seed, owner_secret, quality_secret, MemoryStore, SecretStore,
};
use adjourn::types::MAX_PLY;
use adjourn::{make_move, Body, GameParams, GameState};
use ed25519_dalek::SigningKey;

const CONTRACT: [u8; 32] = [5u8; 32];
const APP: [u8; 32] = [3u8; 32];

/// A store that rejects writes once it is full, and knows one contract.
struct Picky {
    inner: MemoryStore,
    writes_left: usize,
    contract: Option<Vec<u8>>,
}

impl SecretStore for Picky {
    fn get(&self, key: &[u8]) -> Option<Vec<u8>> {
        self.inner.get(key)
    }
    fn set(&mut self, key: &[u8], value: &[u8]) -> bool {
        if self.writes_left == 0 {
            return false;
        }
        self.writes_left -= 1;
        self.inner.set(key, value)
    }
    fn remove(&mut self, key: &[u8]) {
        self.inner.remove(key)
    }
    fn list(&self, prefix: &[u8]) -> Vec<Vec<u8>> {
        self.inner.list(prefix)
    }
    fn contract_state(&self, id: &[u8; 32]) -> Option<Vec<u8>> {
        if *id == CONTRACT {
            self.contract.clone()
        } else {
            None
        }
    }
}

fn create<S: SecretStore>(store: &mut S, origin: Option<[u8; 32]>, label: &str) -> Response {
    handle(
        store,
        origin,
        Request::CreateGameKey {
            label: label.into(),
            caller_entropy: Some([9u8; 32]),
        },
    )
}

fn key_of(response: Response) -> [u8; 32] {
    match response {
        Response::GameKey { public_key, .. } => public_key,
        other => panic!("expected a key, got {other:?}"),
    }
}

/// A store in which our key plays white against a stranger, and the game.
fn bound(store: &mut impl SecretStore, origin: Option<[u8; 32]>) -> GameParams {
    let white = key_of(create(store, origin, "g"));
    let params = GameParams {
        white,
        black: SigningKey::from_bytes(&[2u8; 32]).verifying_key().to_bytes(),
        nonce: [7u8; 16],
    };
    let response = handle(
        store,
        origin,
        Request::BindGame {
            label: "g".into(),
            params: params.clone(),
            contract: CONTRACT,
        },
    );
    assert_eq!(
        response,
        Response::Bound {
            game_id: params.game_id()
        }
    );
    params
}

fn first_move(params: &GameParams, uci: &str) -> Request {
    Request::Sign {
        game_id: params.game_id(),
        body: Body::Move {
            ply: 1,
            parent: params.genesis(),
            uci: uci.into(),
        },
    }
}

fn games(store: &mut impl SecretStore, origin: Option<[u8; 32]>) -> Vec<GameSummary> {
    match handle(store, origin, Request::ListGames) {
        Response::Games(games) => games,
        other => panic!("expected a list, got {other:?}"),
    }
}

#[test]
fn there_is_no_host_to_draw_from_here() {
    assert_eq!(probe_host_entropy(), HostEntropy::Dead);
}

#[test]
fn a_drawn_key_is_host_backed() {
    let mut store = MemoryStore::default();
    let response = handle_create_game_key(
        &mut store,
        Some(APP),
        "g".to_string(),
        None,
        HostEntropy::Live([8u8; 32]),
    );
    assert!(matches!(
        response,
        Response::GameKey {
            entropy: EntropyQuality::HostBacked,
            ..
        }
    ));
    assert_eq!(load_quality(&store, "g"), Some(EntropyQuality::HostBacked));
    assert_eq!(load_owner(&store, "g"), Some(APP));
    let seed = load_seed(&store, "g").expect("the seed is kept");
    let public = SigningKey::from_bytes(&seed).verifying_key().to_bytes();
    assert_eq!(key_of(response), public);
    assert_eq!(list_labels(&store), vec!["g".to_string()]);
}

#[test]
fn a_write_that_fails_is_refused() {
    let mut store = Picky {
        inner: MemoryStore::default(),
        writes_left: 0,
        contract: None,
    };
    assert_eq!(
        create(&mut store, None, "g"),
        Response::Refused(Refusal::StoreFailed)
    );
    assert_eq!(store.get(&key_secret("g")), None);
}

#[test]
fn a_key_that_cannot_be_written_in_full_leaves_nothing_behind() {
    for writes_left in 0..3 {
        let mut store = Picky {
            inner: MemoryStore::default(),
            writes_left,
            contract: None,
        };
        assert_eq!(
            create(&mut store, Some(APP), "g"),
            Response::Refused(Refusal::StoreFailed)
        );
        assert_eq!(store.get(&key_secret("g")), None);
        assert_eq!(store.get(&quality_secret("g")), None);
        assert_eq!(store.get(&owner_secret("g")), None);
        // The label is still free, also for another caller.
        store.writes_left = 2;
        key_of(create(&mut store, None, "g"));
        assert_eq!(load_owner(&store, "g"), None);
    }
}

#[test]
fn a_bind_that_cannot_be_written_in_full_keeps_the_record() {
    let mut store = Picky {
        inner: MemoryStore::default(),
        writes_left: 2,
        contract: None,
    };
    let white = key_of(create(&mut store, None, "g"));
    let params = GameParams {
        white,
        black: SigningKey::from_bytes(&[2u8; 32]).verifying_key().to_bytes(),
        nonce: [7u8; 16],
    };
    store.writes_left = 1;
    let request = Request::BindGame {
        label: "g".into(),
        params: params.clone(),
        contract: CONTRACT,
    };
    assert_eq!(
        handle(&mut store, None, request),
        Response::Refused(Refusal::StoreFailed)
    );
    assert!(store.get(&game_secret(&params.game_id())).is_some());
    assert!(load_game(&store, &params.game_id()).is_some());
    assert!(load_bound_game(&store, "g").is_none());
}

#[test]
fn labels_are_listed_once_and_in_order() {
    let mut store = MemoryStore::default();
    for label in ["zug", "abc", "\u{e9}t\u{e9}", "ab", "abc"] {
        create(&mut store, None, label);
    }
    create(&mut store, Some(APP), "aa");
    assert_eq!(list_labels(&store), ["aa", "ab", "abc", "zug", "\u{e9}t\u{e9}"]);
    let ours: Vec<String> = games(&mut store, None).into_iter().map(|g| g.label).collect();
    assert_eq!(ours, ["ab", "abc", "zug", "\u{e9}t\u{e9}"]);
    // What is no text is no label.
    assert!(store.set(b"chess/key/\xff", &[1u8; 32]));
    assert_eq!(list_labels(&store).len(), 5);
    store.remove(&key_secret("abc"));
    assert_eq!(list_labels(&store), ["aa", "ab", "zug", "\u{e9}t\u{e9}"]);
    store.remove(b"nothing here");
    assert_eq!(list_labels(&store).len(), 4);
}

#[test]
fn the_replica_of_the_contract_that_the_game_is_bound_to_is_consulted() {
    let mut store = Picky {
        inner: MemoryStore::default(),
        writes_left: 100,
        contract: Some(GameState::empty().encode()),
    };
    let params = bound(&mut store, None);
    let rebind = Request::Rebind {
        label: "g".into(),
        contract: [6u8; 32],
    };
    handle(&mut store, None, rebind);
    // The node holds nothing of the contract the game has moved to.
    assert!(matches!(
        handle(&mut store, None, first_move(&params, "e2e5")),
        Response::Signed { .. }
    ));
}

#[test]
fn nothing_is_signed_that_was_not_written_down_first() {
    let mut store = Picky {
        inner: MemoryStore::default(),
        writes_left: 100,
        contract: None,
    };
    let params = bound(&mut store, None);
    store.writes_left = 0;
    assert_eq!(
        handle(&mut store, None, first_move(&params, "e2e4")),
        Response::Refused(Refusal::StoreFailed)
    );
    let record = load_bound_game(&store, "g").expect("bound");
    assert_eq!(record.last_signed_ply, 0);
}

#[test]
fn a_replica_that_shows_a_move_to_be_illegal_stops_it() {
    let mut store = Picky {
        inner: MemoryStore::default(),
        writes_left: 100,
        contract: Some(GameState::empty().encode()),
    };
    let params = bound(&mut store, None);
    assert_eq!(
        handle(&mut store, None, first_move(&params, "e2e5")),
        Response::Refused(Refusal::IllegalMove)
    );
    assert!(matches!(
        handle(&mut store, None, first_move(&params, "e2e4")),
        Response::Signed { .. }
    ));
    // Without a replica the counter alone decides.
    let mut blind = MemoryStore::default();
    let params = bound(&mut blind, None);
    assert!(matches!(
        handle(&mut blind, None, first_move(&params, "e2e5")),
        Response::Signed { .. }
    ));
}

#[test]
fn a_replica_that_cannot_be_read_stops_nothing() {
    let mut store = Picky {
        inner: MemoryStore::default(),
        writes_left: 100,
        contract: Some(vec![0xff]),
    };
    let params = bound(&mut store, None);
    assert!(matches!(
        handle(&mut store, None, first_move(&params, "e2e5")),
        Response::Signed { .. }
    ));
}

#[test]
fn what_the_delegate_signs_verifies_and_plays() {
    let mut store = MemoryStore::default();
    let params = bound(&mut store, None);
    let Response::Signed { record } = handle(&mut store, None, first_move(&params, "e2e4")) else {
        panic!("expected a signature");
    };
    assert!(record.verify(&params));
    let mut state = GameState::empty();
    assert!(state.insert_verified(&record, &params));
    let seed = load_seed(&store, "g").unwrap();
    let by_hand = make_move(
        &GameState::empty(),
        &params,
        &SigningKey::from_bytes(&seed),
        "e2e4",
    )
    .unwrap();
    assert_eq!(record, by_hand);
    let Response::Signed { record: again } = handle(&mut store, None, first_move(&params, "e2e4"))
    else {
        panic!("a retry is answered");
    };
    assert_eq!(record, again);
}

#[test]
fn every_refusal_of_a_request_has_its_input() {
    let mut store = MemoryStore::default();
    let params = bound(&mut store, Some(APP));
    let refused = |store: &mut MemoryStore, origin, request| match handle(store, origin, request) {
        Response::Refused(r) => r,
        other => panic!("expected a refusal, got {other:?}"),
    };

    assert_eq!(
        refused(
            &mut store,
            Some(APP),
            Request::CreateGameKey {
                label: "g".into(),
                caller_entropy: Some([1u8; 32])
            }
        ),
        Refusal::LabelExists
    );
    assert_eq!(
        refused(
            &mut store,
            Some(APP),
            Request::BindGame {
                label: "nobody".into(),
                params: params.clone(),
                contract: CONTRACT
            }
        ),
        Refusal::UnknownLabel
    );
    let rematch = GameParams {
        nonce: [8u8; 16],
        ..params.clone()
    };
    assert_eq!(
        refused(
            &mut store,
            Some(APP),
            Request::BindGame {
                label: "g".into(),
                params: rematch,
                contract: CONTRACT
            }
        ),
        Refusal::AlreadyBound {
            game_id: params.game_id()
        }
    );
    assert_eq!(
        refused(
            &mut store,
            Some(APP),
            Request::Sign {
                game_id: [1u8; 32],
                body: Body::Resign
            }
        ),
        Refusal::UnknownGame
    );
    assert_eq!(
        refused(&mut store, None, first_move(&params, "e2e4")),
        Refusal::WrongOrigin
    );
    assert_eq!(
        refused(
            &mut store,
            Some(APP),
            Request::Sign {
                game_id: params.game_id(),
                body: Body::Move {
                    ply: MAX_PLY + 1,
                    parent: [0u8; 32],
                    uci: "e2e4".into()
                }
            }
        ),
        Refusal::PlyOutOfRange {
            ply: MAX_PLY + 1,
            max: MAX_PLY
        }
    );
    assert_eq!(
        refused(
            &mut store,
            Some(APP),
            Request::Rebind {
                label: "nobody".into(),
                contract: [6u8; 32]
            }
        ),
        Refusal::UnknownGame
    );
    assert_eq!(
        refused(
            &mut store,
            None,
            Request::Rebind {
                label: "g".into(),
                contract: [6u8; 32]
            }
        ),
        Refusal::WrongOrigin
    );
}

#[test]
fn rebinding_moves_the_game_and_keeps_the_counter() {
    let mut store = MemoryStore::default();
    let params = bound(&mut store, None);
    handle(&mut store, None, first_move(&params, "e2e4"));
    assert_eq!(
        handle(
            &mut store,
            None,
            Request::Rebind {
                label: "g".into(),
                contract: [6u8; 32]
            }
        ),
        Response::Bound {
            game_id: params.game_id()
        }
    );
    let listed = games(&mut store, None);
    assert_eq!(listed.len(), 1);
    assert_eq!(listed[0].contract, Some([6u8; 32]));
    assert_eq!(listed[0].previous, Some(CONTRACT));
    assert_eq!(listed[0].last_signed_ply, 1);
    assert_eq!(
        handle(&mut store, None, first_move(&params, "d2d4")),
        Response::Refused(Refusal::PlyAlreadySigned { ply: 1 })
    );
}

#[test]
fn each_caller_sees_only_their_own_labels() {
    let mut store = MemoryStore::default();
    create(&mut store, None, "ours");
    create(&mut store, Some(APP), "theirs");
    let ours: Vec<String> = games(&mut store, None).into_iter().map(|g| g.label).collect();
    let theirs: Vec<String> = games(&mut store, Some(APP))
        .into_iter()
        .map(|g| g.label)
        .collect();
    assert_eq!(ours, vec!["ours"]);
    assert_eq!(theirs, vec!["theirs"]);
}

#[test]
fn a_message_is_answered_in_bytes() {
    let mut store = MemoryStore::default();
    let raw = handle_message(&mut store, None, &Request::ListGames.encode());
    assert_eq!(Response::decode(&raw), Ok(Response::Games(Vec::new())));
    let raw = handle_message(&mut store, None, &[0xff]);
    assert!(matches!(
        Response::decode(&raw),
        Ok(Response::Refused(Refusal::Malformed(_)))
    ));
}
