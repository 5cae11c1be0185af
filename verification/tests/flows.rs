//! The flows of a client, run against a node in memory: the contract and the
//! delegate are the library's own, the state of the contracts is shared, and
//! the secrets of each player are private.

use adjourn::command::{Order, DEGRADED_WARNING};
use adjourn::contract::{Contract, UpdateData};
use adjourn::delegate::handle;
use adjourn::delegate_api::{GameSummary, Request, Response, Side};
use adjourn::flow::{
    draw_accept, draw_claim, draw_offer, game_bind, invite_accept, invite_new, migrate_label,
    open_game_view, play_move, resign, sign_move_at_ply, watch_label, Action, Event, Flow, Outcome,
    SKEW_WARNING,
};
use adjourn::invite::{GameOffer, Invite};
use adjourn::panel::{Cmd, Job, Panel};
use adjourn::screen::offers_migration;
use adjourn::secrets::{MemoryStore, SecretStore};
use adjourn::session::{
    contract_id, moves_in_order, opponent_moved_on_previous, GameView, MigrateOutcome,
    SessionError,
};
use adjourn::state::decode_delta;
use adjourn::types::Color;
use adjourn::{project, Body, GameParams, GameState, KeyBytes, Reason, Record, Status};
use ed25519_dalek::SigningKey;
use std::cell::RefCell;
use std::collections::BTreeMap;
use std::rc::Rc;

// ---------------------------------------------------------------------------
// A node in memory.
// ---------------------------------------------------------------------------

/// What every node sees: the contracts, and the writes to them in order.
#[derive(Default)]
struct World {
    contracts: BTreeMap<[u8; 32], (Vec<u8>, Vec<u8>)>,
    log: Vec<([u8; 32], Logged)>,
}

#[derive(Clone)]
enum Logged {
    State(Vec<u8>),
    Delta(Vec<u8>),
}

type Shared = Rc<RefCell<World>>;

fn shared_world() -> Shared {
    Rc::new(RefCell::new(World::default()))
}

/// The secrets of one player, and a view of the contracts.
struct Store {
    secrets: MemoryStore,
    world: Shared,
}

impl SecretStore for Store {
    fn get(&self, key: &[u8]) -> Option<Vec<u8>> {
        self.secrets.get(key)
    }
    fn set(&mut self, key: &[u8], value: &[u8]) -> bool {
        self.secrets.set(key, value)
    }
    fn remove(&mut self, key: &[u8]) {
        self.secrets.remove(key)
    }
    fn list(&self, prefix: &[u8]) -> Vec<Vec<u8>> {
        self.secrets.list(prefix)
    }
    fn contract_state(&self, id: &[u8; 32]) -> Option<Vec<u8>> {
        let world = self.world.borrow();
        world.contracts.get(id).map(|(_, state)| state.clone())
    }
}

struct FakeNode {
    world: Shared,
    store: Store,
    /// From which write on each contract is followed.
    subscribed: BTreeMap<[u8; 32], usize>,
    cursor: usize,
    fail_put: bool,
}

impl FakeNode {
    fn new(world: Shared) -> FakeNode {
        FakeNode {
            store: Store {
                secrets: MemoryStore::default(),
                world: world.clone(),
            },
            world,
            subscribed: BTreeMap::new(),
            cursor: 0,
            fail_put: false,
        }
    }

    fn put_raw(&mut self, id: [u8; 32], state: Vec<u8>) {
        self.world
            .borrow_mut()
            .contracts
            .insert(id, (Vec::new(), state));
    }

    fn fail_next_put(&mut self) {
        self.fail_put = true;
    }

    fn get(&mut self, id: [u8; 32], subscribe: bool) -> Option<Vec<u8>> {
        let world = self.world.borrow();
        if subscribe {
            self.subscribed.entry(id).or_insert(world.log.len());
        }
        world.contracts.get(&id).map(|(_, state)| state.clone())
    }

    fn put(&mut self, id: [u8; 32], params: Vec<u8>, state: Vec<u8>) -> Result<(), String> {
        if self.fail_put {
            self.fail_put = false;
            return Err("PUT contract: the node refused".to_string());
        }
        let mut world = self.world.borrow_mut();
        world.contracts.insert(id, (params, state.clone()));
        world.log.push((id, Logged::State(state)));
        Ok(())
    }

    fn update(&mut self, id: [u8; 32], delta: Vec<u8>) -> Result<(), String> {
        let held = self.world.borrow().contracts.get(&id).cloned();
        let (params, current) = held.ok_or("UPDATE contract: no such contract")?;
        let next = Contract::update_state(
            &params,
            &current,
            &vec![UpdateData::Delta(delta.clone())],
        )
        .map_err(|e| format!("UPDATE contract: {e:?}"))?;
        let mut world = self.world.borrow_mut();
        world.contracts.insert(id, (params, next));
        world.log.push((id, Logged::Delta(delta)));
        Ok(())
    }

    fn delegate(&mut self, request: Request) -> Response {
        handle(&mut self.store, None, request)
    }

    fn next_update(&mut self) -> Option<([u8; 32], UpdateData)> {
        let world = self.world.borrow();
        while self.cursor < world.log.len() {
            let at = self.cursor;
            self.cursor += 1;
            let (id, logged) = &world.log[at];
            if self.subscribed.get(id).is_some_and(|from| at >= *from) {
                return Some((
                    *id,
                    match logged {
                        Logged::State(bytes) => UpdateData::State(bytes.clone()),
                        Logged::Delta(bytes) => UpdateData::Delta(bytes.clone()),
                    },
                ));
            }
        }
        None
    }
}

// ---------------------------------------------------------------------------
// Running a flow.
// ---------------------------------------------------------------------------

#[derive(Debug)]
enum Failure {
    Session(SessionError),
    Transport(String),
}

impl Failure {
    fn message(&self) -> String {
        match self {
            Failure::Session(e) => e.message(),
            Failure::Transport(why) => why.clone(),
        }
    }
}

fn run_with(
    node: &mut FakeNode,
    wasm: &[u8],
    start: (Flow, Action),
    mut on_status: impl FnMut(&GameState, &Status),
    mut on_skew: impl FnMut(&str),
) -> Result<Outcome, Failure> {
    let (mut flow, mut action) = start;
    loop {
        let event = match action {
            Action::Ask(request) => Event::Answer(node.delegate(request)),
            Action::Get {
                contract,
                subscribe,
            } => Event::Got(node.get(contract, subscribe)),
            Action::Put { params, bytes } => {
                node.put(contract_id(wasm, &params), params.encode(), bytes)
                    .map_err(Failure::Transport)?;
                Event::Acknowledged
            }
            Action::Update { params, delta } => {
                node.update(contract_id(wasm, &params), delta)
                    .map_err(Failure::Transport)?;
                Event::Acknowledged
            }
            Action::Report { state, status } => {
                on_status(&state, &status);
                Event::Acknowledged
            }
            Action::Skew => {
                on_skew(SKEW_WARNING);
                Event::Acknowledged
            }
            Action::Next => Event::Notified(node.next_update()),
            Action::Done(outcome) => return Ok(outcome),
            Action::Fail(e) => return Err(Failure::Session(e)),
        };
        (flow, action) = flow.step(event, wasm);
    }
}

fn run(node: &mut FakeNode, wasm: &[u8], start: (Flow, Action)) -> Result<Outcome, Failure> {
    run_with(node, wasm, start, |_, _| {}, |_| {})
}

fn invited(node: &mut FakeNode, label: &str, side: Side, entropy: [u8; 32], nonce: [u8; 16]) -> Invite {
    match run(node, &[], invite_new(label, side, entropy, nonce)) {
        Ok(Outcome::Invited(invite)) => invite,
        other => panic!("expected an invite, got {other:?}"),
    }
}

fn accepted(
    node: &mut FakeNode,
    label: &str,
    invite: &Invite,
    wasm: &[u8],
    entropy: [u8; 32],
) -> GameOffer {
    match run(node, wasm, invite_accept(label, invite, entropy)) {
        Ok(Outcome::Offered(offer)) => offer,
        other => panic!("expected an offer, got {other:?}"),
    }
}

fn bound(
    node: &mut FakeNode,
    label: &str,
    offer: &GameOffer,
    wasm: &[u8],
) -> Result<[u8; 32], Failure> {
    match run(node, wasm, game_bind(label, offer, wasm))? {
        Outcome::Bound(id) => Ok(id),
        other => panic!("expected a contract, got {other:?}"),
    }
}

fn moved(result: Result<Outcome, Failure>) -> Result<Status, Failure> {
    match result? {
        Outcome::Moved(status) => Ok(status),
        other => panic!("expected a status, got {other:?}"),
    }
}

fn plays(node: &mut FakeNode, label: &str, uci: &str, wasm: &[u8]) -> Result<Status, Failure> {
    moved(run(node, wasm, play_move(label, uci)))
}

fn opened(node: &mut FakeNode, label: &str, wasm: &[u8]) -> Result<GameView, Failure> {
    match run(node, wasm, open_game_view(label))? {
        Outcome::Opened(view) => Ok(view),
        other => panic!("expected a game, got {other:?}"),
    }
}

fn shown(node: &mut FakeNode, label: &str, wasm: &[u8]) -> Status {
    opened(node, label, wasm).unwrap().status
}

fn migrated(node: &mut FakeNode, label: &str, wasm: &[u8]) -> Result<MigrateOutcome, Failure> {
    match run(node, wasm, migrate_label(label))? {
        Outcome::Migrated(outcome) => Ok(outcome),
        other => panic!("expected a migration, got {other:?}"),
    }
}

fn summary_of(node: &mut FakeNode, label: &str) -> GameSummary {
    let Response::Games(games) = node.delegate(Request::ListGames) else {
        panic!("expected a games list");
    };
    games
        .into_iter()
        .find(|g| g.label == label)
        .expect("label has a key")
}

const ALICE_ENTROPY: [u8; 32] = [0xa1; 32];
const BOB_ENTROPY: [u8; 32] = [0xb0; 32];
const NONCE: [u8; 16] = [0x5e; 16];

/// A build of the contract, as far as ids go.
fn contract_wasm() -> Vec<u8> {
    b"\0asm\x01\0\0\0 a build of the contract".to_vec()
}

/// Another build.
fn other_wasm() -> Vec<u8> {
    let mut variant = contract_wasm();
    variant.push(0);
    variant.push(0);
    variant.extend_from_slice(b"variant");
    variant
}

fn setup() -> (FakeNode, FakeNode, Vec<u8>) {
    let wasm = contract_wasm();
    let world = shared_world();
    let (mut alice, mut bob) = (FakeNode::new(world.clone()), FakeNode::new(world));
    let invite = invited(&mut alice, "alice", Side::White, ALICE_ENTROPY, NONCE);
    let offer = accepted(&mut bob, "bob", &invite, &wasm, BOB_ENTROPY);
    bound(&mut alice, "alice", &offer, &wasm).unwrap();
    (alice, bob, wasm)
}

// ---------------------------------------------------------------------------
// The node itself.
// ---------------------------------------------------------------------------

#[test]
fn the_fake_runs_the_real_delegate() {
    let mut node = FakeNode::new(shared_world());
    let resp = node.delegate(Request::CreateGameKey {
        label: "alice".into(),
        caller_entropy: Some([9u8; 32]),
    });
    assert!(matches!(resp, Response::GameKey { .. }));
}

#[test]
fn two_fakes_share_one_contract_world() {
    let world = shared_world();
    let mut a = FakeNode::new(world.clone());
    let mut b = FakeNode::new(world);
    let id = [1u8; 32];
    a.put_raw(id, b"hello".to_vec());
    assert_eq!(b.get(id, false).as_deref(), Some(&b"hello"[..]));
}

// ---------------------------------------------------------------------------
// Setting up.
// ---------------------------------------------------------------------------

#[test]
fn both_players_derive_the_same_contract() {
    let wasm = contract_wasm();
    let world = shared_world();
    let mut alice = FakeNode::new(world.clone());
    let mut bob = FakeNode::new(world);

    let invite = invited(&mut alice, "alice", Side::White, ALICE_ENTROPY, NONCE);
    let offer = accepted(&mut bob, "bob", &invite, &wasm, BOB_ENTROPY);
    let alice_id = bound(&mut alice, "alice", &offer, &wasm).unwrap();

    assert_eq!(
        alice_id, offer.contract,
        "the two sides derived different contracts; they would never meet"
    );
}

#[test]
fn a_build_mismatch_is_refused_loudly() {
    let wasm = contract_wasm();
    let world = shared_world();
    let mut alice = FakeNode::new(world.clone());
    let mut bob = FakeNode::new(world);

    let invite = invited(&mut alice, "alice", Side::White, ALICE_ENTROPY, NONCE);
    let mut offer = accepted(&mut bob, "bob", &invite, &wasm, BOB_ENTROPY);
    offer.contract[0] ^= 0xff;

    let err = bound(&mut alice, "alice", &offer, &wasm)
        .expect_err("a corrupted contract id must be refused");
    assert!(
        err.message().to_lowercase().contains("build"),
        "the error must name a build mismatch, got: {}",
        err.message()
    );
}

#[test]
fn an_inviter_who_takes_black_plays_black() {
    let wasm = contract_wasm();
    let world = shared_world();
    let (mut alice, mut bob) = (FakeNode::new(world.clone()), FakeNode::new(world));
    let invite = invited(&mut alice, "alice", Side::Black, ALICE_ENTROPY, NONCE);
    let offer = accepted(&mut bob, "bob", &invite, &wasm, BOB_ENTROPY);
    bound(&mut alice, "alice", &offer, &wasm).unwrap();

    assert_eq!(offer.params.black, invite.public_key);
    assert_eq!(offer.params.nonce, NONCE);
    assert_eq!(opened(&mut alice, "alice", &wasm).unwrap().side, Side::Black);
    assert_eq!(opened(&mut bob, "bob", &wasm).unwrap().side, Side::White);
    assert_eq!(plays(&mut bob, "bob", "e2e4", &wasm).unwrap().ply, 1);
}

#[test]
fn a_second_key_under_a_label_is_refused() {
    let mut alice = FakeNode::new(shared_world());
    invited(&mut alice, "alice", Side::White, ALICE_ENTROPY, NONCE);
    let err = run(
        &mut alice,
        &[],
        invite_new("alice", Side::White, BOB_ENTROPY, NONCE),
    )
    .expect_err("the label is taken");
    assert_eq!(
        err.message(),
        "delegate refused: a key already exists for that label"
    );
}

#[test]
fn joining_puts_a_contract_that_nobody_has() {
    let wasm = contract_wasm();
    let world = shared_world();
    let (mut alice, mut bob) = (FakeNode::new(world.clone()), FakeNode::new(world.clone()));
    let invite = invited(&mut alice, "alice", Side::White, ALICE_ENTROPY, NONCE);
    let offer = accepted(&mut bob, "bob", &invite, &wasm, BOB_ENTROPY);
    world.borrow_mut().contracts.clear();
    let id = bound(&mut alice, "alice", &offer, &wasm).unwrap();
    assert_eq!(alice.get(id, false), Some(Vec::new()));
}

// ---------------------------------------------------------------------------
// Moves.
// ---------------------------------------------------------------------------

#[test]
fn moves_a_move_is_visible_to_both_players() {
    let (mut alice, mut bob, wasm) = setup();

    let st = plays(&mut alice, "alice", "e2e4", &wasm).unwrap();
    assert_eq!(st.ply, 1);

    let seen = shown(&mut bob, "bob", &wasm);
    assert_eq!(seen.ply, 1, "black cannot see white's move");

    let st = plays(&mut bob, "bob", "e7e5", &wasm).unwrap();
    assert_eq!(st.ply, 2);
}

#[test]
fn moves_moving_out_of_turn_fails_before_signing() {
    let (mut alice, _bob, wasm) = setup();
    let err = plays(&mut alice, "alice", "e7e5", &wasm).expect_err("that is not white's move");
    let text = err.message().to_lowercase();
    assert!(
        text.contains("turn") || text.contains("legal"),
        "got: {}",
        err.message()
    );
}

#[test]
fn moves_a_double_sign_attempt_is_refused_by_the_delegate() {
    let (mut alice, _bob, wasm) = setup();
    plays(&mut alice, "alice", "e2e4", &wasm).unwrap();

    let err = moved(run(&mut alice, &wasm, sign_move_at_ply("alice", 1, "d2d4")))
        .expect_err("the delegate must refuse a second move at ply 1");
    assert!(err.message().contains("ply 1"), "got: {}", err.message());
}

#[test]
fn draw_claim_refuses_when_there_is_no_ground_to_claim() {
    let (mut alice, _bob, wasm) = setup();

    let err = moved(run(&mut alice, &wasm, draw_claim("alice")))
        .expect_err("a fresh game has nothing to claim");
    let text = err.message().to_lowercase();
    assert!(text.contains("no draw to claim"), "got: {}", err.message());
}

#[test]
fn scholars_mate_end_to_end() {
    let wasm = contract_wasm();
    let world = shared_world();
    let (mut alice, mut bob) = (FakeNode::new(world.clone()), FakeNode::new(world));

    let invite = invited(&mut alice, "alice", Side::White, ALICE_ENTROPY, NONCE);
    let offer = accepted(&mut bob, "bob", &invite, &wasm, BOB_ENTROPY);
    let contract = bound(&mut alice, "alice", &offer, &wasm).unwrap();

    let moves = [
        ("e2e4", true),
        ("e7e5", false),
        ("f1c4", true),
        ("b8c6", false),
        ("d1h5", true),
        ("g8f6", false),
        ("h5f7", true),
    ];

    let mut last_status = None;
    for (ply, (uci, white_to_move)) in moves.iter().enumerate() {
        let ply = ply as u16 + 1;
        let status = if *white_to_move {
            plays(&mut alice, "alice", uci, &wasm).unwrap()
        } else {
            plays(&mut bob, "bob", uci, &wasm).unwrap()
        };
        assert_eq!(status.ply, ply, "mover did not land on the expected ply");

        let opponent_status = if *white_to_move {
            shown(&mut bob, "bob", &wasm)
        } else {
            shown(&mut alice, "alice", &wasm)
        };
        assert_eq!(
            opponent_status.ply, status.ply,
            "opponent did not see the move that was just signed"
        );

        last_status = Some(status);
    }

    let final_status = last_status.expect("moves is non-empty");
    let decision = final_status.decision.expect("Scholar's Mate ends the game");
    assert_eq!(decision.reason, Reason::Checkmate);
    assert_eq!(decision.winner, Some(Color::White));

    let alice_decision = shown(&mut alice, "alice", &wasm)
        .decision
        .expect("alice sees the mate");
    let bob_decision = shown(&mut bob, "bob", &wasm)
        .decision
        .expect("bob sees the mate");
    assert_eq!(alice_decision.reason, Reason::Checkmate);
    assert_eq!(alice_decision.winner, Some(Color::White));
    assert_eq!(bob_decision.reason, Reason::Checkmate);
    assert_eq!(bob_decision.winner, Some(Color::White));

    let alice_bytes = alice.get(contract, false).unwrap();
    let bob_bytes = bob.get(contract, false).unwrap();
    assert_eq!(
        alice_bytes, bob_bytes,
        "the two nodes did not converge on byte-identical contract state"
    );
    let alice_state = GameState::decode(&alice_bytes).expect("alice's state decodes");
    let bob_state = GameState::decode(&bob_bytes).expect("bob's state decodes");
    assert_eq!(alice_state.encode(), bob_state.encode());
}

#[test]
fn the_errors_before_signing_say_what_is_wrong() {
    let (mut alice, mut bob, wasm) = setup();

    let err = plays(&mut bob, "bob", "e7e5", &wasm).expect_err("white begins");
    assert_eq!(err.message(), "it is not your turn");
    let err = plays(&mut alice, "alice", "e2e5", &wasm).expect_err("no such move");
    assert_eq!(
        err.message(),
        "e2e5 is not a legal move in the current position"
    );
    let err = moved(run(&mut alice, &wasm, draw_accept("alice"))).expect_err("nobody offered");
    assert_eq!(
        err.message(),
        "no live draw offer from your opponent to accept"
    );
    let err = moved(run(&mut bob, &wasm, draw_claim("bob"))).expect_err("white is to move");
    assert_eq!(err.message(), "only the player to move may claim a draw");
    let err = moved(run(&mut alice, &wasm, draw_claim("alice"))).expect_err("no ground");
    assert_eq!(
        err.message(),
        "no draw to claim: 1 repetitions, 0 halfmoves since a capture or pawn move"
    );
    let err = moved(run(&mut alice, &wasm, sign_move_at_ply("alice", 5, "e2e4")))
        .expect_err("there is no ply 4");
    assert_eq!(err.message(), "no record at ply 4 to parent ply 5 on");
    let err = plays(&mut alice, "nobody", "e2e4", &wasm).expect_err("no such label");
    assert_eq!(err.message(), "no key exists for label \"nobody\"");

    moved(run(&mut bob, &wasm, resign("bob"))).unwrap();
    for start in [
        play_move("alice", "e2e4"),
        resign("alice"),
        draw_offer("alice"),
        draw_accept("alice"),
        draw_claim("alice"),
    ] {
        let err = run(&mut alice, &wasm, start).expect_err("black resigned");
        assert_eq!(err.message(), "the game is already over");
    }
}

#[test]
fn a_key_without_a_game_cannot_be_opened() {
    let mut alice = FakeNode::new(shared_world());
    invited(&mut alice, "a \"quoted\" label", Side::White, ALICE_ENTROPY, NONCE);
    let err = opened(&mut alice, "a \"quoted\" label", &contract_wasm()).expect_err("unbound");
    assert_eq!(
        err.message(),
        "label \"a \\\"quoted\\\" label\" has a key but no game bound yet"
    );
}

#[test]
fn an_offered_draw_is_agreed() {
    let (mut alice, mut bob, wasm) = setup();
    plays(&mut alice, "alice", "e2e4", &wasm).unwrap();
    let after = moved(run(&mut alice, &wasm, draw_offer("alice"))).unwrap();
    assert_eq!(after.decision, None);
    let after = moved(run(&mut bob, &wasm, draw_accept("bob"))).unwrap();
    let decision = after.decision.expect("the draw is agreed");
    assert_eq!(decision.reason, Reason::DrawAgreement);
    assert_eq!(decision.winner, None);
}

#[test]
fn a_threefold_repetition_is_claimed() {
    let (mut alice, mut bob, wasm) = setup();
    for _ in 0..2 {
        plays(&mut alice, "alice", "g1f3", &wasm).unwrap();
        plays(&mut bob, "bob", "g8f6", &wasm).unwrap();
        plays(&mut alice, "alice", "f3g1", &wasm).unwrap();
        plays(&mut bob, "bob", "f6g8", &wasm).unwrap();
    }
    let after = moved(run(&mut alice, &wasm, draw_claim("alice"))).unwrap();
    assert_eq!(
        after.decision.map(|d| d.reason),
        Some(Reason::ThreefoldClaim)
    );
}

#[test]
fn a_resignation_ends_the_game() {
    let (mut alice, _bob, wasm) = setup();
    let after = moved(run(&mut alice, &wasm, resign("alice"))).unwrap();
    let decision = after.decision.expect("white resigned");
    assert_eq!(decision.reason, Reason::Resignation);
    assert_eq!(decision.winner, Some(Color::Black));
}

#[test]
fn a_contract_that_holds_garbage_is_reported() {
    let (mut alice, _bob, wasm) = setup();
    let contract = summary_of(&mut alice, "alice").contract.unwrap();
    alice.put_raw(contract, vec![0xff, 0x00]);
    let err = opened(&mut alice, "alice", &wasm).expect_err("that is no state");
    assert_eq!(
        err.message(),
        "contract state did not decode as a GameState"
    );
}

// ---------------------------------------------------------------------------
// History.
// ---------------------------------------------------------------------------

fn viewed_after(moves: &[(bool, &str)]) -> GameView {
    let wasm = contract_wasm();
    let world = shared_world();
    let (mut alice, mut bob) = (FakeNode::new(world.clone()), FakeNode::new(world));
    let invite = invited(&mut alice, "alice", Side::White, [0xa1; 32], [0x11; 16]);
    let offer = accepted(&mut bob, "bob", &invite, &wasm, [0xb0; 32]);
    bound(&mut alice, "alice", &offer, &wasm).unwrap();
    for (is_alice, uci) in moves {
        if *is_alice {
            plays(&mut alice, "alice", uci, &wasm).unwrap();
        } else {
            plays(&mut bob, "bob", uci, &wasm).unwrap();
        }
    }
    opened(&mut alice, "alice", &wasm).unwrap()
}

#[test]
fn the_view_carries_the_moves_in_order() {
    let view = viewed_after(&[(true, "e2e4"), (false, "e7e5"), (true, "g1f3")]);
    assert_eq!(view.status.ply, 3);
    assert_eq!(view.side, Side::White);
    assert_eq!(
        moves_in_order(&view),
        vec!["e2e4", "e7e5", "g1f3"],
        "the history is the chain in order, not the record set's id order"
    );
}

#[test]
fn the_move_order_is_the_chain_not_the_map() {
    let view = viewed_after(&[
        (true, "e2e4"),
        (false, "e7e5"),
        (true, "g1f3"),
        (false, "b8c6"),
    ]);
    let by_map: Vec<String> = view
        .state
        .records
        .values()
        .into_iter()
        .filter_map(|r| match &r.body {
            Body::Move { uci, .. } => Some(uci.clone()),
            _ => None,
        })
        .collect();
    let by_chain = moves_in_order(&view);

    assert_eq!(by_chain, vec!["e2e4", "e7e5", "g1f3", "b8c6"]);
    assert_ne!(
        by_map, by_chain,
        "if these ever match, this fixture stopped proving anything -- pick \
         moves whose record ids sort differently from their play order"
    );
}

// ---------------------------------------------------------------------------
// Updates.
// ---------------------------------------------------------------------------

#[test]
fn a_move_reaches_the_other_peer_as_an_update() {
    let (mut alice, mut bob, wasm) = setup();

    let before = shown(&mut bob, "bob", &wasm);
    assert_eq!(before.ply, 0);

    let contract = summary_of(&mut bob, "bob").contract.unwrap();
    bob.get(contract, true);
    while bob.next_update().is_some() {}
    assert!(
        bob.next_update().is_none(),
        "quiescent before alice moves"
    );

    plays(&mut alice, "alice", "e2e4", &wasm).unwrap();

    let (id, update) = bob
        .next_update()
        .expect("alice's move must produce a notification");
    assert_eq!(id, contract, "names our game");

    let UpdateData::Delta(bytes) = update else {
        panic!("an update-originated notification carries the submitted Delta");
    };
    let delta = decode_delta(&bytes).expect("payload decodes as a Delta");
    let params = summary_of(&mut bob, "bob").params.unwrap();
    let mut carried = GameState::empty();
    carried.apply_delta(&delta, &params);
    let status = project(&carried, &params);
    assert_eq!(status.ply, 1, "the notification carries alice's move");

    let after = shown(&mut bob, "bob", &wasm);
    assert_eq!(after.ply, 1, "bob sees the move");
}

#[test]
fn next_update_is_empty_when_nothing_changed() {
    let (_alice, mut bob, wasm) = setup();
    let _ = shown(&mut bob, "bob", &wasm);
    while bob.next_update().is_some() {}
    assert!(
        bob.next_update().is_none(),
        "no write happened, so there is nothing to report"
    );
}

#[test]
fn watch_label_reports_the_opponents_move() {
    let (mut alice, mut bob, wasm) = setup();

    let contract = summary_of(&mut bob, "bob").contract.unwrap();
    bob.get(contract, true);
    plays(&mut alice, "alice", "e2e4", &wasm).unwrap();

    let mut seen = Vec::new();
    let outcome = run_with(
        &mut bob,
        &wasm,
        watch_label("bob"),
        |state, status| {
            for id in &status.chain {
                assert!(
                    state.records.contains_key(id),
                    "chain id {id:?} at ply {} is missing from the state passed \
                     alongside it -- the move history would silently drop it",
                    status.ply
                );
            }
            seen.push(status.ply);
        },
        |msg| panic!("unexpected skew signal on a game that never migrated: {msg}"),
    )
    .expect("watch runs to the end of the log");
    assert!(matches!(outcome, Outcome::Watched));

    assert!(
        seen.len() >= 2,
        "the opening projection plus at least one notification, got {seen:?}"
    );
    assert_eq!(
        seen.last().copied(),
        Some(1),
        "bob's last reported position includes alice's move, got {seen:?}"
    );
}

#[test]
fn watching_a_decided_game_ends_at_once() {
    let (mut alice, mut bob, wasm) = setup();
    moved(run(&mut alice, &wasm, resign("alice"))).unwrap();
    let mut seen = 0;
    let outcome = run_with(
        &mut bob,
        &wasm,
        watch_label("bob"),
        |_, status| {
            assert!(status.is_over());
            seen += 1;
        },
        |_| {},
    )
    .unwrap();
    assert!(matches!(outcome, Outcome::Watched));
    assert_eq!(seen, 1, "there is nothing to wait for");
    assert!(bob.subscribed.is_empty());
}

/// Follow a game up to the point where it waits for a notification.
fn waiting(node: &mut FakeNode, label: &str, wasm: &[u8]) -> Flow {
    let (mut flow, mut action) = watch_label(label);
    loop {
        let event = match action {
            Action::Ask(request) => Event::Answer(node.delegate(request)),
            Action::Get {
                contract,
                subscribe,
            } => Event::Got(node.get(contract, subscribe)),
            Action::Report { .. } => Event::Acknowledged,
            Action::Next => return flow,
            other => panic!("unexpected action {other:?}"),
        };
        (flow, action) = flow.step(event, wasm);
    }
}

#[test]
fn an_empty_notification_is_not_an_error() {
    let (_alice, mut bob, wasm) = setup();
    let contract = summary_of(&mut bob, "bob").contract.unwrap();
    for update in [
        UpdateData::State(Vec::new()),
        UpdateData::Delta(Vec::new()),
        UpdateData::StateAndDelta {
            state: Vec::new(),
            delta: Vec::new(),
        },
    ] {
        let flow = waiting(&mut bob, "bob", &wasm);
        let (_, action) = flow.step(Event::Notified(Some((contract, update))), &wasm);
        assert!(matches!(action, Action::Report { .. }), "got {action:?}");
    }
}

#[test]
fn an_unreadable_notification_is_reported() {
    let (_alice, mut bob, wasm) = setup();
    let contract = summary_of(&mut bob, "bob").contract.unwrap();
    let cut_short = ciborium::from_reader::<ciborium::Value, _>(&[0x81u8][..])
        .expect_err("cut short")
        .to_string();
    for (update, words) in [
        (
            UpdateData::State(vec![0xff]),
            "an update notification's State payload did not decode as a GameState".to_string(),
        ),
        (
            UpdateData::Delta(vec![0x81]),
            format!("an update notification's Delta payload did not decode: {cut_short}"),
        ),
    ] {
        let flow = waiting(&mut bob, "bob", &wasm);
        let (_, action) = flow.step(Event::Notified(Some((contract, update))), &wasm);
        match action {
            Action::Fail(e) => assert_eq!(e.message(), words),
            other => panic!("expected a failure, got {other:?}"),
        }
    }
}

#[test]
fn other_notifications_are_passed_over() {
    let (_alice, mut bob, wasm) = setup();
    let contract = summary_of(&mut bob, "bob").contract.unwrap();
    for notice in [
        ([9u8; 32], UpdateData::State(vec![0xff])),
        (contract, UpdateData::Related),
        (contract, UpdateData::Unknown),
    ] {
        let flow = waiting(&mut bob, "bob", &wasm);
        let (_, action) = flow.step(Event::Notified(Some(notice)), &wasm);
        assert!(matches!(action, Action::Next), "got {action:?}");
    }
}

#[test]
fn an_answer_out_of_step_ends_the_flow() {
    let wasm = contract_wasm();
    let (flow, _) = play_move("alice", "e2e4");
    let (flow, action) = flow.step(Event::Acknowledged, &wasm);
    assert!(matches!(flow, Flow::Finished));
    match action {
        Action::Fail(e) => assert_eq!(e.message(), "an answer arrived out of step"),
        other => panic!("expected a failure, got {other:?}"),
    }
}

#[test]
fn an_answer_to_another_question_is_named() {
    let (flow, _) = play_move("alice", "e2e4");
    let (_, action) = flow.step(
        Event::Answer(Response::Bound {
            game_id: [7u8; 32],
        }),
        &contract_wasm(),
    );
    match action {
        Action::Fail(e) => assert_eq!(e.message(), "unexpected response to ListGames"),
        other => panic!("expected a failure, got {other:?}"),
    }
}

// ---------------------------------------------------------------------------
// Migration.
// ---------------------------------------------------------------------------

fn fixture_two_keys() -> (KeyBytes, KeyBytes) {
    let ours = SigningKey::from_bytes(&[11u8; 32]);
    let theirs = SigningKey::from_bytes(&[22u8; 32]);
    (
        ours.verifying_key().to_bytes(),
        theirs.verifying_key().to_bytes(),
    )
}

fn state_with(entries: &[(KeyBytes, u16)]) -> GameState {
    let mut state = GameState::empty();
    for (signer, ply) in entries {
        let rec = Record {
            body: Body::Move {
                ply: *ply,
                parent: [0u8; 32],
                uci: "e2e4".to_string(),
            },
            signer: *signer,
            sig: vec![0u8; 64],
        };
        state.absorb_for_test(&rec);
    }
    state
}

#[test]
fn skew_is_a_set_difference_not_the_presence_of_opponent_records() {
    let (ours, theirs) = fixture_two_keys();
    let shared = state_with(&[(ours, 1), (theirs, 2)]);
    assert!(!opponent_moved_on_previous(&shared, &shared, &ours));

    let old_ahead = state_with(&[(ours, 1), (theirs, 2), (theirs, 4)]);
    assert!(opponent_moved_on_previous(&shared, &old_ahead, &ours));

    let ours_ahead = state_with(&[(ours, 1), (theirs, 2), (ours, 3)]);
    assert!(!opponent_moved_on_previous(&shared, &ours_ahead, &ours));
}

#[test]
fn a_failed_put_leaves_the_game_bound_to_the_old_contract() {
    let (mut alice, mut bob, wasm) = setup();
    let variant = other_wasm();

    plays(&mut alice, "alice", "e2e4", &wasm).unwrap();
    let before = opened(&mut bob, "bob", &wasm).unwrap();

    bob.fail_next_put();
    let err = migrated(&mut bob, "bob", &variant).expect_err("a failed PUT must fail the migration");
    assert!(
        err.message().to_lowercase().contains("put"),
        "got: {}",
        err.message()
    );

    assert_eq!(
        summary_of(&mut bob, "bob").contract,
        Some(before.contract),
        "the delegate must still point at the OLD contract after a failed PUT"
    );
}

#[test]
fn migrating_moves_a_game_to_the_new_contract_id() {
    let (mut alice, mut bob, wasm) = setup();
    let variant = other_wasm();

    plays(&mut alice, "alice", "e2e4", &wasm).unwrap();
    let before = opened(&mut bob, "bob", &wasm).unwrap();

    let outcome = migrated(&mut bob, "bob", &variant).unwrap();
    let MigrateOutcome::Migrated { from, to, records } = outcome else {
        panic!("expected Migrated, got {outcome:?}");
    };
    assert_eq!(from, before.contract);
    assert_ne!(to, before.contract, "the id must actually move");
    assert_eq!(
        records,
        before.state.records.len(),
        "every record must come across"
    );

    let after = opened(&mut bob, "bob", &variant).unwrap();
    assert_eq!(after.contract, to);
    assert_eq!(after.status.ply, before.status.ply);
}

#[test]
fn migrating_twice_is_a_no_op_the_second_time() {
    let (mut alice, mut bob, wasm) = setup();
    let variant = other_wasm();
    plays(&mut alice, "alice", "e2e4", &wasm).unwrap();

    migrated(&mut bob, "bob", &variant).unwrap();
    let second = migrated(&mut bob, "bob", &variant).unwrap();
    assert!(
        matches!(second, MigrateOutcome::AlreadyCurrent { .. }),
        "a second migrate must be a no-op, got {second:?}"
    );
}

#[test]
fn a_game_of_another_build_is_not_opened() {
    let (mut alice, _bob, wasm) = setup();
    let recorded = opened(&mut alice, "alice", &wasm).unwrap();
    let variant = other_wasm();
    let derived = contract_id(&variant, &recorded.params);
    let err = opened(&mut alice, "alice", &variant).expect_err("another build");
    assert_eq!(
        err.message(),
        format!(
            "build mismatch: this build derives contract {} from the bound params, \
             but the delegate recorded {}. Rebuild with the same adjourn-contract \
             version used when this game was bound, or run \
             `adjourn game migrate --label alice` to move this game onto \
             the contract this build derives.",
            bs58::encode(derived).into_string(),
            bs58::encode(recorded.contract).into_string(),
        )
    );
}

#[test]
fn a_game_whose_contract_is_gone_cannot_be_migrated() {
    let (mut alice, _bob, wasm) = setup();
    let recorded = opened(&mut alice, "alice", &wasm).unwrap().contract;
    alice.world.borrow_mut().contracts.clear();
    let err = migrated(&mut alice, "alice", &other_wasm()).expect_err("nothing to carry over");
    assert_eq!(
        err.message(),
        format!(
            "the previous contract {} is no longer on the network, so this game cannot be migrated",
            bs58::encode(recorded).into_string()
        )
    );
    alice.put_raw(recorded, vec![0xff]);
    let err = migrated(&mut alice, "alice", &other_wasm()).expect_err("unreadable");
    assert_eq!(
        err.message(),
        "the previous contract's state did not decode"
    );
}

#[test]
fn watch_label_survives_skew_against_an_unmigrated_opponent() {
    let (mut alice, mut bob, wasm) = setup();
    let variant = other_wasm();

    plays(&mut alice, "alice", "e2e4", &wasm).unwrap();
    plays(&mut bob, "bob", "e7e5", &wasm).unwrap();
    migrated(&mut bob, "bob", &variant).unwrap();
    plays(&mut alice, "alice", "g1f3", &wasm).unwrap();

    let mut seen = Vec::new();
    let mut skew_messages = Vec::new();
    run_with(
        &mut bob,
        &variant,
        watch_label("bob"),
        |_state, status| {
            seen.push(status.ply);
        },
        |msg| skew_messages.push(msg.to_string()),
    )
    .expect("a lagging opponent must not turn watch_label into an error");

    assert_eq!(
        seen,
        vec![2],
        "bob's own contract only ever saw the first two moves"
    );
    assert_eq!(
        skew_messages.len(),
        1,
        "the skew must be reported exactly once, got {skew_messages:?}"
    );

    let after = opened(&mut bob, "bob", &variant).unwrap();
    assert_eq!(after.status.ply, 2);
}

#[test]
fn watch_label_detects_skew_delivered_as_a_later_notification() {
    let (mut alice, mut bob, wasm) = setup();
    let variant = other_wasm();

    plays(&mut alice, "alice", "e2e4", &wasm).unwrap();
    plays(&mut bob, "bob", "e7e5", &wasm).unwrap();

    let outcome = migrated(&mut bob, "bob", &variant).unwrap();
    let MigrateOutcome::Migrated { to, .. } = outcome else {
        panic!("expected Migrated, got {outcome:?}");
    };
    bob.get(to, true);
    moved(run(&mut bob, &variant, draw_offer("bob"))).unwrap();

    let status_calls = Rc::new(RefCell::new(0usize));
    let skew_after = Rc::new(RefCell::new(None::<usize>));
    let mut injected = false;
    let status_calls_for_status = status_calls.clone();
    let status_calls_for_skew = status_calls.clone();
    let skew_after_for_skew = skew_after.clone();

    run_with(
        &mut bob,
        &variant,
        watch_label("bob"),
        move |_state, _status| {
            *status_calls_for_status.borrow_mut() += 1;
            let n = *status_calls_for_status.borrow();
            if n == 2 && !injected {
                injected = true;
                plays(&mut alice, "alice", "g1f3", &wasm)
                    .expect("alice can still play on the old contract");
            }
        },
        move |_msg: &str| {
            let n = *status_calls_for_skew.borrow();
            skew_after_for_skew.borrow_mut().get_or_insert(n);
        },
    )
    .expect("a lagging opponent must not turn watch_label into an error");

    assert_eq!(
        *skew_after.borrow(),
        Some(2),
        "the skew must be reported only after the loop processed a real notification"
    );
}

#[test]
fn a_contract_id_depends_on_the_build_and_on_the_game() {
    let params = GameParams {
        white: [1u8; 32],
        black: [2u8; 32],
        nonce: [7u8; 16],
    };
    let rematch = GameParams {
        nonce: [8u8; 16],
        ..params.clone()
    };
    let id = contract_id(&contract_wasm(), &params);
    assert_eq!(id, contract_id(&contract_wasm(), &params));
    assert_ne!(id, contract_id(&other_wasm(), &params));
    assert_ne!(id, contract_id(&contract_wasm(), &rematch));
}

// ---------------------------------------------------------------------------
// The commands of the command line.
// ---------------------------------------------------------------------------

fn obey(node: &mut FakeNode, order: Order, wasm: &[u8]) -> Result<Vec<String>, String> {
    let start = order.plan(ALICE_ENTROPY, NONCE, wasm)?;
    let outcome = run(node, wasm, start).map_err(|e| e.message())?;
    Ok(order.print(&outcome))
}

#[test]
fn a_game_is_set_up_and_played_by_commands() {
    let wasm = contract_wasm();
    let world = shared_world();
    let (mut alice, mut bob) = (FakeNode::new(world.clone()), FakeNode::new(world));

    let invite = obey(
        &mut alice,
        Order::InviteNew {
            label: "a".into(),
            side: Side::White,
        },
        &wasm,
    )
    .unwrap();
    assert_eq!(invite.len(), 1);
    // The two nodes are two delegates, so the same entropy makes one key only
    // under the same label.
    let offer = obey(
        &mut bob,
        Order::InviteAccept {
            label: "b".into(),
            invite: invite[0].clone(),
        },
        &wasm,
    )
    .unwrap();
    let lines = obey(
        &mut alice,
        Order::GameBind {
            label: "a".into(),
            offer: format!("  {}\n", offer[0]),
        },
        &wasm,
    )
    .unwrap();
    let contract = GameOffer::decode(&offer[0]).unwrap().contract;
    let spelled = bs58::encode(contract).into_string();
    assert_eq!(lines, vec![format!("a bound to contract {spelled}")]);

    let lines = obey(
        &mut alice,
        Order::Move {
            label: "a".into(),
            uci: "e2e4".into(),
        },
        &wasm,
    )
    .unwrap();
    assert_eq!(lines[0], "a -- ply 1, Black to move");
    let shown = obey(&mut bob, Order::Show { label: "b".into() }, &wasm).unwrap();
    assert_eq!(shown[0], "b -- ply 1, Black to move");
    assert_eq!(shown[1], lines[1]);

    let migrated = obey(&mut alice, Order::GameMigrate { label: "a".into() }, &wasm).unwrap();
    assert_eq!(
        migrated,
        vec![format!("a is already on contract {spelled}")]
    );
    let other = other_wasm();
    let moved = obey(&mut alice, Order::GameMigrate { label: "a".into() }, &other).unwrap();
    let params = summary_of(&mut alice, "a").params.unwrap();
    assert_eq!(
        moved,
        vec![format!(
            "a migrated from contract {spelled} to contract {}, 1 record(s)",
            bs58::encode(contract_id(&other, &params)).into_string()
        )]
    );
    let ended = obey(&mut bob, Order::Resign { label: "b".into() }, &wasm).unwrap();
    assert_eq!(ended[2], "game over: White wins -- resignation");
}

#[test]
fn a_new_key_is_printed_with_its_warning() {
    let mut node = FakeNode::new(shared_world());
    let order = Order::KeyNew { label: "k".into() };
    assert!(!order.needs_contract());
    let outcome = run(&mut node, &[], order.plan(ALICE_ENTROPY, NONCE, &[]).unwrap()).unwrap();
    let key = summary_of(&mut node, "k").public_key;
    assert_eq!(
        order.print(&outcome),
        vec![format!("k: {}", bs58::encode(key).into_string())]
    );
    assert_eq!(order.warning(&outcome), Some(DEGRADED_WARNING));
    assert_eq!(Order::KeyList.warning(&outcome), None);
    assert_eq!(
        obey(&mut node, Order::KeyNew { label: "k".into() }, &[]),
        Err("delegate refused: a key already exists for that label".into())
    );
    let listed = obey(&mut node, Order::KeyList, &[]).unwrap();
    assert!(listed[0].starts_with("k\t"));
    assert_eq!(
        obey(&mut node, Order::GameList, &[]).unwrap(),
        vec!["no bound games yet -- bind one with `adjourn game bind`"]
    );
}

#[test]
fn a_bad_paste_is_refused_before_anything_is_asked() {
    let accept = Order::InviteAccept {
        label: "a".into(),
        invite: "0".into(),
    };
    assert!(accept.needs_contract());
    assert_eq!(
        accept.plan(ALICE_ENTROPY, NONCE, &[]).unwrap_err(),
        "decoding invite: not valid base58"
    );
    let bind = Order::GameBind {
        label: "a".into(),
        offer: "1".into(),
    };
    assert_eq!(
        bind.plan(ALICE_ENTROPY, NONCE, &[]).unwrap_err(),
        "decoding offer: not a valid blob"
    );
}

// ---------------------------------------------------------------------------
// The panel.
// ---------------------------------------------------------------------------

/// Carry a command out as the owner of a connection that stands.
fn carry_out(panel: &mut Panel, node: &mut FakeNode, cmd: Cmd, wasm: &[u8]) -> Option<String> {
    panel.begin(&cmd);
    panel.ready(&cmd);
    let mut watched = None;
    match cmd.job(BOB_ENTROPY, NONCE, wasm) {
        Job::Nothing => {}
        Job::Watch(label) => watched = Some(label),
        Job::Fail(why) => panel.fail(why, false),
        Job::Run(flow, action) => {
            let mut next = Some((flow, action));
            while let Some(start) = next.take() {
                match run(node, wasm, start) {
                    Ok(outcome) => next = panel.settle(&cmd, outcome),
                    Err(e) => panel.fail(e.message(), false),
                }
            }
        }
    }
    panel.end();
    watched
}

#[test]
fn the_panel_follows_a_game_from_invite_to_resignation() {
    let wasm = contract_wasm();
    let world = shared_world();
    let (mut alice, mut bob) = (FakeNode::new(world.clone()), FakeNode::new(world));
    let (mut ours, mut theirs) = (Panel::new(), Panel::new());
    assert!(!ours.connected);

    carry_out(
        &mut ours,
        &mut alice,
        Cmd::NewGame {
            label: "a".into(),
            side: Side::White,
        },
        &wasm,
    );
    assert!(ours.connected && !ours.busy);
    let invite = ours.invite_for("a").expect("an invite").to_string();
    assert_eq!(ours.invite_for("b"), None);
    assert_eq!(ours.offer_for("a"), None);

    carry_out(
        &mut theirs,
        &mut bob,
        Cmd::Accept {
            label: "b".into(),
            invite,
        },
        &wasm,
    );
    let offer = theirs.offer_for("b").expect("an offer").to_string();
    assert_eq!(theirs.invite_for("b"), None);
    carry_out(
        &mut ours,
        &mut alice,
        Cmd::Bind {
            label: "a".into(),
            offer,
        },
        &wasm,
    );
    assert_eq!(ours.error, None);
    assert_eq!(ours.invite_for("a"), None, "the invite has done its work");

    carry_out(
        &mut ours,
        &mut alice,
        Cmd::Play {
            label: "a".into(),
            uci: "e2e4".into(),
        },
        &wasm,
    );
    assert_eq!(ours.view_of("a").expect("shown again").status.ply, 1);
    assert!(ours.view_of("b").is_none());

    // A move out of turn is shown, and costs neither the view nor the link.
    carry_out(
        &mut ours,
        &mut alice,
        Cmd::Play {
            label: "a".into(),
            uci: "d2d4".into(),
        },
        &wasm,
    );
    assert_eq!(ours.error.as_deref(), Some("it is not your turn"));
    assert!(ours.connected);
    assert_eq!(ours.view_of("a").unwrap().status.ply, 1);

    carry_out(
        &mut theirs,
        &mut bob,
        Cmd::Resign { label: "b".into() },
        &wasm,
    );
    assert!(theirs.view_of("b").unwrap().status.is_over());
    carry_out(&mut theirs, &mut bob, Cmd::ListGames, &wasm);
    assert_eq!(theirs.games.len(), 1);
    assert_eq!(theirs.games[0].label, "b");
}

#[test]
fn the_panel_shows_news_of_the_open_game_only() {
    let (mut alice, mut bob, wasm) = setup();
    let mut panel = Panel::new();
    carry_out(
        &mut panel,
        &mut alice,
        Cmd::Open {
            label: "alice".into(),
        },
        &wasm,
    );
    let watched = carry_out(
        &mut panel,
        &mut alice,
        Cmd::Watch {
            label: "alice".into(),
        },
        &wasm,
    );
    assert_eq!(watched.as_deref(), Some("alice"));
    plays(&mut alice, "alice", "e2e4", &wasm).unwrap();
    let news = opened(&mut bob, "bob", &wasm).unwrap();
    panel.watch_tells("bob", news.state.clone(), news.status.clone());
    assert_eq!(panel.view_of("alice").unwrap().status.ply, 0);
    panel.watch_tells("alice", news.state, news.status);
    let shown = panel.view_of("alice").unwrap();
    assert_eq!(shown.status.ply, 1);
    assert_eq!(moves_in_order(shown), vec!["e2e4"]);
    assert_eq!(shown.side, Side::White);
}

#[test]
fn a_game_that_is_being_opened_hides_the_one_before() {
    let (mut alice, _, wasm) = setup();
    let mut panel = Panel::new();
    let open = Cmd::Open {
        label: "alice".into(),
    };
    carry_out(&mut panel, &mut alice, open.clone(), &wasm);
    assert!(panel.view_of("alice").is_some());
    panel.begin(&open);
    panel.ready(&open);
    assert!(panel.view.is_none());
    panel.fail("no such game".into(), false);
    panel.end();
    assert!(panel.view.is_none());
    assert_eq!(panel.error.as_deref(), Some("no such game"));
}

#[test]
fn a_dead_watch_is_seen_through_other_commands() {
    let (mut alice, _, wasm) = setup();
    let mut panel = Panel::new();
    panel.watch_begins();
    panel.watch_warns();
    panel.watch_fails("the connection closed".into());
    carry_out(&mut panel, &mut alice, Cmd::ListGames, &wasm);
    assert_eq!(panel.error, None);
    assert_eq!(panel.watch_error.as_deref(), Some("the connection closed"));
    assert_eq!(panel.skew.as_deref(), Some(SKEW_WARNING));
    panel.watch_begins();
    assert_eq!(panel.watch_error, None);
    assert_eq!(panel.skew, None);
}

#[test]
fn only_a_lost_connection_is_shown_as_lost() {
    let mut panel = Panel::new();
    panel.begin(&Cmd::Connect);
    assert!(panel.busy);
    panel.ready(&Cmd::Connect);
    panel.end();
    assert!(panel.connected);
    panel.fail("refused".into(), false);
    assert!(panel.connected);
    panel.fail("gone".into(), true);
    assert!(!panel.connected);
    panel.ready(&Cmd::Connect);
    panel.begin(&Cmd::Reconnect);
    assert!(!panel.connected && !panel.busy);
    assert_eq!(panel.error, None);
}

#[test]
fn a_migration_is_followed_by_a_look_at_the_game() {
    let (mut alice, _, wasm) = setup();
    plays(&mut alice, "alice", "e2e4", &wasm).unwrap();
    let other = other_wasm();
    let mut panel = Panel::new();
    let label = "alice".to_string();
    carry_out(
        &mut panel,
        &mut alice,
        Cmd::Open {
            label: label.clone(),
        },
        &other,
    );
    let error = panel.error.clone().expect("another build bound this game");
    assert!(offers_migration(&error, &label));
    carry_out(
        &mut panel,
        &mut alice,
        Cmd::Migrate {
            label: label.clone(),
        },
        &other,
    );
    assert_eq!(panel.error, None);
    assert_eq!(panel.view_of(&label).unwrap().status.ply, 1);
}
