//! Projection: from the set of records to the state of the game.
//!
//! A pure function of the merged set. All the ordering, legality and
//! termination logic lives here, where getting it wrong costs a wrong answer
//! rather than a failure to converge.

use vstd::prelude::*;
use crate::board;
use crate::bytes::same_bytes;
use crate::chess;
use crate::crypto;
use crate::bytemap;
use crate::state::GameState;
use crate::types;
use crate::types::{
    color_at_ply, Body, BodyView, Color, GameParams, KeyBytes, ParamsView, Record, RecordId,
    RecordView,
};
use ed25519_dalek::SigningKey;
use shakmaty::Chess;

verus! {

/// FIDE 9.6.1: the game is drawn as soon as a position occurs for the fifth
/// time.
pub const FIVEFOLD: u32 = 5;

/// FIDE 9.6.2: the game is drawn after 75 moves by each player with no capture
/// and no pawn move.
pub const SEVENTY_FIVE_MOVE_HALFMOVES: u32 = 150;

/// FIDE 9.2: a player may claim a draw when a position occurs a third time.
pub const THREEFOLD: u32 = 3;

/// FIDE 9.3: a player may claim a draw after 50 moves by each player with no
/// capture and no pawn move.
pub const FIFTY_MOVE_HALFMOVES: u32 = 100;

/// Why a game is over.
#[derive(Clone, Copy, Debug, PartialEq, Eq, Structural)]
pub enum Reason {
    Checkmate,
    Stalemate,
    InsufficientMaterial,
    /// The automatic 75-move and fivefold rules.
    AutomaticDraw,
    Resignation,
    DrawAgreement,
    /// A player signed two different move records at the same ply. The record
    /// set contains its own fraud proof.
    DoubleSignForfeit,
    /// Both players resigned; no principled winner, so a draw.
    MutualResignation,
    /// A claimed threefold repetition (FIDE 9.2).
    ThreefoldClaim,
    /// A claimed fifty-move draw (FIDE 9.3).
    FiftyMoveClaim,
}

/// How a game ended.
#[derive(Clone, Copy, Debug, PartialEq, Eq, Structural)]
pub struct Decision {
    /// `None` means a draw.
    pub winner: Option<Color>,
    pub reason: Reason,
}

// ---------------------------------------------------------------------------
// The walk along the chain.
// ---------------------------------------------------------------------------

/// Where the walk along the chain stands.
#[verifier::ext_equal]
pub struct WalkView {
    /// The position reached.
    pub pos: Seq<char>,
    /// The ids of the moves that led there.
    pub chain: Seq<Seq<u8>>,
    /// The repetition key of every position on the way, the last included.
    pub seen: Seq<Seq<char>>,
    /// An automatic draw was reached.
    pub auto_draw: bool,
}

/// The record is a move at this ply.
pub open spec fn is_move_at(r: RecordView, ply: int) -> bool {
    match r.body {
        BodyView::Move { ply: p, .. } => p == ply,
        _ => false,
    }
}

/// The ids of the moves one key signed at one ply.
pub open spec fn moves_at(
    m: Map<Seq<u8>, RecordView>,
    key: Seq<u8>,
    ply: int,
) -> Set<Seq<u8>> {
    Set::new(|k: Seq<u8>| m.contains_key(k) && m[k].signer == key && is_move_at(m[k], ply))
}

/// The record after the head: the one move the player to move signed at that
/// ply, if its parent is the head and it is legal. Where they signed two, there
/// is none.
pub open spec fn continuation(
    m: Map<Seq<u8>, RecordView>,
    params: ParamsView,
    pos: Seq<char>,
    head: Seq<u8>,
    ply: int,
) -> Option<(Seq<u8>, Seq<char>)> {
    let s = moves_at(m, params.key_of(types::side_at(ply)), ply);
    if s.len() == 1 {
        let k = s.choose();
        match m[k].body {
            BodyView::Move { parent, uci, .. } => if parent == head {
                match chess::move_read(pos, uci) {
                    Some(mv) => Some((k, mv)),
                    None => None,
                }
            } else {
                None
            },
            _ => None,
        }
    } else {
        None
    }
}

/// How often a key occurs in a list of keys.
pub open spec fn occurrences(list: Seq<Seq<char>>, key: Seq<char>) -> nat
    decreases list.len(),
{
    if list.len() == 0 {
        0
    } else {
        occurrences(list.drop_last(), key) + if list.last() == key {
            1nat
        } else {
            0nat
        }
    }
}

/// The last id of a chain, or the genesis of the game before the first move.
pub open spec fn head_of(chain: Seq<Seq<u8>>, params: ParamsView) -> Seq<u8> {
    if chain.len() == 0 {
        params.genesis()
    } else {
        chain.last()
    }
}

/// The walk one move further.
pub open spec fn stepped(w: WalkView, k: Seq<u8>, mv: Seq<char>) -> WalkView {
    let pos = chess::after_move(w.pos, mv)->0;
    let seen = w.seen.push(chess::epd_of(pos));
    WalkView {
        pos,
        chain: w.chain.push(k),
        seen,
        auto_draw: occurrences(seen, chess::epd_of(pos)) >= FIVEFOLD || chess::quiet_halfmoves(pos)
            >= SEVENTY_FIVE_MOVE_HALFMOVES,
    }
}

/// Walk on from where the walk stands. No record carries a ply beyond 65535.
pub open spec fn walked_from(
    m: Map<Seq<u8>, RecordView>,
    params: ParamsView,
    w: WalkView,
) -> WalkView
    decreases 65536 - w.chain.len(),
{
    let ply = w.chain.len() as int + 1;
    if ply > 65535 {
        w
    } else {
        match continuation(m, params, w.pos, head_of(w.chain, params), ply) {
            None => w,
            Some((k, mv)) => {
                let next = stepped(w, k, mv);
                if next.auto_draw {
                    next
                } else {
                    walked_from(m, params, next)
                }
            },
        }
    }
}

/// Before the first move.
pub open spec fn at_start() -> WalkView {
    WalkView {
        pos: chess::START@,
        chain: Seq::empty(),
        seen: seq![chess::epd_of(chess::START@)],
        auto_draw: false,
    }
}

/// The whole walk: from the start as far as the records lead.
pub open spec fn walked(m: Map<Seq<u8>, RecordView>, params: ParamsView) -> WalkView {
    walked_from(m, params, at_start())
}

// ---------------------------------------------------------------------------
// What ends a game.
// ---------------------------------------------------------------------------

/// The player signed two move records at one ply. Chess has no part in it.
pub open spec fn double_signed(
    m: Map<Seq<u8>, RecordView>,
    params: ParamsView,
    color: Color,
) -> bool {
    exists|j: Seq<u8>, k: Seq<u8>|
        j != k && #[trigger] m.contains_key(j) && #[trigger] m.contains_key(k)
            && params.color_of(m[j].signer) == Some(color) && params.color_of(m[k].signer) == Some(
            color,
        ) && same_ply_moves(m[j], m[k])
}

/// Both records are moves, at the same ply.
pub open spec fn same_ply_moves(a: RecordView, b: RecordView) -> bool {
    match (a.body, b.body) {
        (BodyView::Move { ply: p, .. }, BodyView::Move { ply: q, .. }) => p == q,
        _ => false,
    }
}

/// The player resigned.
pub open spec fn has_resigned(
    m: Map<Seq<u8>, RecordView>,
    params: ParamsView,
    color: Color,
) -> bool {
    exists|k: Seq<u8>| #[trigger]
        m.contains_key(k) && m[k].body is Resign && params.color_of(m[k].signer) == Some(color)
}

/// The record is a draw claim at this head.
pub open spec fn claims_at(r: RecordView, head: Seq<u8>) -> bool {
    match r.body {
        BodyView::DrawClaim { at, .. } => at == head,
        _ => false,
    }
}

/// The player to move claims a draw at the head.
pub open spec fn has_claimed(
    m: Map<Seq<u8>, RecordView>,
    params: ParamsView,
    head: Seq<u8>,
    turn: Color,
) -> bool {
    exists|k: Seq<u8>| #[trigger]
        m.contains_key(k) && claims_at(m[k], head) && params.color_of(m[k].signer) == Some(turn)
}

/// The record accepts an offer that was made at this head by the other player.
pub open spec fn accepts_at(
    m: Map<Seq<u8>, RecordView>,
    params: ParamsView,
    r: RecordView,
    head: Seq<u8>,
) -> bool {
    match r.body {
        BodyView::DrawAccept { offer, .. } => {
            &&& m.contains_key(offer)
            &&& m[offer].body matches BodyView::DrawOffer { at, .. }
            &&& at == head
            &&& params.color_of(r.signer) is Some
            &&& params.color_of(m[offer].signer) is Some
            &&& params.color_of(r.signer) != params.color_of(m[offer].signer)
        },
        _ => false,
    }
}

/// A draw was offered at the head and accepted by the other player.
pub open spec fn has_agreed(
    m: Map<Seq<u8>, RecordView>,
    params: ParamsView,
    head: Seq<u8>,
) -> bool {
    exists|k: Seq<u8>| #[trigger] m.contains_key(k) && accepts_at(m, params, m[k], head)
}

/// All that the outcome of a game depends on.
#[derive(Clone, Copy, Debug, PartialEq, Eq, Structural)]
pub struct Facts {
    pub white_double_signed: bool,
    pub black_double_signed: bool,
    pub white_resigned: bool,
    pub black_resigned: bool,
    pub checkmate: bool,
    pub stalemate: bool,
    pub insufficient_material: bool,
    pub automatic_draw: bool,
    pub turn: Color,
    pub repetitions: u32,
    pub halfmoves: u32,
    /// The player to move claims a draw at the head.
    pub claimed: bool,
    /// An offer made at the head was accepted.
    pub agreed: bool,
}

/// A player against whom something counts loses; both, and it is a draw.
pub open spec fn against(white: bool, black: bool) -> Option<Color> {
    if white && black {
        None
    } else if white {
        Some(Color::Black)
    } else {
        Some(Color::White)
    }
}

/// The outcome. Forfeit comes first, then resignation, then the board, then a
/// claim, then an agreement.
pub open spec fn outcome(f: Facts) -> Option<Decision> {
    if f.white_double_signed || f.black_double_signed {
        Some(
            Decision {
                winner: against(f.white_double_signed, f.black_double_signed),
                reason: Reason::DoubleSignForfeit,
            },
        )
    } else if f.white_resigned && f.black_resigned {
        Some(Decision { winner: None, reason: Reason::MutualResignation })
    } else if f.white_resigned || f.black_resigned {
        Some(
            Decision {
                winner: against(f.white_resigned, f.black_resigned),
                reason: Reason::Resignation,
            },
        )
    } else if f.checkmate {
        Some(Decision { winner: Some(f.turn.opposite()), reason: Reason::Checkmate })
    } else if f.stalemate {
        Some(Decision { winner: None, reason: Reason::Stalemate })
    } else if f.insufficient_material {
        Some(Decision { winner: None, reason: Reason::InsufficientMaterial })
    } else if f.automatic_draw {
        Some(Decision { winner: None, reason: Reason::AutomaticDraw })
    } else if f.claimed && f.repetitions >= THREEFOLD {
        Some(Decision { winner: None, reason: Reason::ThreefoldClaim })
    } else if f.claimed && f.halfmoves >= FIFTY_MOVE_HALFMOVES {
        Some(Decision { winner: None, reason: Reason::FiftyMoveClaim })
    } else if f.agreed {
        Some(Decision { winner: None, reason: Reason::DrawAgreement })
    } else {
        None
    }
}

/// The outcome of a game.
pub fn verdict(f: Facts) -> (r: Option<Decision>)
    ensures
        r == outcome(f),
{
    if f.white_double_signed || f.black_double_signed {
        let winner: Option<Color> = if f.white_double_signed && f.black_double_signed {
            None
        } else if f.white_double_signed {
            Some(Color::Black)
        } else {
            Some(Color::White)
        };
        return Some(Decision { winner, reason: Reason::DoubleSignForfeit });
    }
    if f.white_resigned && f.black_resigned {
        return Some(Decision { winner: None, reason: Reason::MutualResignation });
    }
    if f.white_resigned {
        return Some(Decision { winner: Some(Color::Black), reason: Reason::Resignation });
    }
    if f.black_resigned {
        return Some(Decision { winner: Some(Color::White), reason: Reason::Resignation });
    }
    if f.checkmate {
        return Some(Decision { winner: Some(f.turn.other()), reason: Reason::Checkmate });
    }
    if f.stalemate {
        return Some(Decision { winner: None, reason: Reason::Stalemate });
    }
    if f.insufficient_material {
        return Some(Decision { winner: None, reason: Reason::InsufficientMaterial });
    }
    if f.automatic_draw {
        return Some(Decision { winner: None, reason: Reason::AutomaticDraw });
    }
    // The claimant is the player to move: in a mated position that is the
    // player who lost, so the board has to come before the claim.
    if f.claimed && f.repetitions >= THREEFOLD {
        return Some(Decision { winner: None, reason: Reason::ThreefoldClaim });
    }
    if f.claimed && f.halfmoves >= FIFTY_MOVE_HALFMOVES {
        return Some(Decision { winner: None, reason: Reason::FiftyMoveClaim });
    }
    if f.agreed {
        return Some(Decision { winner: None, reason: Reason::DrawAgreement });
    }
    None
}

// ---------------------------------------------------------------------------
// The projection.
// ---------------------------------------------------------------------------

/// The value of a [`Status`].
#[verifier::ext_equal]
pub struct StatusView {
    pub decision: Option<Decision>,
    pub ply: int,
    pub turn: Color,
    pub fen: Seq<char>,
    pub chain: Seq<Seq<u8>>,
    pub ignored: nat,
    pub repetitions: nat,
    pub halfmove_clock: int,
}

/// What the outcome depends on, read off the records.
pub open spec fn facts_of(
    m: Map<Seq<u8>, RecordView>,
    params: ParamsView,
    w: WalkView,
) -> Facts {
    let head = head_of(w.chain, params);
    let turn = chess::side_to_move(w.pos);
    Facts {
        white_double_signed: double_signed(m, params, Color::White),
        black_double_signed: double_signed(m, params, Color::Black),
        white_resigned: has_resigned(m, params, Color::White),
        black_resigned: has_resigned(m, params, Color::Black),
        checkmate: chess::checkmated(w.pos),
        stalemate: chess::stalemated(w.pos),
        insufficient_material: chess::insufficient(w.pos),
        automatic_draw: w.auto_draw,
        turn,
        repetitions: occurrences(w.seen, w.seen.last()) as u32,
        halfmoves: chess::quiet_halfmoves(w.pos),
        claimed: has_claimed(m, params, head, turn),
        agreed: has_agreed(m, params, head),
    }
}

/// The move records that are not in the chain.
pub open spec fn passed_over(m: Map<Seq<u8>, RecordView>, chain: Seq<Seq<u8>>) -> Set<Seq<u8>> {
    Set::new(|k: Seq<u8>| m.contains_key(k) && m[k].body is Move && !chain.contains(k))
}

/// The whole game, as a function of the record set.
pub open spec fn projected(m: Map<Seq<u8>, RecordView>, params: ParamsView) -> StatusView {
    let w = walked(m, params);
    StatusView {
        decision: outcome(facts_of(m, params, w)),
        ply: w.chain.len() as int,
        turn: chess::side_to_move(w.pos),
        fen: chess::fen_of(w.pos),
        chain: w.chain,
        ignored: passed_over(m, w.chain).len(),
        repetitions: occurrences(w.seen, w.seen.last()),
        halfmove_clock: chess::quiet_halfmoves(w.pos) as int,
    }
}

/// Where a game stands.
#[derive(Debug)]
pub struct Status {
    /// `None` while the game is still in progress.
    pub decision: Option<Decision>,
    /// Half-moves played so far.
    pub ply: u16,
    pub turn: Color,
    pub fen: String,
    /// Record ids of the accepted move chain, in order.
    pub chain: Vec<RecordId>,
    /// Move records present in state but not in the accepted chain: illegal
    /// moves, wrong-parent moves, moves past the point the chain stopped.
    pub ignored: usize,
    /// How many times the current position has occurred, counting this one.
    pub repetitions: u32,
    /// Halfmoves since the last capture or pawn move.
    pub halfmove_clock: u32,
}

/// The values of a list of ids.
pub open spec fn id_views(ids: Seq<RecordId>) -> Seq<Seq<u8>> {
    ids.map_values(|id: RecordId| id@)
}

impl View for Status {
    type V = StatusView;

    open spec fn view(&self) -> StatusView {
        StatusView {
            decision: self.decision,
            ply: self.ply as int,
            turn: self.turn,
            fen: self.fen@,
            chain: id_views(self.chain@),
            ignored: self.ignored as nat,
            repetitions: self.repetitions as nat,
            halfmove_clock: self.halfmove_clock as int,
        }
    }
}

impl Clone for Status {
    fn clone(&self) -> (r: Status)
        ensures
            r@ == self@,
    {
        let mut chain: Vec<RecordId> = Vec::new();
        let mut i: usize = 0;
        while i < self.chain.len()
            invariant
                i <= self.chain.len(),
                chain@ == self.chain@.take(i as int),
            decreases self.chain.len() - i,
        {
            chain.push(self.chain[i]);
            assert(self.chain@.take(i + 1) =~= self.chain@.take(i as int).push(
                self.chain@[i as int],
            ));
            i += 1;
        }
        assert(chain@ =~= self.chain@);
        Status {
            decision: self.decision,
            ply: self.ply,
            turn: self.turn,
            fen: self.fen.clone(),
            chain,
            ignored: self.ignored,
            repetitions: self.repetitions,
            halfmove_clock: self.halfmove_clock,
        }
    }
}

impl Status {
    /// Whether the game is over.
    pub fn is_over(&self) -> (r: bool)
        ensures
            r == (self@.decision is Some),
    {
        self.decision.is_some()
    }

    /// The head of the chain.
    pub fn head(&self, params: &GameParams) -> (r: RecordId)
        ensures
            r@ == head_of(self@.chain, params@),
    {
        if self.chain.len() == 0 {
            params.genesis()
        } else {
            self.chain[self.chain.len() - 1]
        }
    }
}

/// What walking the chain from genesis produced.
struct Walk {
    pos: Chess,
    chain: Vec<RecordId>,
    /// Set when an automatic draw fired, which also stops the chain.
    auto_draw: bool,
    /// Occurrences of the final position, counting itself.
    repetitions: u32,
}

/// The repetition key: placement, side to move, castling rights, and an en
/// passant square only where the capture is available.
fn repetition_key(pos: &Chess) -> (r: String)
    ensures
        r@ == chess::epd_of(chess::position_text(*pos)),
{
    let epd = chess::position_epd(pos);
    chess::write_epd(&epd)
}

/// The values of a list of texts.
pub open spec fn text_views(list: Seq<String>) -> Seq<Seq<char>> {
    list.map_values(|t: String| t@)
}

/// How often a key occurs in a list of keys.
fn count_key(list: &Vec<String>, key: &String) -> (r: u32)
    requires
        list@.len() <= 65536,
    ensures
        r == occurrences(text_views(list@), key@),
        r <= list@.len(),
{
    let ghost all = text_views(list@);
    let mut n: u32 = 0;
    let mut i: usize = 0;
    while i < list.len()
        invariant
            i <= list.len(),
            list@.len() <= 65536,
            all == text_views(list@),
            n == occurrences(all.take(i as int), key@),
            n <= i,
        decreases list.len() - i,
    {
        assert(all.take(i + 1).drop_last() =~= all.take(i as int));
        assert(all.take(i + 1).last() == list@[i as int]@);
        if list[i] == *key {
            n += 1;
        }
        i += 1;
    }
    assert(all.take(i as int) =~= all);
    n
}

/// Whether a record is a move by this key at this ply.
fn is_move_by(rec: &Record, key: &KeyBytes, ply: u16) -> (r: bool)
    ensures
        r == (rec@.signer == key@ && is_move_at(rec@, ply as int)),
{
    match &rec.body {
        Body::Move { ply: p, .. } => *p == ply && same_bytes(
            rec.signer.as_slice(),
            key.as_slice(),
        ),
        _ => false,
    }
}

/// The place of the one move a key signed at a ply; `None` where it signed
/// none, or more than one.
fn sole_move(state: &GameState, key: &KeyBytes, ply: u16) -> (r: Option<usize>)
    ensures
        match r {
            Some(i) => {
                &&& i < state.records.ids().len()
                &&& moves_at(state@, key@, ply as int) == set![state.records.ids()[i as int]]
                &&& moves_at(state@, key@, ply as int).len() == 1
                &&& moves_at(state@, key@, ply as int).choose() == state.records.ids()[i as int]
            },
            None => moves_at(state@, key@, ply as int).len() != 1,
        },
{
    let ghost m = state@;
    let ghost ids = state.records.ids();
    let ghost s = moves_at(m, key@, ply as int);
    proof {
        use_type_invariant(&state.records);
        bytemap::ascending_lists(m.dom());
        assert(s.subset_of(m.dom()));
        vstd::set_lib::lemma_len_subset(s, m.dom());
    }
    let n: usize = state.records.len();
    let mut found: Option<usize> = None;
    let mut i: usize = 0;
    while i < n
        invariant
            i <= n,
            n == ids.len(),
            m == state@,
            ids == state.records.ids(),
            s == moves_at(m, key@, ply as int),
            s.finite(),
            bytemap::is_ascending(ids),
            match found {
                None => forall|j: int| 0 <= j < i ==> !s.contains(#[trigger] ids[j]),
                Some(f) => f < i && s.contains(ids[f as int]) && forall|j: int|
                    0 <= j < i && j != f ==> !s.contains(#[trigger] ids[j]),
            },
        decreases n - i,
    {
        if is_move_by(state.records.value_at(i), key, ply) {
            assert(s.contains(ids[i as int]));
            match found {
                None => {
                    found = Some(i);
                },
                Some(f) => {
                    proof {
                        let a = ids[f as int];
                        let b = ids[i as int];
                        assert(crate::bytes::lex_lt(a, b));
                        crate::bytes::lex_irreflexive(a);
                        assert(s.remove(a).contains(b));
                        assert(s.remove(a).len() == s.len() - 1);
                    }
                    return None;
                },
            }
        }
        i += 1;
    }
    proof {
        match found {
            Some(f) => {
                let k = ids[f as int];
                assert forall|x: Seq<u8>| #[trigger] s.contains(x) implies x == k by {
                    assert(m.dom().contains(x));
                    let j = choose|j: int| 0 <= j < ids.len() && ids[j] == x;
                    assert(s.contains(ids[j]));
                }
                assert(s =~= set![k]);
            },
            None => {
                assert forall|x: Seq<u8>| !#[trigger] s.contains(x) by {
                    if s.contains(x) {
                        assert(m.dom().contains(x));
                        let j = choose|j: int| 0 <= j < ids.len() && ids[j] == x;
                        assert(!s.contains(ids[j]));
                    }
                }
                assert(s =~= Set::empty());
            },
        }
    }
    found
}

/// Walk the chain from genesis, applying exactly one legal move per ply.
///
/// A position keeps no history, so the repetition count is accumulated here. It
/// stays a pure function of the record set: the chain is determined by the
/// parent links, and the positions follow from the chain.
fn walk(state: &GameState, params: &GameParams) -> (r: Walk)
    ensures
        ({
            let w = walked(state@, params@);
            &&& chess::position_text(r.pos) == w.pos
            &&& id_views(r.chain@) == w.chain
            &&& r.auto_draw == w.auto_draw
            &&& r.repetitions == occurrences(w.seen, w.seen.last())
            &&& r.chain@.len() <= 65535
        }),
{
    let ghost m = state@;
    let mut pos = chess::start_position();
    let mut chain: Vec<RecordId> = Vec::new();
    let mut head: RecordId = params.genesis();
    let mut seen: Vec<String> = Vec::new();
    seen.push(repetition_key(&pos));
    let mut repetitions: u32 = 1;
    let ghost mut w: WalkView = at_start();
    proof {
        assert(text_views(seen@) =~= w.seen);
        assert(id_views(chain@) =~= w.chain);
        assert(w.seen.drop_last() =~= Seq::empty());
        assert(occurrences(w.seen.drop_last(), w.seen.last()) == 0);
    }
    while chain.len() < 65535
        invariant
            m == state@,
            chain@.len() <= 65535,
            seen@.len() == chain@.len() + 1,
            chess::position_text(pos) == w.pos,
            id_views(chain@) == w.chain,
            text_views(seen@) == w.seen,
            head@ == head_of(w.chain, params@),
            !w.auto_draw,
            repetitions == occurrences(w.seen, w.seen.last()),
            walked(m, params@) == walked_from(m, params@, w),
        decreases 65535 - chain.len(),
    {
        let ply: u16 = chain.len() as u16 + 1;
        let key = params.key_of(color_at_ply(ply));
        let i: usize = match sole_move(state, &key, ply) {
            Some(i) => i,
            None => {
                return Walk { pos, chain, auto_draw: false, repetitions };
            },
        };
        let id: RecordId = *state.records.id_at(i);
        let mv = match &state.records.value_at(i).body {
            Body::Move { parent, uci, .. } => {
                if !same_bytes(parent.as_slice(), head.as_slice()) {
                    return Walk { pos, chain, auto_draw: false, repetitions };
                }
                match chess::read_move(&pos, uci.as_str()) {
                    Some(mv) => mv,
                    None => {
                        // Illegal in this position: ignored, not fatal.
                        return Walk { pos, chain, auto_draw: false, repetitions };
                    },
                }
            },
            _ => {
                assert(moves_at(m, key@, ply as int).contains(id@));
                return Walk { pos, chain, auto_draw: false, repetitions };
            },
        };
        let ghost next = stepped(w, id@, chess::move_text(mv));
        pos = match chess::play(pos, mv) {
            Some(p) => p,
            None => {
                assert(false);
                chess::start_position()
            },
        };
        let ghost old_chain = chain@;
        let ghost old_seen = seen@;
        chain.push(id);
        head = id;
        let now = repetition_key(&pos);
        seen.push(now.clone());
        proof {
            assert(id_views(chain@) =~= next.chain);
            assert(text_views(seen@) =~= next.seen);
        }
        repetitions = count_key(&seen, &now);
        // Both rules end the game the instant they are reached, so the chain
        // stops here and any later move is ignored.
        if repetitions >= FIVEFOLD || chess::halfmoves(&pos) >= SEVENTY_FIVE_MOVE_HALFMOVES {
            return Walk { pos, chain, auto_draw: true, repetitions };
        }
        proof {
            w = next;
        }
    }
    Walk { pos, chain, auto_draw: false, repetitions }
}

/// Whether two records are moves at the same ply.
fn moves_collide(a: &Record, b: &Record) -> (r: bool)
    ensures
        r == same_ply_moves(a@, b@),
{
    match (&a.body, &b.body) {
        (Body::Move { ply: p, .. }, Body::Move { ply: q, .. }) => *p == *q,
        _ => false,
    }
}

/// Whether a player signed two move records at one ply.
///
/// The rule is a property of the record set, not of any position, so burying a
/// fraud proof under other records does not dissolve it.
fn signed_twice(state: &GameState, params: &GameParams, color: Color) -> (r: bool)
    ensures
        r == double_signed(state@, params@, color),
{
    let ghost m = state@;
    let ghost ids = state.records.ids();
    proof {
        use_type_invariant(&state.records);
        bytemap::ascending_lists(m.dom());
    }
    let n: usize = state.records.len();
    let mut i: usize = 0;
    while i < n
        invariant
            i <= n,
            n == ids.len(),
            m == state@,
            ids == state.records.ids(),
            bytemap::is_ascending(ids),
            forall|a: int, b: int|
                0 <= a < b < i ==> !(params@.color_of(m[#[trigger] ids[a]].signer) == Some(color)
                    && params@.color_of(m[#[trigger] ids[b]].signer) == Some(color)
                    && same_ply_moves(m[ids[a]], m[ids[b]])),
        decreases n - i,
    {
        let rec = state.records.value_at(i);
        if matches!(rec.body, Body::Move { .. }) && rec.color(params) == Some(color) {
            let mut j: usize = 0;
            while j < i
                invariant
                    j <= i < n,
                    n == ids.len(),
                    m == state@,
                    ids == state.records.ids(),
                    bytemap::is_ascending(ids),
                    rec@ == m[ids[i as int]],
                    m.contains_key(ids[i as int]),
                    params@.color_of(rec@.signer) == Some(color),
                    forall|a: int|
                        0 <= a < j ==> !(params@.color_of(m[#[trigger] ids[a]].signer) == Some(
                            color,
                        ) && same_ply_moves(m[ids[a]], rec@)),
                decreases i - j,
            {
                let other = state.records.value_at(j);
                if moves_collide(other, rec) && other.color(params) == Some(color) {
                    proof {
                        let a = ids[j as int];
                        let b = ids[i as int];
                        assert(crate::bytes::lex_lt(a, b));
                        crate::bytes::lex_irreflexive(a);
                        assert(m.contains_key(a));
                        assert(m.contains_key(b));
                    }
                    return true;
                }
                j += 1;
            }
        }
        i += 1;
    }
    proof {
        if double_signed(m, params@, color) {
            let (j, k) = choose|j: Seq<u8>, k: Seq<u8>|
                j != k && #[trigger] m.contains_key(j) && #[trigger] m.contains_key(k)
                    && params@.color_of(m[j].signer) == Some(color) && params@.color_of(
                    m[k].signer,
                ) == Some(color) && same_ply_moves(m[j], m[k]);
            assert(m.dom().contains(j) && m.dom().contains(k));
            let a = choose|a: int| 0 <= a < ids.len() && ids[a] == j;
            let b = choose|b: int| 0 <= b < ids.len() && ids[b] == k;
            if a < b {
                assert(same_ply_moves(m[ids[a]], m[ids[b]]));
            } else {
                assert(same_ply_moves(m[ids[b]], m[ids[a]]));
            }
        }
    }
    false
}

/// Whether a player resigned.
fn resigned(state: &GameState, params: &GameParams, color: Color) -> (r: bool)
    ensures
        r == has_resigned(state@, params@, color),
{
    let ghost m = state@;
    let ghost ids = state.records.ids();
    proof {
        use_type_invariant(&state.records);
        bytemap::ascending_lists(m.dom());
    }
    let n: usize = state.records.len();
    let mut i: usize = 0;
    while i < n
        invariant
            i <= n,
            n == ids.len(),
            m == state@,
            ids == state.records.ids(),
            forall|j: int|
                0 <= j < i ==> !(m[#[trigger] ids[j]].body is Resign && params@.color_of(
                    m[ids[j]].signer,
                ) == Some(color)),
        decreases n - i,
    {
        let rec = state.records.value_at(i);
        if matches!(rec.body, Body::Resign) && rec.color(params) == Some(color) {
            assert(m.contains_key(ids[i as int]));
            return true;
        }
        i += 1;
    }
    proof {
        if has_resigned(m, params@, color) {
            let k = choose|k: Seq<u8>| #[trigger]
                m.contains_key(k) && m[k].body is Resign && params@.color_of(m[k].signer) == Some(
                    color,
                );
            assert(m.dom().contains(k));
            let j = choose|j: int| 0 <= j < ids.len() && ids[j] == k;
            assert(m[ids[j]].body is Resign);
        }
    }
    false
}

/// Whether the player to move claims a draw at the head.
///
/// The claimant must be the player to move, and only the player to move can
/// advance the head: the opponent cannot void a claim.
fn draw_claimed(state: &GameState, params: &GameParams, head: &RecordId, turn: Color) -> (r: bool)
    ensures
        r == has_claimed(state@, params@, head@, turn),
{
    let ghost m = state@;
    let ghost ids = state.records.ids();
    proof {
        use_type_invariant(&state.records);
        bytemap::ascending_lists(m.dom());
    }
    let n: usize = state.records.len();
    let mut i: usize = 0;
    while i < n
        invariant
            i <= n,
            n == ids.len(),
            m == state@,
            ids == state.records.ids(),
            forall|j: int|
                0 <= j < i ==> !(claims_at(m[#[trigger] ids[j]], head@) && params@.color_of(
                    m[ids[j]].signer,
                ) == Some(turn)),
        decreases n - i,
    {
        let rec = state.records.value_at(i);
        let here: bool = match &rec.body {
            Body::DrawClaim { at, .. } => same_bytes(at.as_slice(), head.as_slice()),
            _ => false,
        };
        if here && rec.color(params) == Some(turn) {
            assert(m.contains_key(ids[i as int]));
            return true;
        }
        i += 1;
    }
    proof {
        if has_claimed(m, params@, head@, turn) {
            let k = choose|k: Seq<u8>| #[trigger]
                m.contains_key(k) && claims_at(m[k], head@) && params@.color_of(m[k].signer)
                    == Some(turn);
            assert(m.dom().contains(k));
            let j = choose|j: int| 0 <= j < ids.len() && ids[j] == k;
            assert(claims_at(m[ids[j]], head@));
        }
    }
    false
}

/// Whether one record accepts an offer that was made at the head by the other
/// player.
fn accepts(state: &GameState, params: &GameParams, rec: &Record, head: &RecordId) -> (r: bool)
    ensures
        r == accepts_at(state@, params@, rec@, head@),
{
    let offer = match &rec.body {
        Body::DrawAccept { offer, .. } => offer,
        _ => return false,
    };
    let accepter = match rec.color(params) {
        Some(c) => c,
        None => return false,
    };
    let offer_rec = match state.records.get(offer) {
        Some(o) => o,
        None => return false,
    };
    match &offer_rec.body {
        Body::DrawOffer { at, .. } => {
            // The game moved on: this offer has expired.
            if !same_bytes(at.as_slice(), head.as_slice()) {
                return false;
            }
        },
        _ => return false,
    }
    match offer_rec.color(params) {
        Some(offerer) => offerer != accepter,
        None => false,
    }
}

/// Is there a matching offer and acceptance from opposite players, on an offer
/// that is still live? An offer is live only while the head it names is the
/// head.
fn draw_agreed(state: &GameState, params: &GameParams, head: &RecordId) -> (r: bool)
    ensures
        r == has_agreed(state@, params@, head@),
{
    let ghost m = state@;
    let ghost ids = state.records.ids();
    proof {
        use_type_invariant(&state.records);
        bytemap::ascending_lists(m.dom());
    }
    let n: usize = state.records.len();
    let mut i: usize = 0;
    while i < n
        invariant
            i <= n,
            n == ids.len(),
            m == state@,
            ids == state.records.ids(),
            forall|j: int| 0 <= j < i ==> !accepts_at(m, params@, m[#[trigger] ids[j]], head@),
        decreases n - i,
    {
        if accepts(state, params, state.records.value_at(i), head) {
            assert(m.contains_key(ids[i as int]));
            return true;
        }
        i += 1;
    }
    proof {
        if has_agreed(m, params@, head@) {
            let k = choose|k: Seq<u8>| #[trigger]
                m.contains_key(k) && accepts_at(m, params@, m[k], head@);
            assert(m.dom().contains(k));
            let j = choose|j: int| 0 <= j < ids.len() && ids[j] == k;
            assert(accepts_at(m, params@, m[ids[j]], head@));
        }
    }
    false
}

/// Whether an id is in a list of ids.
fn in_chain(chain: &Vec<RecordId>, id: &RecordId) -> (r: bool)
    ensures
        r == id_views(chain@).contains(id@),
{
    let ghost all = id_views(chain@);
    let mut i: usize = 0;
    while i < chain.len()
        invariant
            i <= chain.len(),
            all == id_views(chain@),
            forall|j: int| 0 <= j < i ==> #[trigger] all[j] != id@,
        decreases chain.len() - i,
    {
        if same_bytes(chain[i].as_slice(), id.as_slice()) {
            assert(all[i as int] == id@);
            return true;
        }
        i += 1;
    }
    false
}

/// How many move records are not in the chain.
fn count_ignored(state: &GameState, chain: &Vec<RecordId>) -> (r: usize)
    ensures
        r == passed_over(state@, id_views(chain@)).len(),
{
    let ghost m = state@;
    let ghost ids = state.records.ids();
    let ghost s = passed_over(m, id_views(chain@));
    proof {
        use_type_invariant(&state.records);
        bytemap::ascending_lists(m.dom());
    }
    let n: usize = state.records.len();
    let mut found: usize = 0;
    let ghost mut seen: Set<Seq<u8>> = Set::empty();
    let mut i: usize = 0;
    while i < n
        invariant
            i <= n,
            n == ids.len(),
            m == state@,
            ids == state.records.ids(),
            s == passed_over(m, id_views(chain@)),
            bytemap::is_ascending(ids),
            seen.finite(),
            seen.len() == found,
            found <= i,
            forall|x: Seq<u8>| #[trigger]
                seen.contains(x) ==> s.contains(x) && exists|t: int| 0 <= t < i && ids[t] == x,
            forall|t: int| 0 <= t < i && s.contains(#[trigger] ids[t]) ==> seen.contains(ids[t]),
        decreases n - i,
    {
        let rec = state.records.value_at(i);
        let ghost x = ids[i as int];
        let ghost prior = seen;
        assert(m.contains_key(x));
        if matches!(rec.body, Body::Move { .. }) && !in_chain(chain, state.records.id_at(i)) {
            proof {
                if prior.contains(x) {
                    let t = choose|t: int| 0 <= t < i && ids[t] == x;
                    assert(crate::bytes::lex_lt(ids[t], ids[i as int]));
                    crate::bytes::lex_irreflexive(x);
                }
                seen = prior.insert(x);
            }
            found += 1;
        }
        proof {
            assert forall|y: Seq<u8>| #[trigger] seen.contains(y) implies s.contains(y)
                && exists|t: int| 0 <= t < i + 1 && ids[t] == y by {
                if prior.contains(y) {
                    let t = choose|t: int| 0 <= t < i && ids[t] == y;
                    assert(0 <= t < i + 1 && ids[t] == y);
                } else {
                    assert(ids[i as int] == y);
                }
            }
        }
        i += 1;
    }
    proof {
        assert forall|x: Seq<u8>| #[trigger] s.contains(x) implies seen.contains(x) by {
            assert(m.dom().contains(x));
            let t = choose|t: int| 0 <= t < ids.len() && ids[t] == x;
            assert(s.contains(ids[t]));
        }
        assert(seen =~= s);
    }
    found
}

/// The whole game, as a function of the record set.
///
/// Precedence is fixed so that every peer reaches the same answer: forfeit,
/// then resignation, then the board, then a draw claim, then a draw agreement.
pub fn project(state: &GameState, params: &GameParams) -> (r: Status)
    ensures
        r@ == projected(state@, params@),
{
    let Walk { pos, chain, auto_draw, repetitions } = walk(state, params);
    let head: RecordId = if chain.len() == 0 {
        params.genesis()
    } else {
        chain[chain.len() - 1]
    };
    let turn: Color = chess::turn(&pos);
    let halfmoves: u32 = chess::halfmoves(&pos);
    let facts = Facts {
        white_double_signed: signed_twice(state, params, Color::White),
        black_double_signed: signed_twice(state, params, Color::Black),
        white_resigned: resigned(state, params, Color::White),
        black_resigned: resigned(state, params, Color::Black),
        checkmate: chess::is_checkmate(&pos),
        stalemate: chess::is_stalemate(&pos),
        insufficient_material: chess::is_insufficient_material(&pos),
        automatic_draw: auto_draw,
        turn,
        repetitions,
        halfmoves,
        claimed: draw_claimed(state, params, &head, turn),
        agreed: draw_agreed(state, params, &head),
    };
    let ignored: usize = count_ignored(state, &chain);
    let fen = chess::position_fen(&pos);
    assert(id_views(chain@).len() == chain@.len());
    assert(facts == facts_of(state@, params@, walked(state@, params@)));
    Status {
        decision: verdict(facts),
        ply: chain.len() as u16,
        turn,
        fen: chess::write_fen(&fen),
        chain,
        ignored,
        repetitions,
        halfmove_clock: halfmoves,
    }
}

// ---------------------------------------------------------------------------
// The next move.
// ---------------------------------------------------------------------------

/// The body of the move that a player would sign: in the notation the rules of
/// chess prefer, at the next ply, on top of the head. `None` where the game is
/// over, it is not their turn, or the move is not legal.
pub open spec fn next_move(
    status: StatusView,
    params: ParamsView,
    signer: Seq<u8>,
    uci: Seq<char>,
) -> Option<BodyView> {
    if status.decision is Some || status.ply >= 65535 {
        None
    } else if params.color_of(signer) != Some(status.turn) {
        None
    } else {
        match chess::position_read(status.fen) {
            None => None,
            Some(pos) => match chess::move_read(pos, uci) {
                None => None,
                Some(mv) => Some(
                    BodyView::Move {
                        ply: (status.ply + 1) as u16,
                        parent: head_of(status.chain, params),
                        uci: chess::uci_of_move(mv),
                    },
                ),
            },
        }
    }
}

/// The body of the next move at a status.
pub fn plan_next_move(
    status: &Status,
    params: &GameParams,
    signer: &KeyBytes,
    uci: &str,
) -> (r: Option<Body>)
    ensures
        match r {
            Some(b) => next_move(status@, params@, signer@, uci@) == Some(b@),
            None => next_move(status@, params@, signer@, uci@) is None,
        },
{
    if status.is_over() || status.ply == u16::MAX {
        return None;
    }
    if params.color_of(signer) != Some(status.turn) {
        return None;
    }
    let pos = match chess::read_position(status.fen.as_str()) {
        Some(p) => p,
        None => return None,
    };
    let mv = match chess::read_move(&pos, uci) {
        Some(m) => m,
        None => return None,
    };
    // The canonical spelling, not whatever the caller typed: one move, one
    // body.
    let canonical = chess::move_to_uci(mv);
    Some(
        Body::Move {
            ply: status.ply + 1,
            parent: status.head(params),
            uci: chess::write_uci(&canonical),
        },
    )
}

/// Build the next move record for `key`, or `None` if it isn't their turn,
/// the game is over, or the move is illegal. The record is valid as long as
/// the ply is within the cap.
pub fn make_move(
    state: &GameState,
    params: &GameParams,
    key: &SigningKey,
    uci: &str,
) -> (r: Option<Record>)
    ensures
        ({
            let signer = crypto::public_key(crypto::seed_of(*key));
            let body = next_move(projected(state@, params@), params@, signer, uci@);
            match r {
                Some(rec) => {
                    &&& body == Some(rec@.body)
                    &&& rec@.signer == signer
                    &&& rec@.sig == crypto::signature_over(
                        crypto::seed_of(*key),
                        types::payload(params@.game_id(), rec@.body),
                    )
                    &&& rec@.valid(params@) <==> projected(state@, params@).ply < types::MAX_PLY
                },
                None => body is None,
            }
        }),
{
    let status = project(state, params);
    let public = crypto::verifying_key(key);
    let signer = crypto::verifying_key_bytes(&public);
    match plan_next_move(&status, params, &signer, uci) {
        Some(body) => Some(Record::sign(key, params, body)),
        None => None,
    }
}

/// The UCI notation of the legal moves at a status; none once the game is over.
pub open spec fn moves_listed(status: StatusView) -> Seq<Seq<char>> {
    if status.decision is Some {
        Seq::empty()
    } else {
        match chess::position_read(status.fen) {
            None => Seq::empty(),
            Some(pos) => chess::moves_of(pos).map_values(|m: Seq<char>| chess::uci_of_move(m)),
        }
    }
}

/// The text spells a legal move at the status, in the notation it is written
/// with.
pub open spec fn is_spelling(status: StatusView, uci: Seq<char>) -> bool {
    &&& status.decision is None
    &&& chess::position_read(status.fen) matches Some(pos) && chess::is_canonical(pos, uci)
}

/// The spellings of legal moves are those that the player to move can have
/// played, and that stay as they are in the record.
pub proof fn spellings_are_played_as_they_are(
    status: StatusView,
    params: ParamsView,
    signer: Seq<u8>,
    uci: Seq<char>,
)
    requires
        params.color_of(signer) == Some(status.turn),
        status.ply < u16::MAX,
    ensures
        is_spelling(status, uci) <==> (next_move(status, params, signer, uci) matches Some(
            BodyView::Move { uci: played, .. },
        ) && played == uci),
{
}

/// The UCI notation of the legal moves of a position. Where castling is
/// standard, each comes once and is read back as its move, and there is no
/// other text that is a move's own notation.
pub(crate) fn moves_in(pos: &Chess) -> (r: Vec<String>)
    ensures
        text_views(r@) == chess::moves_of(chess::position_text(*pos)).map_values(
            |m: Seq<char>| chess::uci_of_move(m),
        ),
        board::spelled_out(chess::position_text(*pos), text_views(r@)),
        chess::is_standard(chess::position_text(*pos)) ==> {
            &&& text_views(r@).no_duplicates()
            &&& forall|uci: Seq<char>| #[trigger]
                text_views(r@).contains(uci) <==> chess::is_canonical(
                    chess::position_text(*pos),
                    uci,
                )
        },
{
    let moves = chess::legal(pos);
    let ghost texts = chess::move_texts(moves@);
    let mut out: Vec<String> = Vec::new();
    let mut i: usize = 0;
    while i < moves.len()
        invariant
            i <= moves.len(),
            texts == chess::move_texts(moves@),
            out@.len() == i,
            forall|j: int| 0 <= j < i ==> (#[trigger] out@[j])@ == chess::uci_of_move(texts[j]),
        decreases moves.len() - i,
    {
        let uci = chess::move_to_uci(moves[i]);
        out.push(chess::write_uci(&uci));
        i += 1;
    }
    let ghost all = text_views(out@);
    assert(all =~= texts.map_values(|m: Seq<char>| chess::uci_of_move(m)));
    proof {
        let at = chess::position_text(*pos);
        if chess::is_standard(at) {
            assert forall|j: int| 0 <= j < all.len() implies chess::move_read(
                at,
                #[trigger] all[j],
            ) == Some(texts[j]) by {
                assert(texts[j] == chess::move_text(moves@[j]));
            }
            assert forall|uci: Seq<char>| #[trigger] all.contains(uci) <==> chess::is_canonical(
                at,
                uci,
            ) by {
                if all.contains(uci) {
                    let j = all.index_of(uci);
                    assert(all[j] == chess::uci_of_move(texts[j]));
                }
                if chess::is_canonical(at, uci) {
                    let m = chess::move_read(at, uci)->0;
                    let j = texts.index_of(m);
                    assert(all[j] == uci);
                }
            }
            assert forall|i: int, j: int| 0 <= i < j < all.len() implies all[i] != all[j] by {
                assert(chess::move_read(at, all[i]) == Some(texts[i]));
                assert(chess::move_read(at, all[j]) == Some(texts[j]));
            }
        }
    }
    out
}

/// Legal moves in the current position, in UCI notation: each once, and exactly
/// the spellings under which a move is played as it is.
pub fn legal_moves(state: &GameState, params: &GameParams) -> (r: Vec<String>)
    ensures
        text_views(r@) == moves_listed(projected(state@, params@)),
        text_views(r@).no_duplicates(),
        forall|uci: Seq<char>| #[trigger]
            text_views(r@).contains(uci) <==> is_spelling(projected(state@, params@), uci),
        forall|uci: Seq<char>| #[trigger]
            text_views(r@).contains(uci) ==> (board::promotes(
                projected(state@, params@),
                board::start_of(uci),
                board::end_of(uci),
            ) <==> uci.len() == 5),
{
    let status = project(state, params);
    if status.is_over() {
        let none: Vec<String> = Vec::new();
        assert(text_views(none@) =~= Seq::empty());
        return none;
    }
    match chess::read_position(status.fen.as_str()) {
        Some(pos) => {
            let moves = moves_in(&pos);
            proof {
                let all = text_views(moves@);
                assert forall|uci: Seq<char>| #[trigger] all.contains(uci) implies (board::promotes(
                    status@,
                    board::start_of(uci),
                    board::end_of(uci),
                ) <==> uci.len() == 5) by {
                    board::a_letter_tells_a_promotion(status@, uci);
                }
            }
            moves
        },
        None => {
            let none: Vec<String> = Vec::new();
            assert(text_views(none@) =~= Seq::empty());
            none
        },
    }
}

/// A move is made exactly in an undecided game, by the player to move, and where
/// it is legal; it goes on top of the chain, at the ply after it.
pub proof fn a_move_is_made_in_turn(
    status: StatusView,
    params: ParamsView,
    signer: Seq<u8>,
    uci: Seq<char>,
)
    requires
        0 <= status.ply < 65535,
    ensures
        next_move(status, params, signer, uci) is Some <==> {
            &&& status.decision is None
            &&& params.color_of(signer) == Some(status.turn)
            &&& chess::position_read(status.fen) matches Some(pos) && chess::move_read(pos, uci)
                is Some
        },
        next_move(status, params, signer, uci) matches Some(body) ==> {
            &&& body is Move
            &&& body->Move_ply == status.ply + 1
            &&& body->Move_parent == if status.chain.len() == 0 {
                params.genesis()
            } else {
                status.chain[status.chain.len() - 1]
            }
        },
{
}

/// Nothing is legal once a game is over, and nothing can be made of it.
pub proof fn nothing_is_legal_after_the_end(
    status: StatusView,
    params: ParamsView,
    signer: Seq<u8>,
    uci: Seq<char>,
)
    requires
        status.decision is Some,
    ensures
        moves_listed(status).len() == 0,
        !is_spelling(status, uci),
        next_move(status, params, signer, uci) is None,
{
}

} // verus!
