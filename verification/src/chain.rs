//! The laws of the projection: the chain is linked, what a player cannot take
//! back stays said, and a peer that has seen less of the game sees an earlier
//! part of it.

use vstd::prelude::*;
use crate::algebra;
use crate::chess;
use crate::project;
use crate::project::WalkView;
use crate::state;
use crate::types;
use crate::types::{BodyView, Color, Kind, ParamsView, RecordView};

verus! {

/// The `i`-th id of a chain is a move at ply `i + 1`, by the player whose turn
/// it was, on top of the id before it.
pub open spec fn linked_at(
    m: Map<Seq<u8>, RecordView>,
    params: ParamsView,
    chain: Seq<Seq<u8>>,
    i: int,
) -> bool {
    &&& m.contains_key(chain[i])
    &&& m[chain[i]].signer == params.key_of(types::side_at(i + 1))
    &&& m[chain[i]].body matches BodyView::Move { ply, parent, .. } && ply == i + 1 && parent
        == project::head_of(chain.take(i), params)
}

/// The accepted chain is linked from genesis to head.
pub proof fn the_chain_is_linked(m: Map<Seq<u8>, RecordView>, params: ParamsView)
    ensures
        forall|i: int|
            0 <= i < project::walked(m, params).chain.len() ==> #[trigger] linked_at(
                m,
                params,
                project::walked(m, params).chain,
                i,
            ),
{
    linked_from(m, params, project::at_start());
}

proof fn linked_from(m: Map<Seq<u8>, RecordView>, params: ParamsView, w: WalkView)
    requires
        forall|i: int| 0 <= i < w.chain.len() ==> #[trigger] linked_at(m, params, w.chain, i),
    ensures
        forall|i: int|
            0 <= i < project::walked_from(m, params, w).chain.len() ==> #[trigger] linked_at(
                m,
                params,
                project::walked_from(m, params, w).chain,
                i,
            ),
    decreases 65536 - w.chain.len(),
{
    let ply = w.chain.len() as int + 1;
    if ply <= 65535 {
        let head = project::head_of(w.chain, params);
        match project::continuation(m, params, w.pos, head, ply) {
            None => {
                assert(project::walked_from(m, params, w) == w);
            },
            Some((k, mv)) => {
                let s = project::moves_at(m, params.key_of(types::side_at(ply)), ply);
                assert(s.contains(k)) by {
                    assert(s.len() == 1);
                    if forall|x: Seq<u8>| !s.contains(x) {
                        assert(s =~= Set::empty());
                    }
                }
                let next = project::stepped(w, k, mv);
                assert forall|i: int| 0 <= i < next.chain.len() implies #[trigger] linked_at(
                    m,
                    params,
                    next.chain,
                    i,
                ) by {
                    assert(next.chain.take(i) =~= w.chain.take(i));
                    if i < w.chain.len() {
                        assert(linked_at(m, params, w.chain, i));
                    } else {
                        assert(w.chain.take(i) =~= w.chain);
                    }
                }
                if !next.auto_draw {
                    linked_from(m, params, next);
                    assert(project::walked_from(m, params, w) == project::walked_from(
                        m,
                        params,
                        next,
                    ));
                } else {
                    assert(project::walked_from(m, params, w) == next);
                }
            },
        }
    } else {
        assert(project::walked_from(m, params, w) == w);
    }
}

/// Two moves by one key at one ply are a double sign.
proof fn two_moves_collide(
    m: Map<Seq<u8>, RecordView>,
    params: ParamsView,
    color: Color,
    ply: int,
)
    requires
        m.dom().finite(),
        project::moves_at(m, params.key_of(color), ply).len() >= 2,
    ensures
        project::double_signed(m, params, Color::White) || project::double_signed(
            m,
            params,
            Color::Black,
        ),
{
    let s = project::moves_at(m, params.key_of(color), ply);
    assert(s.subset_of(m.dom()));
    vstd::set_lib::lemma_len_subset(s, m.dom());
    let j = s.choose();
    let k = s.remove(j).choose();
    assert(s.contains(j));
    assert(s.remove(j).contains(k));
    assert(m.contains_key(j) && m.contains_key(k));
    assert(project::same_ply_moves(m[j], m[k]));
    let c = params.color_of(params.key_of(color));
    assert(c is Some);
    assert(project::double_signed(m, params, c->0));
}

/// A peer that holds a part of the records sees the same game up to the point
/// where its records run out -- as long as nobody signed twice at one ply. A
/// double sign cuts the chain before it, so the peer that knows of it may see
/// less than one that does not.
pub proof fn a_part_shows_a_beginning(
    part: Map<Seq<u8>, RecordView>,
    whole: Map<Seq<u8>, RecordView>,
    params: ParamsView,
)
    requires
        whole.dom().finite(),
        part.submap_of(whole),
        !project::double_signed(whole, params, Color::White),
        !project::double_signed(whole, params, Color::Black),
    ensures
        project::walked(part, params).chain.is_prefix_of(project::walked(whole, params).chain),
{
    beginning_from(part, whole, params, project::at_start());
}

proof fn walk_extends(m: Map<Seq<u8>, RecordView>, params: ParamsView, w: WalkView)
    ensures
        w.chain.is_prefix_of(project::walked_from(m, params, w).chain),
    decreases 65536 - w.chain.len(),
{
    let ply = w.chain.len() as int + 1;
    if ply <= 65535 {
        match project::continuation(m, params, w.pos, project::head_of(w.chain, params), ply) {
            None => {},
            Some((k, mv)) => {
                let next = project::stepped(w, k, mv);
                if !next.auto_draw {
                    walk_extends(m, params, next);
                }
            },
        }
    }
}

proof fn beginning_from(
    part: Map<Seq<u8>, RecordView>,
    whole: Map<Seq<u8>, RecordView>,
    params: ParamsView,
    w: WalkView,
)
    requires
        whole.dom().finite(),
        part.submap_of(whole),
        !project::double_signed(whole, params, Color::White),
        !project::double_signed(whole, params, Color::Black),
    ensures
        project::walked_from(part, params, w).chain.is_prefix_of(
            project::walked_from(whole, params, w).chain,
        ),
    decreases 65536 - w.chain.len(),
{
    let ply = w.chain.len() as int + 1;
    if ply <= 65535 {
        let head = project::head_of(w.chain, params);
        let color = types::side_at(ply);
        match project::continuation(part, params, w.pos, head, ply) {
            None => {
                walk_extends(whole, params, w);
            },
            Some((k, mv)) => {
                let s = project::moves_at(part, params.key_of(color), ply);
                let t = project::moves_at(whole, params.key_of(color), ply);
                assert(t.subset_of(whole.dom()));
                vstd::set_lib::lemma_len_subset(t, whole.dom());
                assert(s.subset_of(t)) by {
                    assert forall|x: Seq<u8>| #[trigger] s.contains(x) implies t.contains(x) by {
                        assert(part.contains_key(x));
                        assert(whole.contains_key(x));
                        assert(whole[x] == part[x]);
                    }
                }
                vstd::set_lib::lemma_len_subset(s, t);
                if t.len() >= 2 {
                    two_moves_collide(whole, params, color, ply);
                }
                vstd::set_lib::lemma_subset_equality(s, t);
                assert(s.contains(k)) by {
                    if forall|x: Seq<u8>| !s.contains(x) {
                        assert(s =~= Set::empty());
                    }
                }
                assert(part.dom().contains(k));
                assert(whole[k] == part[k]);
                let next = project::stepped(w, k, mv);
                if !next.auto_draw {
                    beginning_from(part, whole, params, next);
                }
            },
        }
    }
}

/// A double sign cannot be undone: merging anything in leaves the forfeit.
pub proof fn a_forfeit_is_final(
    a: Map<Seq<u8>, RecordView>,
    b: Map<Seq<u8>, RecordView>,
    params: ParamsView,
    color: Color,
)
    requires
        state::well_formed(a),
        state::well_formed(b),
        algebra::agree(a, b),
        project::double_signed(a, params, color),
    ensures
        project::double_signed(state::merge_of(a, b, params), params, color),
        project::projected(state::merge_of(a, b, params), params).decision matches Some(d)
            && d.reason == project::Reason::DoubleSignForfeit && d.winner != Some(color),
{
    let (j, k) = choose|j: Seq<u8>, k: Seq<u8>|
        j != k && #[trigger] a.contains_key(j) && #[trigger] a.contains_key(k) && params.color_of(
            a[j].signer,
        ) == Some(color) && params.color_of(a[k].signer) == Some(color) && project::same_ply_moves(
            a[j],
            a[k],
        );
    let signer = a[j].signer;
    assert(a[k].signer == signer);
    let ply = a[j].body.ply()->0;
    let g = (signer, Kind::Move, ply);
    let s = algebra::members(a, g);
    assert(s.contains(j) && s.contains(k));
    assert(s.subset_of(a.dom()));
    vstd::set_lib::lemma_len_subset(s, a.dom());
    assert(s.remove(j).contains(k));
    assert(s.remove(j).len() > 0);
    algebra::a_double_sign_survives(a, b, params, signer, ply);
    let m = state::merge_of(a, b, params);
    let t = algebra::members(m, g);
    algebra::union_is_sound(a, b, params);
    algebra::trimming_is_sound(state::joined(a, b, params), params);
    assert(t.subset_of(m.dom()));
    vstd::set_lib::lemma_len_subset(t, m.dom());
    let x = t.choose();
    let y = t.remove(x).choose();
    assert(t.contains(x));
    assert(t.remove(x).contains(y));
    assert(m.contains_key(x) && m.contains_key(y));
    assert(project::same_ply_moves(m[x], m[y]));
}

/// A resignation cannot be taken back, and cannot be evicted.
pub proof fn a_resignation_is_final(
    a: Map<Seq<u8>, RecordView>,
    b: Map<Seq<u8>, RecordView>,
    params: ParamsView,
    color: Color,
)
    requires
        algebra::agree(a, b),
        project::has_resigned(a, params, color),
    ensures
        project::has_resigned(state::merge_of(a, b, params), params, color),
{
    let k = choose|k: Seq<u8>| #[trigger]
        a.contains_key(k) && a[k].body is Resign && params.color_of(a[k].signer) == Some(color);
    assert(a.contains_key(k) && b.contains_key(k) ==> a[k].body == b[k].body && a[k].signer
        == b[k].signer);
    let u = state::joined(a, b, params);
    assert(u.contains_key(k));
    assert(state::merge_of(a, b, params).contains_key(k));
}

/// A player who resigned does not win, unless the opponent double-signed.
pub proof fn who_resigns_does_not_win(
    m: Map<Seq<u8>, RecordView>,
    params: ParamsView,
    color: Color,
)
    requires
        project::has_resigned(m, params, color),
        !project::double_signed(m, params, color.opposite()),
    ensures
        project::projected(m, params).decision matches Some(d) && d.winner != Some(color),
{
}

// ---------------------------------------------------------------------------
// The next move.
// ---------------------------------------------------------------------------

/// A record that is the only move of the player to move at the next ply, on
/// top of the head, and legal there.
pub open spec fn is_next_move(
    m: Map<Seq<u8>, RecordView>,
    params: ParamsView,
    k: Seq<u8>,
    r: RecordView,
) -> bool {
    let w = project::walked(m, params);
    let ply = w.chain.len() as int + 1;
    &&& !m.contains_key(k)
    &&& r.signer == params.key_of(types::side_at(ply))
    &&& project::moves_at(m, r.signer, ply) == Set::<Seq<u8>>::empty()
    &&& r.body matches BodyView::Move { ply: p, parent, uci } && p == ply && parent
        == project::head_of(w.chain, params) && chess::move_read(w.pos, uci) is Some
}

proof fn walk_unchanged_before(
    m: Map<Seq<u8>, RecordView>,
    params: ParamsView,
    k: Seq<u8>,
    r: RecordView,
    w: WalkView,
)
    requires
        !m.contains_key(k),
        project::is_move_at(r, project::walked_from(m, params, w).chain.len() as int + 1),
    ensures
        project::walked_from(m.insert(k, r), params, w) == project::walked_from(
            m.insert(k, r),
            params,
            project::walked_from(m, params, w),
        ) || project::walked_from(m, params, w).auto_draw,
    decreases 65536 - w.chain.len(),
{
    let more = m.insert(k, r);
    let ply = w.chain.len() as int + 1;
    if ply <= 65535 {
        match project::continuation(m, params, w.pos, project::head_of(w.chain, params), ply) {
            None => {},
            Some((j, mv)) => {
                let next = project::stepped(w, j, mv);
                walk_extends(m, params, next);
                let key = params.key_of(types::side_at(ply));
                assert(project::moves_at(more, key, ply) =~= project::moves_at(m, key, ply)) by {
                    assert(project::walked_from(m, params, w).chain.len() >= ply);
                    assert(!project::is_move_at(r, ply));
                }
                let s = project::moves_at(m, key, ply);
                assert(m.contains_key(s.choose())) by {
                    assert(s.len() == 1);
                    assert(s.contains(s.choose()));
                }
                assert(project::continuation(
                    more,
                    params,
                    w.pos,
                    project::head_of(w.chain, params),
                    ply,
                ) == Some((j, mv)));
                if !next.auto_draw {
                    walk_unchanged_before(m, params, k, r, next);
                }
            },
        }
    }
}

/// A legal move advances the game: once the record of it is there, the chain
/// goes on from where it stood, over that record.
pub proof fn a_legal_move_advances_the_game(
    m: Map<Seq<u8>, RecordView>,
    params: ParamsView,
    k: Seq<u8>,
    r: RecordView,
)
    requires
        is_next_move(m, params, k, r),
        !project::walked(m, params).auto_draw,
    ensures
        project::walked(m, params).chain.push(k).is_prefix_of(
            project::walked(m.insert(k, r), params).chain,
        ),
        project::projected(m.insert(k, r), params).ply > project::projected(m, params).ply,
{
    let more = m.insert(k, r);
    let w = project::walked(m, params);
    let ply = w.chain.len() as int + 1;
    let key = params.key_of(types::side_at(ply));
    walk_unchanged_before(m, params, k, r, project::at_start());
    assert(project::moves_at(more, key, ply) =~= set![k]) by {
        assert forall|j: Seq<u8>| #[trigger]
            project::moves_at(more, key, ply).contains(j) implies j == k by {
            if j != k {
                assert(project::moves_at(m, key, ply).contains(j));
            }
        }
    }
    let s = project::moves_at(more, key, ply);
    assert(s.len() == 1);
    assert(s.contains(s.choose()));
    let next = project::stepped(
        w,
        k,
        chess::move_read(w.pos, r.body->uci)->0,
    );
    assert(next.chain == w.chain.push(k));
    walk_extends(more, params, next);
}

// ---------------------------------------------------------------------------
// How far the chain goes.
// ---------------------------------------------------------------------------

/// The walk kept count: one position was seen before the first move and one
/// after each, the last of them the one it stands at, and it stopped at an
/// automatic draw exactly if it ended in one.
pub open spec fn counted(w: WalkView) -> bool {
    &&& w.seen.len() == w.chain.len() + 1
    &&& w.seen.last() == chess::epd_of(w.pos)
    &&& w.auto_draw <==> w.chain.len() > 0 && (project::occurrences(w.seen, w.seen.last()) >= 5
        || chess::quiet_halfmoves(w.pos) >= 150)
}

proof fn counted_from(m: Map<Seq<u8>, RecordView>, params: ParamsView, w: WalkView)
    requires
        counted(w),
    ensures
        counted(project::walked_from(m, params, w)),
    decreases 65536 - w.chain.len(),
{
    let ply = w.chain.len() as int + 1;
    if ply <= 65535 {
        match project::continuation(m, params, w.pos, project::head_of(w.chain, params), ply) {
            None => {},
            Some((k, mv)) => {
                let next = project::stepped(w, k, mv);
                if !next.auto_draw {
                    counted_from(m, params, next);
                }
            },
        }
    }
}

/// A list holds each key at most as often as it is long.
proof fn occurrences_bounded(list: Seq<Seq<char>>, key: Seq<char>)
    ensures
        project::occurrences(list, key) <= list.len(),
    decreases list.len(),
{
    if list.len() > 0 {
        occurrences_bounded(list.drop_last(), key);
    }
}

/// The position that is reached has occurred once at least, and no more often
/// than there were positions. The game stops by itself exactly when a move
/// brings a position for the fifth time, or the hundred and fiftieth half-move
/// in a row without a capture or a pawn move.
pub proof fn repetitions_are_counted(m: Map<Seq<u8>, RecordView>, params: ParamsView)
    ensures
        1 <= project::projected(m, params).repetitions <= project::projected(m, params).ply + 1,
        project::walked(m, params).auto_draw <==> {
            &&& project::projected(m, params).ply > 0
            &&& project::projected(m, params).repetitions >= 5 || project::projected(
                m,
                params,
            ).halfmove_clock >= 150
        },
{
    let start = project::at_start();
    assert(start.seen.drop_last() =~= Seq::empty());
    counted_from(m, params, start);
    let w = project::walked(m, params);
    occurrences_bounded(w.seen, w.seen.last());
    assert(project::occurrences(w.seen, w.seen.last()) >= 1);
}

proof fn stops_for_a_reason(m: Map<Seq<u8>, RecordView>, params: ParamsView, w: WalkView)
    ensures
        ({
            let end = project::walked_from(m, params, w);
            ||| end.auto_draw
            ||| end.chain.len() >= 65535
            ||| project::continuation(
                m,
                params,
                end.pos,
                project::head_of(end.chain, params),
                end.chain.len() as int + 1,
            ) is None
        }),
    decreases 65536 - w.chain.len(),
{
    let ply = w.chain.len() as int + 1;
    if ply <= 65535 {
        match project::continuation(m, params, w.pos, project::head_of(w.chain, params), ply) {
            None => {},
            Some((k, mv)) => {
                let next = project::stepped(w, k, mv);
                if !next.auto_draw {
                    stops_for_a_reason(m, params, next);
                }
            },
        }
    }
}

/// The chain goes as far as the records lead: where it stops without an
/// automatic draw, no record is the one move of the player to move at the next
/// ply, on top of the head, and legal there.
pub proof fn no_next_move_is_left_out(
    m: Map<Seq<u8>, RecordView>,
    params: ParamsView,
    k: Seq<u8>,
)
    requires
        m.contains_key(k),
        project::walked(m, params).chain.len() < 65535,
        !project::walked(m, params).auto_draw,
    ensures
        ({
            let w = project::walked(m, params);
            let ply = w.chain.len() as int + 1;
            !({
                &&& m[k].signer == params.key_of(types::side_at(ply))
                &&& m[k].body matches BodyView::Move { ply: p, parent, uci } && p == ply && parent
                    == project::head_of(w.chain, params) && chess::move_read(w.pos, uci) is Some
                &&& forall|j: Seq<u8>|
                    #![trigger m[j]]
                    m.contains_key(j) && m[j].signer == m[k].signer && project::is_move_at(
                        m[j],
                        ply,
                    ) ==> j == k
            })
        }),
{
    let w = project::walked(m, params);
    let ply = w.chain.len() as int + 1;
    stops_for_a_reason(m, params, project::at_start());
    let s = project::moves_at(m, params.key_of(types::side_at(ply)), ply);
    if m[k].signer == params.key_of(types::side_at(ply)) && project::is_move_at(m[k], ply) && (
    forall|j: Seq<u8>|
        #![trigger m[j]]
        m.contains_key(j) && m[j].signer == m[k].signer && project::is_move_at(m[j], ply) ==> j
            == k) {
        assert(s =~= set![k]);
        assert(s.len() == 1);
        assert(s.contains(s.choose()));
    }
}

/// Every move record is either in the chain or passed over, and none is both.
pub proof fn every_move_is_accounted_for(m: Map<Seq<u8>, RecordView>, params: ParamsView)
    requires
        m.dom().finite(),
    ensures
        Set::new(|k: Seq<u8>| m.contains_key(k) && m[k].body is Move).len() == project::projected(
            m,
            params,
        ).ignored + project::projected(m, params).ply,
{
    let chain = project::walked(m, params).chain;
    let moves = Set::new(|k: Seq<u8>| m.contains_key(k) && m[k].body is Move);
    let over = project::passed_over(m, chain);
    the_chain_is_linked(m, params);
    assert forall|i: int, j: int| 0 <= i < j < chain.len() implies chain[i] != chain[j] by {
        assert(linked_at(m, params, chain, i));
        assert(linked_at(m, params, chain, j));
    }
    chain.unique_seq_to_set();
    let played = chain.to_set();
    assert(moves.subset_of(m.dom()));
    vstd::set_lib::lemma_len_subset(moves, m.dom());
    assert forall|k: Seq<u8>| #[trigger] played.contains(k) implies moves.contains(k) by {
        let i = chain.index_of(k);
        assert(linked_at(m, params, chain, i));
    }
    assert(over.subset_of(m.dom()));
    vstd::set_lib::lemma_len_subset(over, m.dom());
    assert(over + played =~= moves);
    assert(over.disjoint(played));
    vstd::set_lib::lemma_set_disjoint_lens(over, played);
}

// ---------------------------------------------------------------------------
// What decides a game.
// ---------------------------------------------------------------------------

/// The facts of the same game with the colours exchanged.
pub open spec fn mirrored(f: project::Facts) -> project::Facts {
    project::Facts {
        white_double_signed: f.black_double_signed,
        black_double_signed: f.white_double_signed,
        white_resigned: f.black_resigned,
        black_resigned: f.white_resigned,
        turn: f.turn.opposite(),
        ..f
    }
}

/// Nothing is decided for one colour that would not be decided for the other in
/// its place: with the colours exchanged, the other colour wins, for the same
/// reason.
pub proof fn no_colour_is_favoured(f: project::Facts)
    ensures
        match project::outcome(f) {
            None => project::outcome(mirrored(f)) is None,
            Some(d) => project::outcome(mirrored(f)) == Some(
                project::Decision {
                    winner: match d.winner {
                        Some(c) => Some(c.opposite()),
                        None => None,
                    },
                    reason: d.reason,
                },
            ),
        },
{
}

/// Who signed two moves at one ply loses, whatever else there is; where both
/// did, nobody wins.
pub proof fn who_signs_twice_loses(
    m: Map<Seq<u8>, RecordView>,
    params: ParamsView,
    color: Color,
)
    requires
        project::double_signed(m, params, color),
    ensures
        project::projected(m, params).decision == Some(
            project::Decision {
                winner: if project::double_signed(m, params, color.opposite()) {
                    None
                } else {
                    Some(color.opposite())
                },
                reason: project::Reason::DoubleSignForfeit,
            },
        ),
{
}

/// Who resigns loses, whatever the board shows and whatever was claimed or
/// agreed, as long as nobody signed twice; where both resign, it is a draw.
pub proof fn who_resigns_loses(
    m: Map<Seq<u8>, RecordView>,
    params: ParamsView,
    color: Color,
)
    requires
        project::has_resigned(m, params, color),
        !project::double_signed(m, params, Color::White),
        !project::double_signed(m, params, Color::Black),
    ensures
        project::projected(m, params).decision == Some(
            if project::has_resigned(m, params, color.opposite()) {
                project::Decision { winner: None, reason: project::Reason::MutualResignation }
            } else {
                project::Decision {
                    winner: Some(color.opposite()),
                    reason: project::Reason::Resignation,
                }
            },
        ),
{
}

/// Somebody signed twice, or resigned.
pub open spec fn given_away(m: Map<Seq<u8>, RecordView>, params: ParamsView) -> bool {
    exists|color: Color| #[trigger]
        project::double_signed(m, params, color) || project::has_resigned(m, params, color)
}

/// Where nobody signed twice or resigned, the board comes next: who is mated
/// loses, and stalemate, too little material, and the automatic draws are draws.
/// No claim and no agreement changes that.
pub proof fn the_board_decides_before_the_players(m: Map<Seq<u8>, RecordView>, params: ParamsView)
    requires
        !given_away(m, params),
    ensures
        ({
            let w = project::walked(m, params);
            let d = project::projected(m, params).decision;
            &&& chess::checkmated(w.pos) ==> d == Some(
                project::Decision {
                    winner: Some(project::projected(m, params).turn.opposite()),
                    reason: project::Reason::Checkmate,
                },
            )
            &&& !chess::checkmated(w.pos) && (chess::stalemated(w.pos) || chess::insufficient(
                w.pos,
            ) || w.auto_draw) ==> (d matches Some(e) && e.winner is None && match e.reason {
                project::Reason::Stalemate => chess::stalemated(w.pos),
                project::Reason::InsufficientMaterial => chess::insufficient(w.pos)
                    && !chess::stalemated(w.pos),
                project::Reason::AutomaticDraw => w.auto_draw && !chess::stalemated(w.pos)
                    && !chess::insufficient(w.pos),
                _ => false,
            })
        }),
{
    assert(!project::double_signed(m, params, Color::White));
    assert(!project::double_signed(m, params, Color::Black));
    assert(!project::has_resigned(m, params, Color::White));
    assert(!project::has_resigned(m, params, Color::Black));
}

/// The board ends the game by itself.
pub open spec fn board_is_final(w: WalkView) -> bool {
    chess::checkmated(w.pos) || chess::stalemated(w.pos) || chess::insufficient(w.pos)
        || w.auto_draw
}

/// Where neither a player nor the board has ended the game, it goes on, unless
/// the player to move claims a draw at the head with a position that occurred
/// three times or after a hundred quiet half-moves, or a draw is agreed there.
/// A claim with neither ground is as good as none.
pub proof fn a_game_goes_on_until_a_draw(m: Map<Seq<u8>, RecordView>, params: ParamsView)
    requires
        !given_away(m, params),
        !board_is_final(project::walked(m, params)),
    ensures
        ({
            let status = project::projected(m, params);
            let head = project::head_of(status.chain, params);
            let claimed = project::has_claimed(m, params, head, status.turn) && (status.repetitions
                >= 3 || status.halfmove_clock >= 100);
            &&& status.decision is None <==> !claimed && !project::has_agreed(m, params, head)
            &&& status.decision matches Some(d) ==> d.winner is None && match d.reason {
                project::Reason::ThreefoldClaim => claimed && status.repetitions >= 3,
                project::Reason::FiftyMoveClaim => claimed && status.repetitions < 3,
                project::Reason::DrawAgreement => !claimed,
                _ => false,
            }
        }),
{
    let w = project::walked(m, params);
    assert(!project::double_signed(m, params, Color::White));
    assert(!project::double_signed(m, params, Color::Black));
    assert(!project::has_resigned(m, params, Color::White));
    assert(!project::has_resigned(m, params, Color::Black));
    let start = project::at_start();
    counted_from(m, params, start);
    occurrences_bounded(w.seen, w.seen.last());
    walk_is_short(m, params, start);
}

proof fn walk_is_short(m: Map<Seq<u8>, RecordView>, params: ParamsView, w: WalkView)
    requires
        w.chain.len() <= 65535,
    ensures
        project::walked_from(m, params, w).chain.len() <= 65535,
    decreases 65536 - w.chain.len(),
{
    let ply = w.chain.len() as int + 1;
    if ply <= 65535 {
        match project::continuation(m, params, w.pos, project::head_of(w.chain, params), ply) {
            None => {},
            Some((k, mv)) => {
                let next = project::stepped(w, k, mv);
                if !next.auto_draw {
                    walk_is_short(m, params, next);
                }
            },
        }
    }
}

/// A game that is won was won by mate, by the other player's resignation, or by
/// the other player's forfeit; whoever won did neither of the last two.
pub proof fn a_win_has_a_loser(m: Map<Seq<u8>, RecordView>, params: ParamsView)
    ensures
        project::projected(m, params).decision matches Some(d) ==> (d.winner matches Some(color)
            ==> match d.reason {
            project::Reason::Checkmate => chess::checkmated(project::walked(m, params).pos)
                && project::projected(m, params).turn == color.opposite(),
            project::Reason::Resignation => project::has_resigned(m, params, color.opposite())
                && !project::has_resigned(m, params, color),
            project::Reason::DoubleSignForfeit => project::double_signed(
                m,
                params,
                color.opposite(),
            ) && !project::double_signed(m, params, color),
            _ => false,
        }),
{
}

// ---------------------------------------------------------------------------
// What one more record does.
// ---------------------------------------------------------------------------

proof fn facts_with_one_more(
    m: Map<Seq<u8>, RecordView>,
    params: ParamsView,
    k: Seq<u8>,
    r: RecordView,
    color: Color,
    head: Seq<u8>,
)
    requires
        !m.contains_key(k),
    ensures
        ({
            let more = m.insert(k, r);
            let by = params.color_of(r.signer);
            &&& r.body !is Move || by != Some(color) ==> project::double_signed(more, params, color)
                == project::double_signed(m, params, color)
            &&& project::has_resigned(more, params, color) == (project::has_resigned(
                m,
                params,
                color,
            ) || r.body is Resign && by == Some(color))
            &&& project::has_claimed(more, params, head, color) == (project::has_claimed(
                m,
                params,
                head,
                color,
            ) || project::claims_at(r, head) && by == Some(color))
            &&& r.body !is DrawOffer || by is None ==> project::has_agreed(more, params, head) == (
            project::has_agreed(m, params, head) || project::accepts_at(m, params, r, head))
        }),
{
    let more = m.insert(k, r);
    let by = params.color_of(r.signer);
    if r.body !is Move || by != Some(color) {
        if project::double_signed(more, params, color) {
            let (i, j) = choose|i: Seq<u8>, j: Seq<u8>|
                i != j && #[trigger] more.contains_key(i) && #[trigger] more.contains_key(j)
                    && params.color_of(more[i].signer) == Some(color) && params.color_of(
                    more[j].signer,
                ) == Some(color) && project::same_ply_moves(more[i], more[j]);
            assert(m.contains_key(i) && m.contains_key(j));
        }
        if project::double_signed(m, params, color) {
            let (i, j) = choose|i: Seq<u8>, j: Seq<u8>|
                i != j && #[trigger] m.contains_key(i) && #[trigger] m.contains_key(j)
                    && params.color_of(m[i].signer) == Some(color) && params.color_of(m[j].signer)
                    == Some(color) && project::same_ply_moves(m[i], m[j]);
            assert(more.contains_key(i) && more.contains_key(j));
        }
    }
    if project::has_resigned(m, params, color) {
        let j = choose|j: Seq<u8>| #[trigger]
            m.contains_key(j) && m[j].body is Resign && params.color_of(m[j].signer) == Some(color);
        assert(more.contains_key(j));
    }
    assert(more.contains_key(k));
    if project::has_claimed(m, params, head, color) {
        let j = choose|j: Seq<u8>| #[trigger]
            m.contains_key(j) && project::claims_at(m[j], head) && params.color_of(m[j].signer)
                == Some(color);
        assert(more.contains_key(j));
    }
    if r.body !is DrawOffer || by is None {
        if project::has_agreed(more, params, head) {
            let j = choose|j: Seq<u8>| #[trigger]
                more.contains_key(j) && project::accepts_at(more, params, more[j], head);
            let offer = more[j].body->DrawAccept_offer;
            assert(offer != k);
            if j != k {
                assert(m.contains_key(j));
                assert(project::accepts_at(m, params, m[j], head));
            } else {
                assert(project::accepts_at(m, params, r, head));
            }
        }
        if project::has_agreed(m, params, head) {
            let j = choose|j: Seq<u8>| #[trigger]
                m.contains_key(j) && project::accepts_at(m, params, m[j], head);
            assert(more.contains_key(j));
            assert(project::accepts_at(more, params, more[j], head));
        }
        if project::accepts_at(m, params, r, head) {
            assert(project::accepts_at(more, params, more[k], head));
        }
    }
}

/// The record takes no part in any of the chains: it is no move, or signed by
/// nobody who plays.
proof fn walk_unchanged(
    m: Map<Seq<u8>, RecordView>,
    params: ParamsView,
    k: Seq<u8>,
    r: RecordView,
    w: WalkView,
)
    requires
        !m.contains_key(k),
        r.body !is Move || params.color_of(r.signer) is None,
    ensures
        project::walked_from(m.insert(k, r), params, w) == project::walked_from(m, params, w),
    decreases 65536 - w.chain.len(),
{
    let more = m.insert(k, r);
    let ply = w.chain.len() as int + 1;
    if ply <= 65535 {
        let key = params.key_of(types::side_at(ply));
        let head = project::head_of(w.chain, params);
        let s = project::moves_at(m, key, ply);
        assert(project::moves_at(more, key, ply) =~= s);
        if s.len() == 1 {
            assert(s.contains(s.choose())) by {
                if forall|x: Seq<u8>| !s.contains(x) {
                    assert(s =~= Set::empty());
                }
            }
            assert(m.contains_key(s.choose()));
            assert(more[s.choose()] == m[s.choose()]);
        }
        assert(project::continuation(more, params, w.pos, head, ply) == project::continuation(
            m,
            params,
            w.pos,
            head,
            ply,
        ));
        match project::continuation(m, params, w.pos, head, ply) {
            None => {},
            Some((j, mv)) => {
                let next = project::stepped(w, j, mv);
                if !next.auto_draw {
                    walk_unchanged(m, params, k, r, next);
                }
            },
        }
    }
}

/// Only moves move the game: whatever else is said leaves the position, the
/// chain and all that is counted along it as they were.
pub proof fn only_moves_move_the_game(
    m: Map<Seq<u8>, RecordView>,
    params: ParamsView,
    k: Seq<u8>,
    r: RecordView,
)
    requires
        !m.contains_key(k),
        r.body !is Move,
    ensures
        project::projected(m.insert(k, r), params) == (project::StatusView {
            decision: project::projected(m.insert(k, r), params).decision,
            ..project::projected(m, params)
        }),
        project::walked(m.insert(k, r), params) == project::walked(m, params),
{
    walk_unchanged(m, params, k, r, project::at_start());
    let chain = project::walked(m, params).chain;
    assert(project::passed_over(m.insert(k, r), chain) =~= project::passed_over(m, chain));
}

/// A record by somebody who does not play has no say: it leaves the game, and
/// how it stands decided, as they were.
pub proof fn a_stranger_has_no_say(
    m: Map<Seq<u8>, RecordView>,
    params: ParamsView,
    k: Seq<u8>,
    r: RecordView,
)
    requires
        !m.contains_key(k),
        params.color_of(r.signer) is None,
    ensures
        project::projected(m.insert(k, r), params) == (project::StatusView {
            ignored: project::projected(m.insert(k, r), params).ignored,
            ..project::projected(m, params)
        }),
{
    walk_unchanged(m, params, k, r, project::at_start());
    let w = project::walked(m, params);
    let head = project::head_of(w.chain, params);
    facts_with_one_more(m, params, k, r, Color::White, head);
    facts_with_one_more(m, params, k, r, Color::Black, head);
    assert(!project::accepts_at(m, params, r, head));
}

/// Resigning an undecided game loses it.
pub proof fn a_resignation_takes_effect(
    m: Map<Seq<u8>, RecordView>,
    params: ParamsView,
    k: Seq<u8>,
    r: RecordView,
    color: Color,
)
    requires
        !m.contains_key(k),
        project::projected(m, params).decision is None,
        r.body is Resign,
        params.color_of(r.signer) == Some(color),
    ensures
        project::projected(m.insert(k, r), params).decision == Some(
            project::Decision {
                winner: Some(color.opposite()),
                reason: project::Reason::Resignation,
            },
        ),
{
    walk_unchanged(m, params, k, r, project::at_start());
    let head = project::head_of(project::walked(m, params).chain, params);
    facts_with_one_more(m, params, k, r, Color::White, head);
    facts_with_one_more(m, params, k, r, Color::Black, head);
}

/// Claiming a draw in an undecided game ends it in a draw exactly where the
/// player to move claims at the head and there is ground for it; any other claim
/// changes nothing.
pub proof fn a_claim_takes_effect(
    m: Map<Seq<u8>, RecordView>,
    params: ParamsView,
    k: Seq<u8>,
    r: RecordView,
)
    requires
        !m.contains_key(k),
        project::projected(m, params).decision is None,
        r.body is DrawClaim,
    ensures
        ({
            let before = project::projected(m, params);
            let after = project::projected(m.insert(k, r), params);
            if r.body->DrawClaim_at == project::head_of(before.chain, params) && params.color_of(
                r.signer,
            ) == Some(before.turn) && (before.repetitions >= 3 || before.halfmove_clock >= 100) {
                after.decision == Some(
                    project::Decision {
                        winner: None,
                        reason: if before.repetitions >= 3 {
                            project::Reason::ThreefoldClaim
                        } else {
                            project::Reason::FiftyMoveClaim
                        },
                    },
                )
            } else {
                after == before
            }
        }),
{
    let w = project::walked(m, params);
    only_moves_move_the_game(m, params, k, r);
    let head = project::head_of(w.chain, params);
    facts_with_one_more(m, params, k, r, Color::White, head);
    facts_with_one_more(m, params, k, r, Color::Black, head);
    assert(!project::accepts_at(m, params, r, head));
    counted_from(m, params, project::at_start());
    occurrences_bounded(w.seen, w.seen.last());
    walk_is_short(m, params, project::at_start());
}

/// Accepting, in an undecided game, an offer that the other player made at the
/// head ends it in a draw; any other acceptance changes nothing.
pub proof fn an_acceptance_takes_effect(
    m: Map<Seq<u8>, RecordView>,
    params: ParamsView,
    k: Seq<u8>,
    r: RecordView,
)
    requires
        !m.contains_key(k),
        project::projected(m, params).decision is None,
        r.body is DrawAccept,
    ensures
        ({
            let before = project::projected(m, params);
            let after = project::projected(m.insert(k, r), params);
            let offer = r.body->DrawAccept_offer;
            if params.color_of(r.signer) is Some && m.contains_key(offer) && m[offer].body
                is DrawOffer && m[offer].body->DrawOffer_at == project::head_of(
                before.chain,
                params,
            ) && params.color_of(m[offer].signer) == Some(
                params.color_of(r.signer)->0.opposite(),
            ) {
                after.decision == Some(
                    project::Decision { winner: None, reason: project::Reason::DrawAgreement },
                )
            } else {
                after == before
            }
        }),
{
    only_moves_move_the_game(m, params, k, r);
    let head = project::head_of(project::walked(m, params).chain, params);
    facts_with_one_more(m, params, k, r, Color::White, head);
    facts_with_one_more(m, params, k, r, Color::Black, head);
}

/// Offering a draw changes nothing by itself: as long as nobody accepted the
/// offer, the game stands as it did.
pub proof fn an_offer_alone_changes_nothing(
    m: Map<Seq<u8>, RecordView>,
    params: ParamsView,
    k: Seq<u8>,
    r: RecordView,
)
    requires
        !m.contains_key(k),
        r.body is DrawOffer,
        forall|j: Seq<u8>| #[trigger]
            m.contains_key(j) ==> !(m[j].body is DrawAccept && m[j].body->DrawAccept_offer == k),
    ensures
        project::projected(m.insert(k, r), params) == project::projected(m, params),
{
    let more = m.insert(k, r);
    only_moves_move_the_game(m, params, k, r);
    let head = project::head_of(project::walked(m, params).chain, params);
    facts_with_one_more(m, params, k, r, Color::White, head);
    facts_with_one_more(m, params, k, r, Color::Black, head);
    if project::has_agreed(more, params, head) {
        let j = choose|j: Seq<u8>| #[trigger]
            more.contains_key(j) && project::accepts_at(more, params, more[j], head);
        assert(m.contains_key(j));
        assert(project::accepts_at(m, params, m[j], head));
    }
    if project::has_agreed(m, params, head) {
        let j = choose|j: Seq<u8>| #[trigger]
            m.contains_key(j) && project::accepts_at(m, params, m[j], head);
        assert(more.contains_key(j));
        assert(project::accepts_at(more, params, more[j], head));
    }
}

/// A second move at a ply forfeits the game, whatever it is a move to and
/// wherever in the game it stands: the player does not win, and the opponent does
/// unless they forfeited too.
pub proof fn a_second_move_at_a_ply_forfeits(
    m: Map<Seq<u8>, RecordView>,
    params: ParamsView,
    j: Seq<u8>,
    k: Seq<u8>,
    r: RecordView,
    color: Color,
)
    requires
        m.contains_key(j),
        !m.contains_key(k),
        m[j].body is Move,
        r.body is Move,
        m[j].body->Move_ply == r.body->Move_ply,
        m[j].signer == r.signer,
        params.color_of(r.signer) == Some(color),
    ensures
        project::projected(m.insert(k, r), params).decision matches Some(d) && d.reason
            == project::Reason::DoubleSignForfeit && d.winner != Some(color),
        !project::double_signed(m, params, color.opposite()) ==> project::projected(
            m.insert(k, r),
            params,
        ).decision->0.winner == Some(color.opposite()),
{
    let more = m.insert(k, r);
    assert(more.contains_key(j) && more.contains_key(k));
    assert(project::same_ply_moves(more[j], more[k]));
    assert(project::double_signed(more, params, color));
    let head = project::head_of(project::walked(m, params).chain, params);
    facts_with_one_more(m, params, k, r, color.opposite(), head);
}

/// Where no player signed two moves at one ply, nobody forfeits.
pub proof fn one_move_at_a_ply_forfeits_nothing(m: Map<Seq<u8>, RecordView>, params: ParamsView)
    requires
        forall|j: Seq<u8>, k: Seq<u8>|
            #![trigger m[j], m[k]]
            m.contains_key(j) && m.contains_key(k) && m[j].body is Move && m[k].body is Move
                && m[j].body->Move_ply == m[k].body->Move_ply && m[j].signer == m[k].signer
                ==> j == k,
    ensures
        project::projected(m, params).decision matches Some(d) ==> d.reason
            != project::Reason::DoubleSignForfeit,
{
    assert forall|color: Color| !#[trigger] project::double_signed(m, params, color) by {
        if project::double_signed(m, params, color) {
            let (i, j) = choose|i: Seq<u8>, j: Seq<u8>|
                i != j && #[trigger] m.contains_key(i) && #[trigger] m.contains_key(j)
                    && params.color_of(m[i].signer) == Some(color) && params.color_of(m[j].signer)
                    == Some(color) && project::same_ply_moves(m[i], m[j]);
            assert(m[i].signer == m[j].signer);
        }
    }
    assert(!project::double_signed(m, params, Color::White));
    assert(!project::double_signed(m, params, Color::Black));
}

/// The `i`-th id of a chain is the only move that the player whose turn it was
/// signed at that ply.
pub open spec fn alone_at(
    m: Map<Seq<u8>, RecordView>,
    params: ParamsView,
    chain: Seq<Seq<u8>>,
    i: int,
) -> bool {
    forall|j: Seq<u8>|
        #![trigger m[j]]
        m.contains_key(j) && m[j].signer == params.key_of(types::side_at(i + 1))
            && project::is_move_at(m[j], i + 1) ==> j == chain[i]
}

/// The position after some moves, played from the start one after another; there
/// is none where one of them is not legal.
pub open spec fn replayed(m: Map<Seq<u8>, RecordView>, chain: Seq<Seq<u8>>) -> Option<Seq<char>>
    decreases chain.len(),
{
    if chain.len() == 0 {
        Some(chess::START@)
    } else {
        match (replayed(m, chain.drop_last()), m[chain.last()].body) {
            (Some(pos), BodyView::Move { uci, .. }) => match chess::move_read(pos, uci) {
                Some(mv) => Some(chess::after_move(pos, mv)->0),
                None => None,
            },
            _ => None,
        }
    }
}

/// What is known of a walk while it is under way.
spec fn under_way(m: Map<Seq<u8>, RecordView>, params: ParamsView, w: WalkView) -> bool {
    &&& forall|i: int| 0 <= i < w.chain.len() ==> #[trigger] alone_at(m, params, w.chain, i)
    &&& replayed(m, w.chain) == Some(w.pos)
    &&& w.seen.len() == w.chain.len() + 1
    &&& forall|i: int|
        0 <= i < w.chain.len() ==> project::occurrences(#[trigger] w.seen.take(i + 1), w.seen[i])
            < 5
}

proof fn under_way_from(m: Map<Seq<u8>, RecordView>, params: ParamsView, w: WalkView)
    requires
        m.dom().finite(),
        under_way(m, params, w),
        project::occurrences(w.seen, w.seen.last()) < 5,
    ensures
        under_way(m, params, project::walked_from(m, params, w)),
    decreases 65536 - w.chain.len(),
{
    let ply = w.chain.len() as int + 1;
    if ply <= 65535 {
        match project::continuation(m, params, w.pos, project::head_of(w.chain, params), ply) {
            None => {},
            Some((k, mv)) => {
                let key = params.key_of(types::side_at(ply));
                let s = project::moves_at(m, key, ply);
                assert(s.subset_of(m.dom()));
                vstd::set_lib::lemma_len_subset(s, m.dom());
                let next = project::stepped(w, k, mv);
                assert(s.contains(k));
                assert forall|i: int| 0 <= i < next.chain.len() implies #[trigger] alone_at(
                    m,
                    params,
                    next.chain,
                    i,
                ) by {
                    if i < w.chain.len() {
                        assert(alone_at(m, params, w.chain, i));
                    } else {
                        assert forall|j: Seq<u8>|
                            #![trigger m[j]]
                            m.contains_key(j) && m[j].signer == key && project::is_move_at(
                                m[j],
                                ply,
                            ) implies j == k by {
                            assert(s.contains(j));
                            if j != k {
                                assert(s.remove(k).contains(j));
                                assert(s.remove(k).len() == 0);
                            }
                        }
                    }
                }
                assert(next.chain.drop_last() =~= w.chain);
                assert forall|i: int| 0 <= i < next.chain.len() implies project::occurrences(
                    #[trigger] next.seen.take(i + 1),
                    next.seen[i],
                ) < 5 by {
                    assert(next.seen.take(i + 1) =~= w.seen.take(i + 1));
                    if i == w.chain.len() {
                        assert(w.seen.take(i + 1) =~= w.seen);
                    }
                }
                if !next.auto_draw {
                    under_way_from(m, params, next);
                }
            },
        }
    }
}

/// The chain is what was played: it can be replayed from the start, every move
/// legal where it is made, and the position that is shown is where that leads.
/// Nobody whose turn it was signed another move at any of its plies, and the game
/// did not go on past a position that came for the fifth time.
pub proof fn the_chain_is_what_was_played(m: Map<Seq<u8>, RecordView>, params: ParamsView)
    requires
        m.dom().finite(),
    ensures
        ({
            let w = project::walked(m, params);
            let status = project::projected(m, params);
            &&& replayed(m, status.chain) matches Some(pos) && status.fen == chess::fen_of(pos)
                && status.turn == chess::side_to_move(pos) && status.halfmove_clock
                == chess::quiet_halfmoves(pos)
            &&& forall|i: int|
                0 <= i < status.ply ==> #[trigger] alone_at(m, params, status.chain, i)
            &&& forall|i: int|
                0 <= i < status.ply ==> project::occurrences(
                    #[trigger] w.seen.take(i + 1),
                    w.seen[i],
                ) < 5
        }),
{
    let start = project::at_start();
    assert(start.seen.drop_last() =~= Seq::empty());
    assert(project::occurrences(start.seen.drop_last(), start.seen.last()) == 0);
    under_way_from(m, params, start);
}

proof fn walk_unchanged_by(
    m: Map<Seq<u8>, RecordView>,
    params: ParamsView,
    k: Seq<u8>,
    r: RecordView,
    w: WalkView,
)
    requires
        m.dom().finite(),
        !m.contains_key(k),
        ({
            let end = project::walked_from(m, params, w);
            let next = end.chain.len() as int + 1;
            &&& forall|p: int| w.chain.len() < p < next ==> !project::is_move_at(r, p)
            &&& project::is_move_at(r, next) ==> {
                ||| r.signer != params.key_of(types::side_at(next))
                ||| r.body->Move_parent != project::head_of(end.chain, params)
                ||| chess::move_read(end.pos, r.body->Move_uci) is None
            }
        }),
    ensures
        project::walked_from(m.insert(k, r), params, w) == project::walked_from(m, params, w),
    decreases 65536 - w.chain.len(),
{
    let more = m.insert(k, r);
    let ply = w.chain.len() as int + 1;
    if ply <= 65535 {
        let key = params.key_of(types::side_at(ply));
        let head = project::head_of(w.chain, params);
        let s = project::moves_at(m, key, ply);
        let t = project::moves_at(more, key, ply);
        match project::continuation(m, params, w.pos, head, ply) {
            None => {
                if project::is_move_at(r, ply) && r.signer == key {
                    assert(t =~= s.insert(k));
                    assert(s.subset_of(m.dom()));
                    vstd::set_lib::lemma_len_subset(s, m.dom());
                    assert(!s.contains(k));
                    assert(t.len() == s.len() + 1);
                    if t.len() == 1 {
                        assert(s =~= Set::empty());
                        assert(t =~= set![k]);
                        assert(t.contains(t.choose()));
                    }
                } else {
                    assert(t =~= s);
                    if s.len() == 1 {
                        assert(s.contains(s.choose())) by {
                            if forall|x: Seq<u8>| !s.contains(x) {
                                assert(s =~= Set::empty());
                            }
                        }
                    }
                }
            },
            Some((j, mv)) => {
                let next = project::stepped(w, j, mv);
                walk_extends(m, params, next);
                assert(!project::is_move_at(r, ply));
                assert(t =~= s);
                assert(s.contains(s.choose())) by {
                    if forall|x: Seq<u8>| !s.contains(x) {
                        assert(s =~= Set::empty());
                    }
                }
                assert(more[s.choose()] == m[s.choose()]);
                if !next.auto_draw {
                    walk_unchanged_by(m, params, k, r, next);
                }
            },
        }
    }
}

/// A move that does not follow is passed over: one at a ply that the chain has
/// not reached, and at the next ply one out of turn, on another parent than the
/// head, or not legal there. The chain and the position stay as they were, and one
/// more record counts as ignored.
pub proof fn a_move_that_does_not_follow_is_passed_over(
    m: Map<Seq<u8>, RecordView>,
    params: ParamsView,
    k: Seq<u8>,
    r: RecordView,
)
    requires
        m.dom().finite(),
        !m.contains_key(k),
        r.body is Move,
        r.body->Move_ply > project::projected(m, params).ply,
        r.body->Move_ply == project::projected(m, params).ply + 1 ==> {
            ||| r.signer != params.key_of(types::side_at(r.body->Move_ply as int))
            ||| r.body->Move_parent != project::head_of(project::walked(m, params).chain, params)
            ||| chess::move_read(project::walked(m, params).pos, r.body->Move_uci) is None
        },
    ensures
        ({
            let before = project::projected(m, params);
            let after = project::projected(m.insert(k, r), params);
            &&& after.chain == before.chain
            &&& after.fen == before.fen
            &&& after.ply == before.ply
            &&& after.turn == before.turn
            &&& after.ignored == before.ignored + 1
        }),
{
    let more = m.insert(k, r);
    let w = project::walked(m, params);
    walk_unchanged_by(m, params, k, r, project::at_start());
    assert(more.dom() =~= m.dom().insert(k));
    the_chain_is_linked(m, params);
    let a = project::passed_over(m, w.chain);
    let b = project::passed_over(more, w.chain);
    assert(a.subset_of(m.dom()));
    vstd::set_lib::lemma_len_subset(a, m.dom());
    assert(!w.chain.contains(k)) by {
        if w.chain.contains(k) {
            let i = w.chain.index_of(k);
            assert(linked_at(m, params, w.chain, i));
        }
    }
    assert(b =~= a.insert(k));
}

} // verus!
