//! The laws of the state.
//!
//! Merge is a commutative monoid on valid states; eviction bounds them without
//! disturbing that; and two peers that exchange summaries and deltas end up
//! with the same state. The laws hold wherever one id names one statement,
//! which is what a digest without collisions gives: [`agree`].

use vstd::prelude::*;
use crate::bytes;
use crate::bytemap;
use crate::project;
use crate::state;
use crate::types;
use crate::types::{Kind, ParamsView, RecordView, MAX_PLY};

verus! {

/// Where both states hold an id, they hold the same statement under it. The
/// signatures may differ.
pub open spec fn agree(a: Map<Seq<u8>, RecordView>, b: Map<Seq<u8>, RecordView>) -> bool {
    forall|k: Seq<u8>| #[trigger]
        a.contains_key(k) && b.contains_key(k) ==> a[k].body == b[k].body && a[k].signer
            == b[k].signer
}

/// Nothing left to cut.
pub open spec fn settled(m: Map<Seq<u8>, RecordView>, params: ParamsView) -> bool {
    state::trimmed(m, params) == m
}

/// A valid state: records under their own ids, all of them real statements.
pub open spec fn sound(m: Map<Seq<u8>, RecordView>, params: ParamsView) -> bool {
    state::well_formed(m) && state::valid_state(m, params)
}

// ---------------------------------------------------------------------------
// Union.
// ---------------------------------------------------------------------------

/// The union of two states is one, holds the ids of both, and has them filed as
/// they were.
pub proof fn union_is_sound(
    a: Map<Seq<u8>, RecordView>,
    b: Map<Seq<u8>, RecordView>,
    params: ParamsView,
)
    requires
        state::well_formed(a),
        state::well_formed(b),
    ensures
        state::well_formed(state::joined(a, b, params)),
        state::valid_state(a, params) ==> state::valid_state(state::joined(a, b, params), params),
{
    let u = state::joined(a, b, params);
    assert(u.dom().subset_of(a.dom().union(b.dom())));
    vstd::set_lib::lemma_len_subset(u.dom(), a.dom().union(b.dom()));
    assert forall|k: Seq<u8>| #[trigger] u.contains_key(k) implies u[k].id() == k
        && u[k].sized() && (state::valid_state(a, params) ==> u[k].valid(params)) by {
        assert(a.contains_key(k) || b.contains_key(k));
    }
}

/// Union does not care which side comes first.
pub proof fn union_commutes(
    a: Map<Seq<u8>, RecordView>,
    b: Map<Seq<u8>, RecordView>,
    params: ParamsView,
)
    requires
        sound(a, params),
        sound(b, params),
        agree(a, b),
    ensures
        state::joined(a, b, params) == state::joined(b, a, params),
{
    let u = state::joined(a, b, params);
    let v = state::joined(b, a, params);
    assert forall|k: Seq<u8>| #[trigger] u.contains_key(k) implies v.contains_key(k) && u[k]
        == v[k] by {
        assert(a.contains_key(k) || b.contains_key(k));
        if a.contains_key(k) && b.contains_key(k) {
            bytes::lex_total(a[k].sig, b[k].sig);
        }
    }
    assert forall|k: Seq<u8>| #[trigger] v.contains_key(k) implies u.contains_key(k) by {
        assert(a.contains_key(k) || b.contains_key(k));
    }
    assert(u =~= v);
}

/// Union does not care how it is grouped.
pub proof fn union_associates(
    a: Map<Seq<u8>, RecordView>,
    b: Map<Seq<u8>, RecordView>,
    c: Map<Seq<u8>, RecordView>,
    params: ParamsView,
)
    requires
        sound(a, params),
        sound(b, params),
        sound(c, params),
        agree(a, b),
        agree(b, c),
        agree(a, c),
    ensures
        state::joined(state::joined(a, b, params), c, params) == state::joined(
            a,
            state::joined(b, c, params),
            params,
        ),
{
    let u = state::joined(state::joined(a, b, params), c, params);
    let v = state::joined(a, state::joined(b, c, params), params);
    assert forall|k: Seq<u8>| #[trigger] u.contains_key(k) implies v.contains_key(k) && u[k]
        == v[k] by {
        assert(a.contains_key(k) || b.contains_key(k) || c.contains_key(k));
        if a.contains_key(k) && b.contains_key(k) {
            bytes::lex_total(a[k].sig, b[k].sig);
        }
        if b.contains_key(k) && c.contains_key(k) {
            bytes::lex_total(b[k].sig, c[k].sig);
        }
        if a.contains_key(k) && c.contains_key(k) {
            bytes::lex_total(a[k].sig, c[k].sig);
        }
        if a.contains_key(k) && b.contains_key(k) && c.contains_key(k) {
            chain(a[k].sig, b[k].sig, c[k].sig);
            chain(c[k].sig, b[k].sig, a[k].sig);
        }
    }
    assert forall|k: Seq<u8>| #[trigger] v.contains_key(k) implies u.contains_key(k) by {
        assert(a.contains_key(k) || b.contains_key(k) || c.contains_key(k));
    }
    assert(u =~= v);
}

proof fn chain(x: Seq<u8>, y: Seq<u8>, z: Seq<u8>)
    ensures
        bytes::lex_lt(x, y) && bytes::lex_lt(y, z) ==> bytes::lex_lt(x, z),
{
    if bytes::lex_lt(x, y) && bytes::lex_lt(y, z) {
        bytes::lex_transitive(x, y, z);
    }
}

/// The statements of a union are those of its sides.
proof fn union_agrees(
    a: Map<Seq<u8>, RecordView>,
    b: Map<Seq<u8>, RecordView>,
    c: Map<Seq<u8>, RecordView>,
    params: ParamsView,
)
    requires
        agree(a, b),
        agree(b, c),
        agree(a, c),
    ensures
        agree(state::joined(a, b, params), c),
        agree(c, state::joined(a, b, params)),
        agree(state::joined(a, b, params), a),
{
    let u = state::joined(a, b, params);
    assert forall|k: Seq<u8>| #[trigger] u.contains_key(k) && c.contains_key(k) implies u[k].body
        == c[k].body && u[k].signer == c[k].signer by {
        assert(a.contains_key(k) || b.contains_key(k));
    }
    assert forall|k: Seq<u8>| #[trigger] c.contains_key(k) && u.contains_key(k) implies c[k].body
        == u[k].body && c[k].signer == u[k].signer by {
        assert(a.contains_key(k) || b.contains_key(k));
    }
}

// ---------------------------------------------------------------------------
// Eviction.
// ---------------------------------------------------------------------------

/// Ranking orders any two ids, one way round.
proof fn ranking_is_an_order(first: Set<Seq<u8>>, i: Seq<u8>, j: Seq<u8>, k: Seq<u8>)
    ensures
        !state::precedes(first, k, k),
        j == k || state::precedes(first, j, k) || state::precedes(first, k, j),
        state::precedes(first, i, j) && state::precedes(first, j, k) ==> state::precedes(
            first,
            i,
            k,
        ),
{
    bytes::lex_irreflexive(k);
    bytes::lex_total(j, k);
    chain(i, j, k);
}

/// The last of some ids, as they rank.
proof fn rearmost(s: Set<Seq<u8>>, first: Set<Seq<u8>>) -> (r: Seq<u8>)
    requires
        s.finite(),
        s.len() > 0,
    ensures
        s.contains(r),
        forall|x: Seq<u8>| #[trigger] s.contains(x) && x != r ==> state::precedes(first, x, r),
{
    let behind = s.difference(first);
    vstd::set_lib::lemma_len_subset(behind, s);
    if behind.len() > 0 {
        let r = bytemap::last_exists(behind);
        assert forall|x: Seq<u8>| #[trigger] s.contains(x) && x != r implies state::precedes(
            first,
            x,
            r,
        ) by {
            if !first.contains(x) {
                assert(behind.contains(x));
            }
        }
        r
    } else {
        let r = bytemap::last_exists(s);
        assert forall|x: Seq<u8>| #[trigger] s.contains(x) implies first.contains(x) by {
            if !first.contains(x) {
                assert(behind.contains(x));
            }
        }
        r
    }
}

/// The ids before a record in its group are finitely many.
proof fn ahead_finite(m: Map<Seq<u8>, RecordView>, first: Set<Seq<u8>>, k: Seq<u8>)
    requires
        m.dom().finite(),
    ensures
        state::ahead(m, first, k).finite(),
        state::ahead(m, first, k).subset_of(m.dom()),
        !state::ahead(m, first, k).contains(k),
{
    bytes::lex_irreflexive(k);
    assert(state::ahead(m, first, k).subset_of(m.dom()));
    vstd::set_lib::lemma_len_subset(state::ahead(m, first, k), m.dom());
}

/// Before an earlier record of the group there are fewer.
proof fn ahead_shrinks(
    m: Map<Seq<u8>, RecordView>,
    first: Set<Seq<u8>>,
    j: Seq<u8>,
    k: Seq<u8>,
)
    requires
        m.dom().finite(),
        state::ahead(m, first, k).contains(j),
    ensures
        state::ahead(m, first, j).subset_of(state::ahead(m, first, k).remove(j)),
        state::ahead(m, first, j).len() < state::ahead(m, first, k).len(),
{
    ahead_finite(m, first, j);
    ahead_finite(m, first, k);
    assert forall|x: Seq<u8>| #[trigger] state::ahead(m, first, j).contains(
        x,
    ) implies state::ahead(m, first, k).remove(j).contains(x) by {
        ranking_is_an_order(first, x, j, k);
    }
    vstd::set_lib::lemma_len_subset(
        state::ahead(m, first, j),
        state::ahead(m, first, k).remove(j),
    );
}

/// The kept records before `k` in its group.
pub open spec fn kept_before(
    m: Map<Seq<u8>, RecordView>,
    first: Set<Seq<u8>>,
    k: Seq<u8>,
) -> Set<Seq<u8>> {
    state::ahead(m, first, k).filter(|j: Seq<u8>| state::kept(m, first, j))
}

/// Eviction floors a group, it does not empty it: where as many records as the
/// kind allows come before one, that many of them are kept.
pub proof fn eviction_floors(m: Map<Seq<u8>, RecordView>, first: Set<Seq<u8>>, k: Seq<u8>)
    requires
        m.dom().finite(),
        m.contains_key(k),
        state::group(m[k]) is Some,
        state::ahead(m, first, k).len() >= m[k].body.kind().limit(),
    ensures
        kept_before(m, first, k).finite(),
        kept_before(m, first, k).len() >= m[k].body.kind().limit(),
    decreases state::ahead(m, first, k).len(),
{
    let s = state::ahead(m, first, k);
    let limit = m[k].body.kind().limit();
    ahead_finite(m, first, k);
    assert(kept_before(m, first, k).subset_of(s));
    vstd::set_lib::lemma_len_subset(kept_before(m, first, k), s);
    if s.len() == limit {
        assert forall|j: Seq<u8>| #[trigger] s.contains(j) implies kept_before(
            m,
            first,
            k,
        ).contains(j) by {
            ahead_shrinks(m, first, j, k);
        }
        assert(kept_before(m, first, k) =~= s);
    } else {
        let j = rearmost(s, first);
        ahead_shrinks(m, first, j, k);
        assert(state::ahead(m, first, j) =~= s.remove(j)) by {
            assert forall|x: Seq<u8>| s.remove(j).contains(x) implies #[trigger] state::ahead(
                m,
                first,
                j,
            ).contains(x) by {
                assert(s.contains(x));
            }
        }
        eviction_floors(m, first, j);
        assert(kept_before(m, first, j).subset_of(kept_before(m, first, k)));
        vstd::set_lib::lemma_len_subset(kept_before(m, first, j), kept_before(m, first, k));
    }
}

/// Eviction leaves records as they are.
pub proof fn eviction_is_sound(
    m: Map<Seq<u8>, RecordView>,
    first: Set<Seq<u8>>,
    params: ParamsView,
)
    requires
        state::well_formed(m),
    ensures
        state::well_formed(state::topped(m, first)),
        state::valid_state(m, params) ==> state::valid_state(state::topped(m, first), params),
        state::topped(m, first).submap_of(m),
{
    let e = state::topped(m, first);
    assert(e.dom().subset_of(m.dom()));
    vstd::set_lib::lemma_len_subset(e.dom(), m.dom());
    assert forall|k: Seq<u8>| #[trigger] e.contains_key(k) implies m.contains_key(k) by {}
}

/// Trimming leaves records as they are.
pub proof fn trimming_is_sound(m: Map<Seq<u8>, RecordView>, params: ParamsView)
    requires
        state::well_formed(m),
    ensures
        state::well_formed(state::trimmed(m, params)),
        state::valid_state(m, params) ==> state::valid_state(state::trimmed(m, params), params),
        state::trimmed(m, params).submap_of(m),
{
    eviction_is_sound(m, state::genuine(m, params), params);
}

/// On a valid state the order of the ids is all there is to ranking.
pub proof fn valid_states_are_evicted_by_id(m: Map<Seq<u8>, RecordView>, params: ParamsView)
    requires
        state::valid_state(m, params),
    ensures
        state::trimmed(m, params) == state::evicted(m),
{
    let first = state::genuine(m, params);
    let none = Set::<Seq<u8>>::empty();
    assert forall|k: Seq<u8>| m.contains_key(k) implies #[trigger] state::kept(m, first, k)
        == state::kept(m, none, k) by {
        assert(state::ahead(m, first, k) =~= state::ahead(m, none, k));
    }
    assert(state::trimmed(m, params) =~= state::evicted(m));
}

/// What of one side of a union ranks first there ranks first in the union, and
/// a record that only this side brings ranks as it did.
proof fn union_ranks(
    a: Map<Seq<u8>, RecordView>,
    b: Map<Seq<u8>, RecordView>,
    params: ParamsView,
    k: Seq<u8>,
)
    requires
        agree(a, b),
        a.contains_key(k),
    ensures
        ({
            let u = state::joined(a, b, params);
            &&& u.contains_key(k)
            &&& u[k].body == a[k].body && u[k].signer == a[k].signer
            &&& a[k].valid(params) ==> u[k].valid(params)
            &&& u[k] == a[k] || b.contains_key(k) && u[k] == b[k] && b[k].valid(params)
            &&& b.contains_key(k) && b[k].valid(params) ==> u[k].valid(params)
            &&& !a[k].valid(params) && b.contains_key(k) && b[k].valid(params) ==> u[k] == b[k]
        }),
{
    if b.contains_key(k) {
        assert(a[k].body == b[k].body && a[k].signer == b[k].signer);
        if b[k].valid(params) && !a[k].valid(params) {
            assert(a[k].sig != b[k].sig);
        }
    }
}

/// Top-K distributes over union: trimming one side first changes nothing.
pub proof fn trimming_distributes(
    a: Map<Seq<u8>, RecordView>,
    b: Map<Seq<u8>, RecordView>,
    params: ParamsView,
)
    requires
        state::well_formed(a),
        state::well_formed(b),
        agree(a, b),
    ensures
        state::merge_of(state::trimmed(a, params), b, params) == state::merge_of(a, b, params),
{
    let e = state::trimmed(a, params);
    let u = state::joined(a, b, params);
    let v = state::joined(e, b, params);
    let ga = state::genuine(a, params);
    let gu = state::genuine(u, params);
    let gv = state::genuine(v, params);
    trimming_is_sound(a, params);
    union_is_sound(a, b, params);
    union_is_sound(e, b, params);
    assert forall|k: Seq<u8>| #[trigger] v.contains_key(k) implies u.contains_key(k)
        && state::group(v[k]) == state::group(u[k]) && v[k].body == u[k].body && (gv.contains(k)
        == gu.contains(k)) by {
        same_standing(a, b, params, k);
    }
    assert forall|k: Seq<u8>| #[trigger] state::kept(u, gu, k) implies state::kept(v, gv, k)
        && u[k] == v[k] by {
        ahead_finite(u, gu, k);
        if a.contains_key(k) {
            union_ranks(a, b, params, k);
            if a[k].valid(params) || !u[k].valid(params) {
                ahead_finite(a, ga, k);
                assert forall|j: Seq<u8>| #[trigger] state::ahead(a, ga, k).contains(
                    j,
                ) implies state::ahead(u, gu, k).contains(j) by {
                    union_ranks(a, b, params, j);
                }
                vstd::set_lib::lemma_len_subset(state::ahead(a, ga, k), state::ahead(u, gu, k));
                assert(e.contains_key(k));
            }
        }
        assert(v.contains_key(k));
        assert forall|j: Seq<u8>| #[trigger] state::ahead(v, gv, k).contains(
            j,
        ) implies state::ahead(u, gu, k).contains(j) by {
            assert(v.contains_key(j));
        }
        vstd::set_lib::lemma_len_subset(state::ahead(v, gv, k), state::ahead(u, gu, k));
    }
    assert forall|k: Seq<u8>| #[trigger] state::kept(v, gv, k) implies state::kept(u, gu, k) by {
        trimmed_side(a, b, params, k);
    }
    assert(state::trimmed(v, params) =~= state::trimmed(u, params));
}

/// A record that is still there after trimming one side stands as it stood.
proof fn same_standing(
    a: Map<Seq<u8>, RecordView>,
    b: Map<Seq<u8>, RecordView>,
    params: ParamsView,
    k: Seq<u8>,
)
    requires
        state::well_formed(a),
        state::well_formed(b),
        agree(a, b),
        state::joined(state::trimmed(a, params), b, params).contains_key(k),
    ensures
        ({
            let u = state::joined(a, b, params);
            let v = state::joined(state::trimmed(a, params), b, params);
            &&& u.contains_key(k)
            &&& v[k].body == u[k].body
            &&& v[k].signer == u[k].signer
            &&& v[k].valid(params) == u[k].valid(params)
        }),
{
    let e = state::trimmed(a, params);
    assert(e.contains_key(k) || b.contains_key(k));
    assert(e.contains_key(k) ==> a.contains_key(k) && e[k] == a[k]);
    if a.contains_key(k) {
        union_ranks(a, b, params, k);
        if b.contains_key(k) {
            assert(a[k].body == b[k].body && a[k].signer == b[k].signer);
        }
    }
}

/// The harder half: what survives after trimming one side survives anyway.
proof fn trimmed_side(
    a: Map<Seq<u8>, RecordView>,
    b: Map<Seq<u8>, RecordView>,
    params: ParamsView,
    k: Seq<u8>,
)
    requires
        state::well_formed(a),
        state::well_formed(b),
        agree(a, b),
        ({
            let v = state::joined(state::trimmed(a, params), b, params);
            state::kept(v, state::genuine(v, params), k)
        }),
    ensures
        ({
            let u = state::joined(a, b, params);
            state::kept(u, state::genuine(u, params), k)
        }),
{
    let e = state::trimmed(a, params);
    let u = state::joined(a, b, params);
    let v = state::joined(e, b, params);
    let ga = state::genuine(a, params);
    let gu = state::genuine(u, params);
    let gv = state::genuine(v, params);
    trimming_is_sound(a, params);
    union_is_sound(a, b, params);
    union_is_sound(e, b, params);
    same_standing(a, b, params, k);
    let limit = u[k].body.kind().limit();
    let s = state::ahead(u, gu, k);
    let t = state::ahead(v, gv, k);
    ahead_finite(u, gu, k);
    ahead_finite(v, gv, k);
    if state::group(u[k]) is Some && s.len() >= limit {
        if s.subset_of(t) {
            vstd::set_lib::lemma_len_subset(s, t);
        } else {
            let j = choose|j: Seq<u8>| s.contains(j) && !t.contains(j);
            if v.contains_key(j) {
                same_standing(a, b, params, j);
                assert(gv.contains(j) == gu.contains(j));
                assert(gv.contains(k) == gu.contains(k));
                assert(false);
            }
            assert(a.contains_key(j) && !e.contains_key(j));
            union_ranks(a, b, params, j);
            assert(u[j] == a[j]);
            assert(a[j].body.kind() == u[k].body.kind());
            eviction_floors(a, ga, j);
            let f = kept_before(a, ga, j);
            assert forall|x: Seq<u8>| #[trigger] f.contains(x) implies t.contains(x) by {
                assert(e.contains_key(x));
                union_ranks(a, b, params, x);
                assert(v.contains_key(x));
                same_standing(a, b, params, x);
                assert(state::precedes(gu, x, j));
                ranking_is_an_order(gu, x, j, k);
                assert(gv.contains(x) == gu.contains(x));
                assert(gv.contains(k) == gu.contains(k));
            }
            vstd::set_lib::lemma_len_subset(f, t);
        }
        assert(false);
    }
}

/// Top-K distributes over union: evicting one side of valid states first
/// changes nothing.
pub proof fn eviction_distributes(
    a: Map<Seq<u8>, RecordView>,
    b: Map<Seq<u8>, RecordView>,
    params: ParamsView,
)
    requires
        sound(a, params),
        state::well_formed(b),
        agree(a, b),
    ensures
        state::merge_of(state::evicted(a), b, params) == state::merge_of(a, b, params),
        state::merge_of(a, b, params) == state::evicted(state::joined(a, b, params)),
{
    valid_states_are_evicted_by_id(a, params);
    trimming_distributes(a, b, params);
    union_is_sound(a, b, params);
    valid_states_are_evicted_by_id(state::joined(a, b, params), params);
}

/// Cutting twice in one order is cutting once.
proof fn topping_is_idempotent(
    m: Map<Seq<u8>, RecordView>,
    first: Set<Seq<u8>>,
    again: Set<Seq<u8>>,
)
    requires
        m.dom().finite(),
        forall|k: Seq<u8>| state::kept(m, first, k) ==> (#[trigger] again.contains(k)
            == first.contains(k)),
    ensures
        state::topped(state::topped(m, first), again) == state::topped(m, first),
{
    let e = state::topped(m, first);
    assert forall|k: Seq<u8>| #[trigger] e.contains_key(k) implies state::kept(e, again, k) by {
        ahead_finite(m, first, k);
        assert forall|j: Seq<u8>| #[trigger] state::ahead(e, again, k).contains(
            j,
        ) implies state::ahead(m, first, k).contains(j) by {
            assert(e.contains_key(j));
            assert(again.contains(j) == first.contains(j));
            assert(again.contains(k) == first.contains(k));
        }
        vstd::set_lib::lemma_len_subset(state::ahead(e, again, k), state::ahead(m, first, k));
    }
    assert(state::topped(e, again) =~= e);
}

/// Evicting twice is evicting once, and so is trimming.
pub proof fn eviction_is_idempotent(m: Map<Seq<u8>, RecordView>, params: ParamsView)
    requires
        m.dom().finite(),
    ensures
        state::evicted(state::evicted(m)) == state::evicted(m),
        settled(state::trimmed(m, params), params),
{
    topping_is_idempotent(m, Set::empty(), Set::empty());
    let e = state::trimmed(m, params);
    topping_is_idempotent(m, state::genuine(m, params), state::genuine(e, params));
}

// ---------------------------------------------------------------------------
// Merge is a commutative monoid on valid states.
// ---------------------------------------------------------------------------

/// Merging valid states gives a valid, settled state.
pub proof fn merge_is_sound(
    a: Map<Seq<u8>, RecordView>,
    b: Map<Seq<u8>, RecordView>,
    params: ParamsView,
)
    requires
        sound(a, params),
        state::well_formed(b),
    ensures
        sound(state::merge_of(a, b, params), params),
        settled(state::merge_of(a, b, params), params),
{
    union_is_sound(a, b, params);
    trimming_is_sound(state::joined(a, b, params), params);
    eviction_is_idempotent(state::joined(a, b, params), params);
}

/// Merge is commutative.
pub proof fn merge_commutes(
    a: Map<Seq<u8>, RecordView>,
    b: Map<Seq<u8>, RecordView>,
    params: ParamsView,
)
    requires
        sound(a, params),
        sound(b, params),
        agree(a, b),
    ensures
        state::merge_of(a, b, params) == state::merge_of(b, a, params),
{
    union_commutes(a, b, params);
}

/// Merge is associative.
pub proof fn merge_associates(
    a: Map<Seq<u8>, RecordView>,
    b: Map<Seq<u8>, RecordView>,
    c: Map<Seq<u8>, RecordView>,
    params: ParamsView,
)
    requires
        sound(a, params),
        sound(b, params),
        sound(c, params),
        agree(a, b),
        agree(b, c),
        agree(a, c),
    ensures
        state::merge_of(state::merge_of(a, b, params), c, params) == state::merge_of(
            a,
            state::merge_of(b, c, params),
            params,
        ),
{
    let ab = state::joined(a, b, params);
    let bc = state::joined(b, c, params);
    union_is_sound(a, b, params);
    union_is_sound(b, c, params);
    union_agrees(a, b, c, params);
    assert(agree(b, a) && agree(c, b) && agree(c, a)) by {
        agree_symmetric(a, b);
        agree_symmetric(b, c);
        agree_symmetric(a, c);
    }
    union_agrees(b, c, a, params);
    trimming_distributes(ab, c, params);
    trimming_distributes(bc, a, params);
    trimming_is_sound(bc, params);
    assert(agree(a, state::trimmed(bc, params))) by {
        let e = state::trimmed(bc, params);
        assert forall|k: Seq<u8>| #[trigger]
            a.contains_key(k) && e.contains_key(k) implies a[k].body == e[k].body && a[k].signer
            == e[k].signer by {
            assert(bc.contains_key(k));
        }
    }
    merge_commutes(a, state::trimmed(bc, params), params);
    merge_commutes(bc, a, params);
    union_associates(a, b, c, params);
}

/// To agree is mutual.
pub proof fn agree_symmetric(a: Map<Seq<u8>, RecordView>, b: Map<Seq<u8>, RecordView>)
    requires
        agree(a, b),
    ensures
        agree(b, a),
{
    assert forall|k: Seq<u8>| #[trigger] b.contains_key(k) && a.contains_key(k) implies b[k].body
        == a[k].body && b[k].signer == a[k].signer by {
        assert(a.contains_key(k) && b.contains_key(k));
    }
}

/// Merging a state with itself only settles it.
pub proof fn merge_is_idempotent(a: Map<Seq<u8>, RecordView>, params: ParamsView)
    requires
        state::well_formed(a),
    ensures
        state::merge_of(a, a, params) == state::trimmed(a, params),
        settled(a, params) ==> state::merge_of(a, a, params) == a,
{
    assert(state::joined(a, a, params) =~= a);
}

/// The empty state is the identity of merge.
pub proof fn empty_is_the_identity(a: Map<Seq<u8>, RecordView>, params: ParamsView)
    requires
        sound(a, params),
        settled(a, params),
    ensures
        state::merge_of(a, Map::<Seq<u8>, RecordView>::empty(), params) == a,
        state::merge_of(Map::<Seq<u8>, RecordView>::empty(), a, params) == a,
{
    let none = Map::<Seq<u8>, RecordView>::empty();
    assert(state::joined(a, none, params) =~= a);
    assert(state::joined(none, a, params) =~= a);
}

/// No group holds more records than its kind allows.
pub open spec fn within_bounds(m: Map<Seq<u8>, RecordView>) -> bool {
    forall|k: Seq<u8>| #[trigger] m.contains_key(k) ==> !state::crowded(m, k)
}

/// A state whose groups are within bounds has nothing left to cut, and only
/// such a state has.
pub proof fn within_bounds_is_settled(m: Map<Seq<u8>, RecordView>, params: ParamsView)
    requires
        m.dom().finite(),
    ensures
        within_bounds(m) <==> settled(m, params),
{
    let first = state::genuine(m, params);
    if within_bounds(m) {
        assert forall|k: Seq<u8>| #[trigger] m.contains_key(k) implies state::kept(m, first, k) by {
            let p = state::peers(m, k);
            ahead_finite(m, first, k);
            assert(p.subset_of(m.dom()));
            vstd::set_lib::lemma_len_subset(p, m.dom());
            assert(state::ahead(m, first, k).subset_of(p.remove(k)));
            vstd::set_lib::lemma_len_subset(state::ahead(m, first, k), p.remove(k));
        }
        assert(state::trimmed(m, params) =~= m);
    }
    if settled(m, params) {
        assert forall|k: Seq<u8>| #[trigger] m.contains_key(k) implies !state::crowded(m, k) by {
            if state::group(m[k]) is Some {
                let p = state::peers(m, k);
                assert(p.subset_of(m.dom()));
                vstd::set_lib::lemma_len_subset(p, m.dom());
                assert(p.contains(k));
                vstd::set_lib::lemma_set_empty_equivalency_len(p);
                let last = rearmost(p, first);
                assert(p.contains(last));
                assert(state::trimmed(m, params).contains_key(last));
                assert(state::ahead(m, first, last) =~= p.remove(last)) by {
                    ahead_finite(m, first, last);
                    assert forall|x: Seq<u8>| p.remove(last).contains(
                        x,
                    ) implies #[trigger] state::ahead(m, first, last).contains(x) by {
                        assert(p.contains(x));
                    }
                }
            }
        }
    }
}

/// Merge is a monoid in which repeats are harmless: on valid states whose groups
/// are within bounds a state merged with itself or with the empty state is that
/// state, and merging with the same state again changes nothing.
pub proof fn merge_is_a_monoid(
    a: Map<Seq<u8>, RecordView>,
    b: Map<Seq<u8>, RecordView>,
    params: ParamsView,
)
    requires
        sound(a, params),
        sound(b, params),
        within_bounds(a),
        within_bounds(b),
    ensures
        state::merge_of(a, a, params) == a,
        state::merge_of(a, Map::<Seq<u8>, RecordView>::empty(), params) == a,
        state::merge_of(Map::<Seq<u8>, RecordView>::empty(), a, params) == a,
        agree(a, b) ==> state::merge_of(state::merge_of(a, b, params), b, params)
            == state::merge_of(a, b, params),
{
    within_bounds_is_settled(a, params);
    within_bounds_is_settled(b, params);
    merge_is_idempotent(a, params);
    merge_is_idempotent(b, params);
    empty_is_the_identity(a, params);
    if agree(a, b) {
        assert(agree(b, b));
        merge_associates(a, b, b, params);
    }
}

// ---------------------------------------------------------------------------
// Forgeries.
// ---------------------------------------------------------------------------

/// The records of a state that verify.
pub open spec fn genuine_part(m: Map<Seq<u8>, RecordView>, params: ParamsView) -> Map<
    Seq<u8>,
    RecordView,
> {
    m.restrict(state::genuine(m, params))
}

/// The genuine part of a state is a valid state.
proof fn genuine_part_is_sound(m: Map<Seq<u8>, RecordView>, params: ParamsView)
    requires
        state::well_formed(m),
    ensures
        sound(genuine_part(m, params), params),
        state::joined(Map::<Seq<u8>, RecordView>::empty(), m, params) == genuine_part(m, params),
{
    let v = genuine_part(m, params);
    assert(v.dom().subset_of(m.dom()));
    vstd::set_lib::lemma_len_subset(v.dom(), m.dom());
    assert forall|k: Seq<u8>| #[trigger] v.contains_key(k) implies m.contains_key(k) && v[k]
        == m[k] && m[k].valid(params) by {}
    assert(state::joined(Map::<Seq<u8>, RecordView>::empty(), m, params) =~= v);
}

/// What is genuine in a union is the union of what is genuine.
proof fn genuine_part_of_union(
    a: Map<Seq<u8>, RecordView>,
    b: Map<Seq<u8>, RecordView>,
    params: ParamsView,
)
    requires
        agree(a, b),
    ensures
        genuine_part(state::joined(a, b, params), params) == state::joined(
            genuine_part(a, params),
            genuine_part(b, params),
            params,
        ),
{
    let u = state::joined(a, b, params);
    let l = genuine_part(u, params);
    let va = genuine_part(a, params);
    let vb = genuine_part(b, params);
    let r = state::joined(va, vb, params);
    assert forall|k: Seq<u8>| #[trigger] l.contains_key(k) implies r.contains_key(k) && l[k]
        == r[k] by {
        assert(u.contains_key(k));
        if a.contains_key(k) {
            union_ranks(a, b, params, k);
        }
    }
    assert forall|k: Seq<u8>| #[trigger] r.contains_key(k) implies l.contains_key(k) by {
        assert(va.contains_key(k) || vb.contains_key(k));
        if a.contains_key(k) {
            union_ranks(a, b, params, k);
        }
    }
    assert(l =~= r);
}

/// What is genuine among the kept is the kept among the genuine: no forgery
/// takes a place from a record that verifies.
proof fn genuine_part_of_trimmed(m: Map<Seq<u8>, RecordView>, params: ParamsView)
    requires
        state::well_formed(m),
    ensures
        genuine_part(state::trimmed(m, params), params) == state::trimmed(
            genuine_part(m, params),
            params,
        ),
{
    let first = state::genuine(m, params);
    let v = genuine_part(m, params);
    let alone = state::genuine(v, params);
    let l = genuine_part(state::trimmed(m, params), params);
    let r = state::trimmed(v, params);
    assert forall|k: Seq<u8>| #[trigger] v.contains_key(k) implies state::kept(m, first, k)
        == state::kept(v, alone, k) by {
        assert(m.contains_key(k) && v[k] == m[k] && first.contains(k) && alone.contains(k));
        assert forall|j: Seq<u8>| #[trigger] state::ahead(m, first, k).contains(j) == state::ahead(
            v,
            alone,
            k,
        ).contains(j) by {
            if first.contains(j) {
                assert(v.contains_key(j) && v[j] == m[j]);
            }
        }
        assert(state::ahead(m, first, k) =~= state::ahead(v, alone, k));
    }
    assert forall|k: Seq<u8>| #[trigger] l.contains_key(k) == r.contains_key(k) by {
        if l.contains_key(k) {
            assert(state::trimmed(m, params).contains_key(k));
            assert(v.contains_key(k));
        }
        if r.contains_key(k) {
            assert(v.contains_key(k));
        }
    }
    assert(l =~= r);
}

/// Validation and merge commute, whatever either side holds: it makes no
/// difference whether two states are filtered before they are merged, or what
/// comes of merging them is filtered.
pub proof fn merge_and_filter_commute(
    a: Map<Seq<u8>, RecordView>,
    b: Map<Seq<u8>, RecordView>,
    params: ParamsView,
)
    requires
        state::well_formed(a),
        state::well_formed(b),
        agree(a, b),
    ensures
        ({
            let none = Map::<Seq<u8>, RecordView>::empty();
            state::merge_of(none, state::merge_of(a, b, params), params) == state::merge_of(
                state::merge_of(none, a, params),
                state::merge_of(none, b, params),
                params,
            )
        }),
{
    let none = Map::<Seq<u8>, RecordView>::empty();
    let u = state::joined(a, b, params);
    let va = genuine_part(a, params);
    let vb = genuine_part(b, params);
    let vu = genuine_part(u, params);
    let fa = state::trimmed(va, params);
    let fb = state::trimmed(vb, params);
    union_is_sound(a, b, params);
    trimming_is_sound(u, params);
    genuine_part_is_sound(a, params);
    genuine_part_is_sound(b, params);
    genuine_part_is_sound(u, params);
    genuine_part_is_sound(state::trimmed(u, params), params);
    genuine_part_of_trimmed(u, params);
    eviction_is_idempotent(vu, params);
    genuine_part_of_union(a, b, params);
    trimming_is_sound(va, params);
    trimming_is_sound(vb, params);
    assert(agree(va, vb) && agree(va, fb) && agree(fb, va) && agree(vb, va)) by {
        agree_in_part(a, b, va, vb);
        agree_in_part(a, b, va, fb);
        agree_symmetric(va, vb);
        agree_symmetric(va, fb);
    }
    trimming_distributes(va, fb, params);
    merge_commutes(va, fb, params);
    trimming_distributes(vb, va, params);
    merge_commutes(vb, va, params);
}

/// Parts of states that agree do.
proof fn agree_in_part(
    a: Map<Seq<u8>, RecordView>,
    b: Map<Seq<u8>, RecordView>,
    x: Map<Seq<u8>, RecordView>,
    y: Map<Seq<u8>, RecordView>,
)
    requires
        agree(a, b),
        x.submap_of(a),
        y.submap_of(b),
    ensures
        agree(x, y),
{
    assert forall|k: Seq<u8>| #[trigger] x.contains_key(k) && y.contains_key(k) implies x[k].body
        == y[k].body && x[k].signer == y[k].signer by {
        assert(a.contains_key(k) && b.contains_key(k));
        assert(x[k] == a[k] && y[k] == b[k]);
    }
}

/// A state from the wire can be filtered before it is merged into a valid one,
/// afterwards, or not at all.
pub proof fn filtering_may_wait(
    a: Map<Seq<u8>, RecordView>,
    b: Map<Seq<u8>, RecordView>,
    params: ParamsView,
)
    requires
        sound(a, params),
        state::well_formed(b),
        agree(a, b),
    ensures
        ({
            let none = Map::<Seq<u8>, RecordView>::empty();
            &&& state::merge_of(a, state::merge_of(none, b, params), params) == state::merge_of(
                a,
                b,
                params,
            )
            &&& state::merge_of(none, state::merge_of(a, b, params), params) == state::merge_of(
                a,
                b,
                params,
            )
        }),
{
    let vb = genuine_part(b, params);
    let fb = state::trimmed(vb, params);
    genuine_part_is_sound(b, params);
    trimming_is_sound(vb, params);
    assert(state::joined(a, vb, params) =~= state::joined(a, b, params));
    agree_in_part(a, b, a, vb);
    agree_in_part(a, b, a, fb);
    agree_symmetric(a, vb);
    trimming_distributes(vb, a, params);
    merge_commutes(a, fb, params);
    merge_commutes(vb, a, params);
    merge_is_sound(a, b, params);
    empty_is_the_identity(state::merge_of(a, b, params), params);
}

/// A record that does not verify never takes the place of one that does.
pub proof fn a_forgery_never_displaces(
    m: Map<Seq<u8>, RecordView>,
    forged: RecordView,
    params: ParamsView,
)
    requires
        !forged.valid(params),
    ensures
        state::absorbed(m, forged, params) == m,
{
}

// ---------------------------------------------------------------------------
// Who can evict whom.
// ---------------------------------------------------------------------------

/// Nobody evicts another player's records, and records of one kind at one ply
/// are never evicted by those of another: a merge that brings nothing genuine
/// into a record's own group that was not there leaves the record in place.
pub proof fn only_the_own_group_evicts(
    a: Map<Seq<u8>, RecordView>,
    b: Map<Seq<u8>, RecordView>,
    params: ParamsView,
    k: Seq<u8>,
)
    requires
        state::well_formed(a),
        state::well_formed(b),
        agree(a, b),
        state::kept(a, state::genuine(a, params), k),
        forall|j: Seq<u8>| #[trigger]
            b.contains_key(j) && b[j].valid(params) && !(a.contains_key(j) && a[j].valid(params))
                ==> state::group(b[j]) != state::group(a[k]),
    ensures
        state::merge_of(a, b, params).contains_key(k),
        state::merge_of(a, b, params)[k].body == a[k].body,
        state::merge_of(a, b, params)[k].signer == a[k].signer,
{
    let u = state::joined(a, b, params);
    let ga = state::genuine(a, params);
    let gu = state::genuine(u, params);
    union_ranks(a, b, params, k);
    ahead_finite(a, ga, k);
    if state::group(a[k]) is Some {
        assert forall|j: Seq<u8>| #[trigger] state::ahead(u, gu, k).contains(
            j,
        ) implies state::ahead(a, ga, k).contains(j) by {
            if a.contains_key(j) {
                union_ranks(a, b, params, j);
                if b.contains_key(j) {
                    assert(a[j].body == b[j].body && a[j].signer == b[j].signer);
                }
                if b.contains_key(k) {
                    assert(a[k].body == b[k].body && a[k].signer == b[k].signer);
                }
                assert(ga.contains(j) == gu.contains(j));
                assert(ga.contains(k) == gu.contains(k));
            } else {
                assert(b.contains_key(j) && b[j].valid(params));
            }
        }
        vstd::set_lib::lemma_len_subset(state::ahead(u, gu, k), state::ahead(a, ga, k));
    }
}

/// A player's records, and only theirs, decide which of their records stay.
pub proof fn an_opponent_cannot_evict(
    a: Map<Seq<u8>, RecordView>,
    b: Map<Seq<u8>, RecordView>,
    params: ParamsView,
    k: Seq<u8>,
)
    requires
        state::well_formed(a),
        state::well_formed(b),
        agree(a, b),
        state::kept(a, state::genuine(a, params), k),
        forall|j: Seq<u8>| #[trigger] b.contains_key(j) ==> b[j].signer != a[k].signer,
    ensures
        state::merge_of(a, b, params).contains_key(k),
{
    if state::group(a[k]) is Some {
        assert forall|j: Seq<u8>| #[trigger]
            b.contains_key(j) && b[j].valid(params) && !(a.contains_key(j) && a[j].valid(
                params,
            )) implies state::group(b[j]) != state::group(a[k]) by {}
        only_the_own_group_evicts(a, b, params, k);
    } else {
        union_ranks(a, b, params, k);
    }
}

/// The ids of one group.
pub open spec fn members(
    m: Map<Seq<u8>, RecordView>,
    g: (Seq<u8>, Kind, u16),
) -> Set<Seq<u8>> {
    Set::new(|k: Seq<u8>| m.contains_key(k) && state::group(m[k]) == Some(g))
}

/// Eviction leaves at most as many records in a group as its kind allows, and
/// that many where there were more.
pub proof fn eviction_fills_the_group(
    m: Map<Seq<u8>, RecordView>,
    first: Set<Seq<u8>>,
    g: (Seq<u8>, Kind, u16),
)
    requires
        m.dom().finite(),
    ensures
        members(state::topped(m, first), g).finite(),
        members(state::topped(m, first), g).len() <= g.1.limit(),
        members(m, g).len() >= g.1.limit() ==> members(state::topped(m, first), g).len()
            == g.1.limit(),
        members(m, g).len() <= g.1.limit() ==> members(state::topped(m, first), g) == members(
            m,
            g,
        ),
{
    let e = state::topped(m, first);
    let all = members(m, g);
    let left = members(e, g);
    assert(all.subset_of(m.dom()));
    vstd::set_lib::lemma_len_subset(all, m.dom());
    assert(left.subset_of(all));
    vstd::set_lib::lemma_len_subset(left, all);
    if left.len() > 0 {
        let k = rearmost(left, first);
        ahead_finite(m, first, k);
        assert(left.remove(k).subset_of(state::ahead(m, first, k)));
        vstd::set_lib::lemma_len_subset(left.remove(k), state::ahead(m, first, k));
    }
    if all.len() > 0 {
        let k = rearmost(all, first);
        ahead_finite(m, first, k);
        assert(state::ahead(m, first, k) =~= all.remove(k)) by {
            assert forall|j: Seq<u8>| all.remove(k).contains(j) implies #[trigger] state::ahead(
                m,
                first,
                k,
            ).contains(j) by {
                assert(all.contains(j));
            }
        }
        if all.len() > g.1.limit() {
            eviction_floors(m, first, k);
            let f = kept_before(m, first, k);
            assert(f.subset_of(left));
            vstd::set_lib::lemma_len_subset(f, left);
        } else {
            assert forall|j: Seq<u8>| #[trigger] all.contains(j) implies left.contains(j) by {
                if j != k {
                    assert(state::ahead(m, first, k).contains(j));
                    ahead_shrinks(m, first, j, k);
                }
            }
            assert(left =~= all);
        }
    } else {
        assert(left =~= all);
    }
}

/// A double-signed ply stays double-signed: merging never brings the moves one
/// signer has at one ply from two or more to fewer.
pub proof fn a_double_sign_survives(
    a: Map<Seq<u8>, RecordView>,
    b: Map<Seq<u8>, RecordView>,
    params: ParamsView,
    signer: Seq<u8>,
    ply: u16,
)
    requires
        state::well_formed(a),
        state::well_formed(b),
        agree(a, b),
        members(a, (signer, Kind::Move, ply)).len() >= 2,
    ensures
        members(state::merge_of(a, b, params), (signer, Kind::Move, ply)).len() == 2,
{
    let g = (signer, Kind::Move, ply);
    let u = state::joined(a, b, params);
    union_is_sound(a, b, params);
    assert forall|k: Seq<u8>| #[trigger] members(a, g).contains(k) implies members(u, g).contains(
        k,
    ) by {
        assert(a.contains_key(k) && b.contains_key(k) ==> a[k].body == b[k].body);
    }
    assert(members(u, g).subset_of(u.dom()));
    vstd::set_lib::lemma_len_subset(members(u, g), u.dom());
    vstd::set_lib::lemma_len_subset(members(a, g), members(u, g));
    eviction_fills_the_group(u, state::genuine(u, params), g);
}

// ---------------------------------------------------------------------------
// The state is bounded.
// ---------------------------------------------------------------------------

/// How many records one player can hold at most: two moves and one draw record
/// of each of three kinds at every ply up to the cap, and one resignation.
pub open spec fn player_bound() -> int {
    5 * (MAX_PLY + 1) + 1
}

/// The place a kept record takes up in that count.
spec fn slot(m: Map<Seq<u8>, RecordView>, params: ParamsView, k: Seq<u8>) -> int {
    let side = if m[k].signer == params.white { 0int } else { player_bound() };
    match m[k].body.ply() {
        None => side,
        Some(ply) => side + 1 + 5 * ply + match m[k].body.kind() {
            Kind::Move => state::ahead(m, state::genuine(m, params), k).len() as int,
            Kind::Resign => 0,
            Kind::DrawOffer => 2,
            Kind::DrawAccept => 3,
            Kind::DrawClaim => 4,
        },
    }
}

/// Two kept records never take up one place.
proof fn slots_differ(
    m: Map<Seq<u8>, RecordView>,
    params: ParamsView,
    j: Seq<u8>,
    k: Seq<u8>,
)
    requires
        sound(m, params),
        state::kept(m, state::genuine(m, params), j),
        state::kept(m, state::genuine(m, params), k),
        slot(m, params, j) == slot(m, params, k),
    ensures
        j == k,
{
    assert(m[j].valid(params) && m[k].valid(params));
    assert(m[j].signer == m[k].signer);
    if m[j].body is Resign {
        assert(m[k].body is Resign);
        assert(m[j].id() == m[k].id());
    } else {
        assert(m[j].body.ply() == m[k].body.ply());
        assert(m[j].body.kind() == m[k].body.kind());
        let first = state::genuine(m, params);
        ranking_is_an_order(first, j, j, k);
        ahead_finite(m, first, j);
        ahead_finite(m, first, k);
        if state::precedes(first, j, k) {
            assert(state::ahead(m, first, k).contains(j));
            ahead_shrinks(m, first, j, k);
        } else if state::precedes(first, k, j) {
            assert(state::ahead(m, first, j).contains(k));
            ahead_shrinks(m, first, k, j);
        }
    }
}

/// A settled valid state is bounded, whatever anyone signs.
pub proof fn the_state_is_bounded(m: Map<Seq<u8>, RecordView>, params: ParamsView)
    requires
        sound(m, params),
        settled(m, params),
    ensures
        m.len() <= 2 * player_bound(),
{
    let f = |k: Seq<u8>| slot(m, params, k);
    let range = vstd::set_lib::set_int_range(0, 2 * player_bound());
    vstd::set_lib::lemma_int_range(0, 2 * player_bound());
    assert forall|k: Seq<u8>| #[trigger] m.contains_key(k) implies state::kept(
        m,
        state::genuine(m, params),
        k,
    ) by {
        assert(state::trimmed(m, params).contains_key(k));
    }
    assert forall|j: Seq<u8>, k: Seq<u8>|
        m.dom().contains(j) && m.dom().contains(k) && #[trigger] f(j) == #[trigger] f(
            k,
        ) implies j == k by {
        assert(m.contains_key(j) && m.contains_key(k));
        slots_differ(m, params, j, k);
    }
    let image = m.dom().map(f);
    vstd::set_lib::lemma_map_size(m.dom(), image, f);
    assert forall|i: int| #[trigger] image.contains(i) implies range.contains(i) by {
        let k = choose|k: Seq<u8>| m.dom().contains(k) && f(k) == i;
        assert(m.contains_key(k));
        assert(m[k].valid(params));
        ahead_finite(m, state::genuine(m, params), k);
    }
    vstd::set_lib::lemma_len_subset(image, range);
}

// ---------------------------------------------------------------------------
// One record at a time.
// ---------------------------------------------------------------------------

/// The state of one record.
pub open spec fn single(r: RecordView) -> Map<Seq<u8>, RecordView> {
    Map::empty().insert(r.id(), r)
}

/// The state after one record is admitted to it.
pub open spec fn admitted(
    m: Map<Seq<u8>, RecordView>,
    r: RecordView,
    params: ParamsView,
) -> Map<Seq<u8>, RecordView> {
    state::trimmed(state::absorbed(m, r, params), params)
}

/// Admitting a record is merging with the state that holds only it.
pub proof fn admitting_is_merging(
    m: Map<Seq<u8>, RecordView>,
    r: RecordView,
    params: ParamsView,
)
    ensures
        admitted(m, r, params) == state::merge_of(m, single(r), params),
{
    assert(state::absorbed(m, r, params) =~= state::joined(m, single(r), params));
}

/// The order in which two valid records arrive does not matter.
pub proof fn arrival_order_is_irrelevant(
    m: Map<Seq<u8>, RecordView>,
    r: RecordView,
    s: RecordView,
    params: ParamsView,
)
    requires
        sound(m, params),
        r.valid(params),
        s.valid(params),
        r.sized(),
        s.sized(),
        agree(m, single(r)),
        agree(m, single(s)),
        agree(single(r), single(s)),
    ensures
        admitted(admitted(m, r, params), s, params) == admitted(
            admitted(m, s, params),
            r,
            params,
        ),
{
    let mr = admitted(m, r, params);
    let ms = admitted(m, s, params);
    admitting_is_merging(m, r, params);
    admitting_is_merging(m, s, params);
    admitting_is_merging(mr, s, params);
    admitting_is_merging(ms, r, params);
    agree_symmetric(single(r), single(s));
    merge_associates(m, single(r), single(s), params);
    merge_associates(m, single(s), single(r), params);
    merge_commutes(single(r), single(s), params);
}

/// A record that arrives twice changes nothing the second time.
pub proof fn repeats_are_harmless(
    m: Map<Seq<u8>, RecordView>,
    r: RecordView,
    params: ParamsView,
)
    requires
        state::well_formed(m),
        r.sized(),
        agree(m, single(r)),
    ensures
        ({
            let once = admitted(m, r, params);
            admitted(once, r, params) == once
        }),
{
    let one = single(r);
    let u = state::joined(m, one, params);
    let once = state::trimmed(u, params);
    assert(one.dom().finite());
    assert(state::well_formed(one));
    admitting_is_merging(m, r, params);
    admitting_is_merging(once, r, params);
    union_is_sound(m, one, params);
    assert(agree(u, one)) by {
        assert forall|k: Seq<u8>| #[trigger] u.contains_key(k) && one.contains_key(k) implies u[k].body
            == one[k].body && u[k].signer == one[k].signer by {
            assert(m.contains_key(k) && one.contains_key(k) ==> m[k].body == one[k].body);
        }
    }
    trimming_distributes(u, one, params);
    assert(state::joined(u, one, params) =~= u) by {
        let k = r.id();
        if m.contains_key(k) {
            bytes::lex_total(m[k].sig, r.sig);
        }
    }
}

// ---------------------------------------------------------------------------
// Any order, with repeats.
// ---------------------------------------------------------------------------

/// The state after the records of a list are admitted one by one, starting from
/// nothing.
pub open spec fn delivered(list: Seq<RecordView>, params: ParamsView) -> Map<Seq<u8>, RecordView>
    decreases list.len(),
{
    if list.len() == 0 {
        Map::empty()
    } else {
        admitted(delivered(list.drop_last(), params), list.last(), params)
    }
}

/// Records that share an id make the same statement.
pub open spec fn coherent_ids(list: Seq<RecordView>) -> bool {
    forall|i: int, j: int|
        0 <= i < list.len() && 0 <= j < list.len() && (#[trigger] list[i]).id()
            == (#[trigger] list[j]).id() ==> list[i].body == list[j].body && list[i].signer
            == list[j].signer
}

/// The record is the one of a list to hold under its id: it verifies, and no
/// other that does has a smaller signature.
spec fn prevails(list: Seq<RecordView>, r: RecordView, params: ParamsView) -> bool {
    &&& list.contains(r)
    &&& r.valid(params)
    &&& forall|i: int|
        0 <= i < list.len() && (#[trigger] list[i]).id() == r.id() && list[i].valid(params)
            ==> bytes::lex_le(r.sig, list[i].sig)
}

/// What is pooled of a list: under each id of a record that verifies, the one
/// that prevails.
proof fn pool_of(list: Seq<RecordView>, params: ParamsView)
    requires
        coherent_ids(list),
        forall|i: int| 0 <= i < list.len() ==> (#[trigger] list[i]).sized(),
    ensures
        ({
            let pool = state::absorbed_all(Map::empty(), list, params);
            &&& state::well_formed(pool)
            &&& forall|k: Seq<u8>| #[trigger]
                pool.contains_key(k) ==> pool[k].id() == k && prevails(list, pool[k], params)
            &&& forall|i: int|
                0 <= i < list.len() && (#[trigger] list[i]).valid(params) ==> pool.contains_key(
                    list[i].id(),
                )
        }),
    decreases list.len(),
{
    let none = Map::<Seq<u8>, RecordView>::empty();
    let pool = state::absorbed_all(none, list, params);
    if list.len() == 0 {
        assert(pool.dom() =~= Set::empty());
    } else {
        let rest = list.drop_last();
        let r = list.last();
        assert forall|i: int, j: int|
            0 <= i < rest.len() && 0 <= j < rest.len() && (#[trigger] rest[i]).id()
                == (#[trigger] rest[j]).id() implies rest[i].body == rest[j].body
            && rest[i].signer == rest[j].signer by {
            assert(rest[i] == list[i] && rest[j] == list[j]);
        }
        assert forall|i: int| 0 <= i < rest.len() implies (#[trigger] rest[i]).sized() by {
            assert(rest[i] == list[i]);
        }
        pool_of(rest, params);
        let before = state::absorbed_all(none, rest, params);
        assert(list[list.len() - 1] == r);
        assert(pool.dom() =~= before.dom() || pool.dom() =~= before.dom().insert(r.id()));
        assert forall|k: Seq<u8>| #[trigger] pool.contains_key(k) implies pool[k].id() == k
            && pool[k].sized() && prevails(list, pool[k], params) by {
            let x = pool[k];
            if before.contains_key(k) {
                let held = before[k];
                let at = rest.index_of(held);
                assert(rest[at] == held && list[at] == held);
                bytes::lex_total(held.sig, r.sig);
                assert(list.contains(held));
                if k == r.id() {
                    assert(list[at].id() == list[list.len() - 1].id());
                }
            }
            assert(list.contains(r)) by {
                assert(list[list.len() - 1] == r);
            }
            assert forall|i: int|
                0 <= i < list.len() && (#[trigger] list[i]).id() == x.id() && list[i].valid(
                    params,
                ) implies bytes::lex_le(x.sig, list[i].sig) by {
                if i < rest.len() {
                    assert(rest[i] == list[i]);
                    assert(before.contains_key(rest[i].id()));
                    let held = before[k];
                    assert(bytes::lex_le(held.sig, list[i].sig));
                    bytes::lex_total(held.sig, r.sig);
                    if x != held {
                        chain(r.sig, held.sig, list[i].sig);
                    }
                }
            }
        }
        assert forall|i: int| 0 <= i < list.len() && (#[trigger] list[i]).valid(
            params,
        ) implies pool.contains_key(list[i].id()) by {
            if i < rest.len() {
                assert(rest[i] == list[i]);
            }
        }
    }
}

/// Trimming once at the end is as good as trimming after every record.
proof fn delivered_is_pooled(list: Seq<RecordView>, params: ParamsView)
    requires
        coherent_ids(list),
        forall|i: int| 0 <= i < list.len() ==> (#[trigger] list[i]).sized(),
    ensures
        delivered(list, params) == state::trimmed(
            state::absorbed_all(Map::empty(), list, params),
            params,
        ),
    decreases list.len(),
{
    let none = Map::<Seq<u8>, RecordView>::empty();
    if list.len() == 0 {
        assert(state::trimmed(none, params) =~= none);
    } else {
        let rest = list.drop_last();
        let r = list.last();
        assert forall|i: int, j: int|
            0 <= i < rest.len() && 0 <= j < rest.len() && (#[trigger] rest[i]).id()
                == (#[trigger] rest[j]).id() implies rest[i].body == rest[j].body
            && rest[i].signer == rest[j].signer by {
            assert(rest[i] == list[i] && rest[j] == list[j]);
        }
        assert forall|i: int| 0 <= i < rest.len() implies (#[trigger] rest[i]).sized() by {
            assert(rest[i] == list[i]);
        }
        delivered_is_pooled(rest, params);
        pool_of(rest, params);
        let pool = state::absorbed_all(none, rest, params);
        let one = single(r);
        assert(list[list.len() - 1] == r);
        assert(one.dom() =~= set![r.id()]);
        assert(state::well_formed(one));
        assert(agree(pool, one)) by {
            assert forall|k: Seq<u8>| #[trigger]
                pool.contains_key(k) && one.contains_key(k) implies pool[k].body == one[k].body
                && pool[k].signer == one[k].signer by {
                let at = rest.index_of(pool[k]);
                assert(list[at] == pool[k]);
                assert(list[at].id() == list[list.len() - 1].id());
            }
        }
        admitting_is_merging(state::trimmed(pool, params), r, params);
        admitting_is_merging(pool, r, params);
        trimming_distributes(pool, one, params);
    }
}

/// Any order of delivery, with any repeats, gives the same game: two lists of
/// the same records, admitted one by one, give the same state, and so the same
/// position, chain and outcome.
pub proof fn delivery_order_is_irrelevant(
    l1: Seq<RecordView>,
    l2: Seq<RecordView>,
    params: ParamsView,
)
    requires
        l1.to_set() == l2.to_set(),
        coherent_ids(l1),
        forall|i: int| 0 <= i < l1.len() ==> (#[trigger] l1[i]).sized(),
    ensures
        delivered(l1, params) == delivered(l2, params),
        project::projected(delivered(l1, params), params) == project::projected(
            delivered(l2, params),
            params,
        ),
{
    let none = Map::<Seq<u8>, RecordView>::empty();
    assert forall|i: int| 0 <= i < l2.len() implies exists|t: int|
        0 <= t < l1.len() && l1[t] == #[trigger] l2[i] by {
        assert(l2.to_set().contains(l2[i]));
        assert(l1.contains(l2[i]));
    }
    assert forall|i: int| 0 <= i < l1.len() implies exists|t: int|
        0 <= t < l2.len() && l2[t] == #[trigger] l1[i] by {
        assert(l1.to_set().contains(l1[i]));
        assert(l2.contains(l1[i]));
    }
    assert(coherent_ids(l2)) by {
        assert forall|i: int, j: int|
            0 <= i < l2.len() && 0 <= j < l2.len() && (#[trigger] l2[i]).id()
                == (#[trigger] l2[j]).id() implies l2[i].body == l2[j].body && l2[i].signer
            == l2[j].signer by {
            let s = choose|t: int| 0 <= t < l1.len() && l1[t] == l2[i];
            let t = choose|t: int| 0 <= t < l1.len() && l1[t] == l2[j];
            assert(l1[s].id() == l1[t].id());
        }
    }
    assert forall|i: int| 0 <= i < l2.len() implies (#[trigger] l2[i]).sized() by {
        let s = choose|t: int| 0 <= t < l1.len() && l1[t] == l2[i];
        assert(l1[s].sized());
    }
    let p1 = state::absorbed_all(none, l1, params);
    let p2 = state::absorbed_all(none, l2, params);
    pool_of(l1, params);
    pool_of(l2, params);
    same_pool(l1, l2, params);
    same_pool(l2, l1, params);
    assert(p1 =~= p2);
    delivered_is_pooled(l1, params);
    delivered_is_pooled(l2, params);
}

proof fn same_pool(l1: Seq<RecordView>, l2: Seq<RecordView>, params: ParamsView)
    requires
        coherent_ids(l1),
        coherent_ids(l2),
        forall|i: int| 0 <= i < l1.len() ==> (#[trigger] l1[i]).sized(),
        forall|i: int| 0 <= i < l2.len() ==> (#[trigger] l2[i]).sized(),
        forall|i: int|
            0 <= i < l1.len() ==> exists|t: int| 0 <= t < l2.len() && l2[t] == #[trigger] l1[i],
        forall|i: int|
            0 <= i < l2.len() ==> exists|t: int| 0 <= t < l1.len() && l1[t] == #[trigger] l2[i],
    ensures
        ({
            let p1 = state::absorbed_all(Map::empty(), l1, params);
            let p2 = state::absorbed_all(Map::empty(), l2, params);
            forall|k: Seq<u8>| #[trigger]
                p1.contains_key(k) ==> p2.contains_key(k) && p1[k] == p2[k]
        }),
{
    let none = Map::<Seq<u8>, RecordView>::empty();
    let p1 = state::absorbed_all(none, l1, params);
    let p2 = state::absorbed_all(none, l2, params);
    pool_of(l1, params);
    pool_of(l2, params);
    assert forall|k: Seq<u8>| #[trigger] p1.contains_key(k) implies p2.contains_key(k) && p1[k]
        == p2[k] by {
        let x = p1[k];
        let at = l1.index_of(x);
        assert(l1[at] == x);
        let there = choose|t: int| 0 <= t < l2.len() && l2[t] == l1[at];
        assert(l2[there].valid(params));
        assert(p2.contains_key(k));
        let y = p2[k];
        let at2 = l2.index_of(y);
        assert(l2[at2] == y);
        let back = choose|t: int| 0 <= t < l1.len() && l1[t] == l2[at2];
        assert(l1[back].id() == k && l1[back].valid(params));
        assert(bytes::lex_le(x.sig, l1[back].sig));
        assert(bytes::lex_le(y.sig, l2[there].sig));
        assert(l1[at].id() == l1[back].id());
        if x.sig != y.sig {
            chain(x.sig, y.sig, x.sig);
            bytes::lex_irreflexive(x.sig);
        }
        assert(x == y);
    }
}

// ---------------------------------------------------------------------------
// Synchronisation.
// ---------------------------------------------------------------------------

/// Offering the records of a state one by one, in id order, is taking the
/// union with it.
pub proof fn offering_all_is_union(
    m: Map<Seq<u8>, RecordView>,
    d: Map<Seq<u8>, RecordView>,
    params: ParamsView,
)
    requires
        state::well_formed(d),
    ensures
        state::absorbed_all(m, state::listing(d), params) == state::joined(m, d, params),
{
    let ids = bytemap::ascending(d.dom());
    let list = state::listing(d);
    bytemap::ascending_lists(d.dom());
    offering_some(m, d, params, list.len() as int);
    assert(list.take(list.len() as int) =~= list);
    assert(ids.take(ids.len() as int) =~= ids);
    let part = d.restrict(ids.to_set());
    assert forall|k: Seq<u8>| d.contains_key(k) implies #[trigger] part.contains_key(k) by {
        assert(d.dom().contains(k));
        let j = choose|j: int| 0 <= j < ids.len() && ids[j] == k;
        assert(ids.contains(k));
    }
    assert(part =~= d);
}

proof fn offering_some(
    m: Map<Seq<u8>, RecordView>,
    d: Map<Seq<u8>, RecordView>,
    params: ParamsView,
    n: int,
)
    requires
        state::well_formed(d),
        0 <= n <= state::listing(d).len(),
    ensures
        state::absorbed_all(m, state::listing(d).take(n), params) == state::joined(
            m,
            d.restrict(bytemap::ascending(d.dom()).take(n).to_set()),
            params,
        ),
    decreases n,
{
    let ids = bytemap::ascending(d.dom());
    let list = state::listing(d);
    bytemap::ascending_lists(d.dom());
    if n == 0 {
        assert(state::joined(m, d.restrict(ids.take(0).to_set()), params) =~= m);
    } else {
        offering_some(m, d, params, n - 1);
        let k = ids[n - 1];
        let part = d.restrict(ids.take(n - 1).to_set());
        let next = d.restrict(ids.take(n).to_set());
        assert(list.take(n).drop_last() =~= list.take(n - 1));
        assert(list.take(n).last() == d[k]);
        assert(d.dom().contains(k));
        assert(d.contains_key(k));
        assert(!part.contains_key(k)) by {
            if ids.take(n - 1).contains(k) {
                let t = ids.take(n - 1).index_of(k);
                assert(bytes::lex_lt(ids[t], ids[n - 1]));
                bytes::lex_irreflexive(k);
            }
        }
        assert forall|x: Seq<u8>|
            #![trigger next.contains_key(x)]
            #![trigger part.contains_key(x)]
            next.contains_key(x) == (part.contains_key(x) || x == k) by {
            assert(ids.take(n) =~= ids.take(n - 1).push(k));
            if ids.take(n).contains(x) && x != k {
                let t = ids.take(n).index_of(x);
                assert(ids.take(n - 1)[t] == x);
            }
            if ids.take(n - 1).contains(x) {
                let t = ids.take(n - 1).index_of(x);
                assert(ids.take(n)[t] == x);
            }
            assert(ids.take(n)[n - 1] == k);
        }
        assert(state::absorbed_all(m, list.take(n), params) =~= state::joined(m, next, params));
    }
}

/// Where both states hold an id, equal digests mean equal signatures.
pub open spec fn digests_tell(
    a: Map<Seq<u8>, RecordView>,
    b: Map<Seq<u8>, RecordView>,
) -> bool {
    forall|k: Seq<u8>| #[trigger]
        a.contains_key(k) && b.contains_key(k) && types::signature_digest(a[k].sig)
            == types::signature_digest(b[k].sig) ==> a[k].sig == b[k].sig
}

/// What the holder of `b` has after taking in the delta that the holder of `a`
/// makes against its summary.
pub open spec fn synced(
    a: Map<Seq<u8>, RecordView>,
    b: Map<Seq<u8>, RecordView>,
    params: ParamsView,
) -> Map<Seq<u8>, RecordView> {
    let delta = state::listing(state::lacking(a, state::summary_of(b)));
    state::trimmed(state::absorbed_all(b, delta, params), params)
}

/// A delta carries all that a merge with the whole state would.
pub proof fn a_delta_is_as_good_as_the_state(
    a: Map<Seq<u8>, RecordView>,
    b: Map<Seq<u8>, RecordView>,
    params: ParamsView,
)
    requires
        state::well_formed(a),
        state::well_formed(b),
        digests_tell(a, b),
    ensures
        synced(a, b, params) == state::merge_of(b, a, params),
{
    let d = state::lacking(a, state::summary_of(b));
    assert(d.dom().subset_of(a.dom()));
    vstd::set_lib::lemma_len_subset(d.dom(), a.dom());
    assert(state::well_formed(d)) by {
        assert forall|k: Seq<u8>| #[trigger] d.contains_key(k) implies d[k].id() == k
            && d[k].sized() by {
            assert(a.contains_key(k));
        }
    }
    offering_all_is_union(b, d, params);
    let u = state::joined(b, d, params);
    let v = state::joined(b, a, params);
    assert forall|k: Seq<u8>| #[trigger] u.contains_key(k) implies v.contains_key(k) && u[k]
        == v[k] by {
        assert(d.contains_key(k) ==> a.contains_key(k));
        if a.contains_key(k) && b.contains_key(k) && !d.contains_key(k) {
            assert(a[k].sig == b[k].sig);
        }
    }
    assert forall|k: Seq<u8>| #[trigger] v.contains_key(k) implies u.contains_key(k) by {
        assert(b.contains_key(k) || a.contains_key(k));
    }
    assert(u =~= v);
}

/// Sync is sound: after one round the receiver lacks nothing that the sender
/// held. Joining the sender's whole state adds nothing to it.
pub proof fn sync_is_sound(
    a: Map<Seq<u8>, RecordView>,
    b: Map<Seq<u8>, RecordView>,
    params: ParamsView,
)
    requires
        sound(a, params),
        sound(b, params),
        agree(a, b),
        digests_tell(a, b),
    ensures
        state::merge_of(synced(a, b, params), a, params) == synced(a, b, params),
{
    a_delta_is_as_good_as_the_state(a, b, params);
    agree_symmetric(a, b);
    let u = state::joined(b, a, params);
    union_is_sound(b, a, params);
    assert(agree(u, a)) by {
        assert forall|k: Seq<u8>| #[trigger] u.contains_key(k) && a.contains_key(k) implies u[k].body
            == a[k].body && u[k].signer == a[k].signer by {
            assert(a.contains_key(k) && b.contains_key(k) ==> a[k].body == b[k].body);
        }
    }
    trimming_distributes(u, a, params);
    assert(state::joined(u, a, params) =~= u) by {
        assert forall|k: Seq<u8>| #[trigger] a.contains_key(k) implies u.contains_key(k)
            && !state::displaces(a[k], u[k], params) by {
            if b.contains_key(k) {
                bytes::lex_total(a[k].sig, b[k].sig);
            }
        }
    }
}

/// Two peers that exchange deltas hold the same state afterwards, and have
/// nothing left to tell each other.
pub proof fn an_exchange_converges(
    a: Map<Seq<u8>, RecordView>,
    b: Map<Seq<u8>, RecordView>,
    params: ParamsView,
)
    requires
        sound(a, params),
        sound(b, params),
        agree(a, b),
        digests_tell(a, b),
    ensures
        synced(a, b, params) == synced(b, a, params),
        state::lacking(synced(a, b, params), state::summary_of(synced(b, a, params)))
            == Map::<Seq<u8>, RecordView>::empty(),
{
    agree_symmetric(a, b);
    assert(digests_tell(b, a)) by {
        assert forall|k: Seq<u8>| #[trigger]
            b.contains_key(k) && a.contains_key(k) && types::signature_digest(b[k].sig)
                == types::signature_digest(a[k].sig) implies b[k].sig == a[k].sig by {
            assert(a.contains_key(k) && b.contains_key(k));
        }
    }
    a_delta_is_as_good_as_the_state(a, b, params);
    a_delta_is_as_good_as_the_state(b, a, params);
    merge_commutes(a, b, params);
    nothing_to_tell_oneself(synced(a, b, params));
}

/// A state has no delta against its own summary.
pub proof fn nothing_to_tell_oneself(m: Map<Seq<u8>, RecordView>)
    ensures
        state::lacking(m, state::summary_of(m)) == Map::<Seq<u8>, RecordView>::empty(),
{
    assert(state::lacking(m, state::summary_of(m)) =~= Map::<Seq<u8>, RecordView>::empty());
}

// ---------------------------------------------------------------------------
// Which of two stays.
// ---------------------------------------------------------------------------

/// Of two genuine signatures under one statement the smaller stays, whichever
/// came first, and a genuine one takes the place of one that is not.
pub proof fn the_smaller_signature_stays(
    m: Map<Seq<u8>, RecordView>,
    r: RecordView,
    params: ParamsView,
)
    requires
        m.contains_key(r.id()),
        r.valid(params),
    ensures
        ({
            let held = m[r.id()];
            let now = state::absorbed(m, r, params)[r.id()];
            &&& now == r || now == held
            &&& held.valid(params) ==> bytes::lex_le(now.sig, r.sig) && bytes::lex_le(
                now.sig,
                held.sig,
            )
            &&& !held.valid(params) && held.sig != r.sig ==> now == r
        }),
{
    bytes::lex_total(r.sig, m[r.id()].sig);
}

/// A record that is offered touches no other, and a genuine one that is new is
/// taken.
pub proof fn an_offered_record_touches_no_other(
    m: Map<Seq<u8>, RecordView>,
    r: RecordView,
    params: ParamsView,
    k: Seq<u8>,
)
    requires
        k != r.id(),
    ensures
        state::absorbed(m, r, params).contains_key(k) <==> m.contains_key(k),
        m.contains_key(k) ==> state::absorbed(m, r, params)[k] == m[k],
        !m.contains_key(r.id()) ==> (state::absorbed(m, r, params).contains_key(r.id()) <==> r.valid(
            params,
        )),
{
}

/// Where a group is cut down, the smaller ids stay, and the genuine before those
/// that are not: who stays has everybody ahead of them stay.
pub proof fn the_smaller_ids_stay(
    m: Map<Seq<u8>, RecordView>,
    params: ParamsView,
    j: Seq<u8>,
    k: Seq<u8>,
)
    requires
        m.dom().finite(),
        m.contains_key(j),
        state::group(m[j]) == state::group(m[k]),
        m[j].valid(params) && !m[k].valid(params) || m[j].valid(params) == m[k].valid(params)
            && bytes::lex_lt(j, k),
        state::trimmed(m, params).contains_key(k),
    ensures
        state::trimmed(m, params).contains_key(j),
        state::trimmed(m, params)[j] == m[j],
{
    let first = state::genuine(m, params);
    let a = state::ahead(m, first, j);
    let b = state::ahead(m, first, k);
    assert(b.subset_of(m.dom()));
    vstd::set_lib::lemma_len_subset(b, m.dom());
    assert forall|x: Seq<u8>| #[trigger] a.contains(x) implies b.contains(x) by {
        if first.contains(x) == first.contains(j) && first.contains(j) == first.contains(k) {
            bytes::lex_transitive(x, j, k);
        }
    }
    vstd::set_lib::lemma_len_subset(a, b);
}

/// A resignation is in nobody's way and nobody in its: it always stays.
pub proof fn a_resignation_always_stays(
    m: Map<Seq<u8>, RecordView>,
    params: ParamsView,
    k: Seq<u8>,
)
    requires
        m.contains_key(k),
        m[k].body is Resign,
    ensures
        state::trimmed(m, params).contains_key(k),
        state::trimmed(m, params)[k] == m[k],
{
}

/// A genuine record arrives: where its signer said nothing of its kind at its ply
/// before, it is there once it was offered.
pub proof fn a_genuine_record_arrives(
    m: Map<Seq<u8>, RecordView>,
    r: RecordView,
    params: ParamsView,
)
    requires
        !m.contains_key(r.id()),
        r.valid(params),
        forall|j: Seq<u8>| #[trigger]
            m.contains_key(j) ==> !(m[j].signer == r.signer && m[j].body.kind() == r.body.kind()
                && m[j].body.ply() == r.body.ply()),
    ensures
        ({
            let next = state::trimmed(state::absorbed(m, r, params), params);
            next.contains_key(r.id()) && next[r.id()] == r
        }),
{
    let u = state::absorbed(m, r, params);
    let first = state::genuine(u, params);
    let k = r.id();
    let a = state::ahead(u, first, k);
    if state::group(r) is Some {
        assert forall|x: Seq<u8>| !#[trigger] a.contains(x) by {
            if a.contains(x) {
                if x == k {
                    bytes::lex_irreflexive(k);
                } else {
                    assert(m.contains_key(x));
                }
            }
        }
        assert(a =~= Set::empty());
    }
}

} // verus!
