//! A map keyed by byte strings, kept in key order.
//!
//! The order of iteration is a function of the keys alone, which is what makes
//! the bytes of a state the same on every peer that holds it.

use vstd::prelude::*;
use crate::bytes;
use crate::bytes::{before, same_bytes};

verus! {

// ---------------------------------------------------------------------------
// Ascending order.
// ---------------------------------------------------------------------------

/// `x` is the largest element of `s`.
pub open spec fn is_last(s: Set<Seq<u8>>, x: Seq<u8>) -> bool {
    s.contains(x) && forall|y: Seq<u8>| #[trigger] s.contains(y) ==> y == x || bytes::lex_lt(y, x)
}

/// A finite set that is not empty has a largest element.
pub proof fn last_exists(s: Set<Seq<u8>>) -> (x: Seq<u8>)
    requires
        s.finite(),
        s.len() > 0,
    ensures
        is_last(s, x),
    decreases s.len(),
{
    let a = s.choose();
    let rest = s.remove(a);
    if rest.len() == 0 {
        assert forall|y: Seq<u8>| #[trigger] s.contains(y) implies y == a || bytes::lex_lt(
            y,
            a,
        ) by {
            if y != a {
                assert(rest.contains(y));
            }
        }
        a
    } else {
        let b = last_exists(rest);
        bytes::lex_total(a, b);
        let x = if bytes::lex_lt(a, b) { b } else { a };
        assert forall|y: Seq<u8>| #[trigger] s.contains(y) implies y == x || bytes::lex_lt(
            y,
            x,
        ) by {
            if y != a {
                assert(rest.contains(y));
                if x == a && y != b {
                    bytes::lex_transitive(y, b, a);
                }
            }
        }
        x
    }
}

/// There is only one largest element.
pub proof fn last_unique(s: Set<Seq<u8>>, x: Seq<u8>, y: Seq<u8>)
    requires
        is_last(s, x),
        is_last(s, y),
    ensures
        x == y,
{
    bytes::lex_total(x, y);
}

/// The elements of a finite set of keys, smallest first.
pub open spec fn ascending(s: Set<Seq<u8>>) -> Seq<Seq<u8>>
    decreases s.len(),
{
    if s.finite() && s.len() > 0 {
        let x = choose|x: Seq<u8>| is_last(s, x);
        proof {
            let w = last_exists(s);
        }
        ascending(s.remove(x)).push(x)
    } else {
        Seq::empty()
    }
}

/// Strictly ascending.
pub open spec fn is_ascending(t: Seq<Seq<u8>>) -> bool {
    forall|i: int, j: int| 0 <= i < j < t.len() ==> bytes::lex_lt(#[trigger] t[i], #[trigger] t[j])
}

/// The ascending order of a set holds exactly its elements, each once.
pub proof fn ascending_lists(s: Set<Seq<u8>>)
    requires
        s.finite(),
    ensures
        ascending(s).len() == s.len(),
        is_ascending(ascending(s)),
        forall|i: int| 0 <= i < ascending(s).len() ==> s.contains(#[trigger] ascending(s)[i]),
        forall|x: Seq<u8>| #[trigger]
            s.contains(x) ==> exists|i: int| 0 <= i < ascending(s).len() && ascending(s)[i] == x,
    decreases s.len(),
{
    if s.len() > 0 {
        let w = last_exists(s);
        let x = choose|x: Seq<u8>| is_last(s, x);
        let rest = s.remove(x);
        ascending_lists(rest);
        let t = ascending(rest);
        assert(ascending(s) == t.push(x));
        assert forall|y: Seq<u8>| #[trigger] s.contains(y) implies exists|i: int|
            0 <= i < ascending(s).len() && ascending(s)[i] == y by {
            if y == x {
                assert(ascending(s)[t.len() as int] == x);
            } else {
                assert(rest.contains(y));
                let i = choose|i: int| 0 <= i < t.len() && t[i] == y;
                assert(ascending(s)[i] == y);
            }
        }
        assert forall|i: int, j: int| 0 <= i < j < ascending(s).len() implies bytes::lex_lt(
            #[trigger] ascending(s)[i],
            #[trigger] ascending(s)[j],
        ) by {
            if j == t.len() {
                assert(rest.contains(t[i]));
            }
        }
    }
}

/// A strictly ascending list of the elements of a set is its ascending order.
pub proof fn ascending_unique(t: Seq<Seq<u8>>, s: Set<Seq<u8>>)
    requires
        is_ascending(t),
        forall|i: int| 0 <= i < t.len() ==> s.contains(#[trigger] t[i]),
        forall|x: Seq<u8>| #[trigger]
            s.contains(x) ==> exists|i: int| 0 <= i < t.len() && t[i] == x,
    ensures
        s.finite(),
        s.len() == t.len(),
        t == ascending(s),
    decreases t.len(),
{
    if t.len() == 0 {
        assert(s =~= Set::empty());
        assert(t =~= ascending(s));
    } else {
        let last = t.last();
        let rest = s.remove(last);
        let front = t.drop_last();
        assert forall|i: int| 0 <= i < front.len() implies rest.contains(#[trigger] front[i]) by {
            assert(s.contains(t[i]));
            assert(bytes::lex_lt(t[i], t[t.len() - 1]));
            bytes::lex_irreflexive(last);
        }
        assert forall|x: Seq<u8>| #[trigger] rest.contains(x) implies exists|i: int|
            0 <= i < front.len() && front[i] == x by {
            let i = choose|i: int| 0 <= i < t.len() && t[i] == x;
            assert(front[i] == x);
        }
        ascending_unique(front, rest);
        assert(s.contains(t[t.len() - 1]));
        assert(s =~= rest.insert(last));
        assert forall|y: Seq<u8>| #[trigger] s.contains(y) implies y == last || bytes::lex_lt(
            y,
            last,
        ) by {
            let i = choose|i: int| 0 <= i < t.len() && t[i] == y;
            if i < t.len() - 1 {
                assert(bytes::lex_lt(t[i], t[t.len() - 1]));
            }
        }
        assert(is_last(s, last));
        let x = choose|x: Seq<u8>| is_last(s, x);
        last_unique(s, x, last);
        assert(t =~= front.push(last));
    }
}

// ---------------------------------------------------------------------------
// The map.
// ---------------------------------------------------------------------------

/// What a map can be keyed by: anything that is a byte string.
pub trait ByteKey {
    /// The bytes of the key.
    spec fn key(&self) -> Seq<u8>;

    /// The bytes of the key.
    fn key_bytes(&self) -> (r: &[u8])
        ensures
            r@ == self.key(),
    ;
}

impl ByteKey for [u8; 32] {
    open spec fn key(&self) -> Seq<u8> {
        self@
    }

    fn key_bytes(&self) -> (r: &[u8]) {
        self.as_slice()
    }
}

impl ByteKey for Vec<u8> {
    open spec fn key(&self) -> Seq<u8> {
        self@
    }

    fn key_bytes(&self) -> (r: &[u8]) {
        self.as_slice()
    }
}

/// A map from byte strings, iterated smallest key first.
#[derive(Debug, PartialEq, Eq)]
pub struct ByteMap<K: ByteKey, T> {
    entries: Vec<(K, T)>,
}

/// The keys of a list of entries.
spec fn ids_of<K: ByteKey, T>(entries: Seq<(K, T)>) -> Seq<Seq<u8>> {
    entries.map_values(|e: (K, T)| e.0.key())
}

/// The map a list of entries stands for.
spec fn map_of<K: ByteKey, T>(entries: Seq<(K, T)>) -> Map<Seq<u8>, T> {
    Map::new(
        |k: Seq<u8>| ids_of(entries).contains(k),
        |k: Seq<u8>| entries[ids_of(entries).index_of(k)].1,
    )
}

/// Each entry of an ascending list is in its map, and nothing else is.
proof fn map_of_entries<K: ByteKey, T>(entries: Seq<(K, T)>)
    requires
        is_ascending(ids_of(entries)),
    ensures
        forall|i: int|
            0 <= i < entries.len() ==> map_of(entries).contains_key((#[trigger] entries[i]).0.key())
                && map_of(entries)[entries[i].0.key()] == entries[i].1,
        map_of(entries).dom().finite(),
        map_of(entries).len() == entries.len(),
        ids_of(entries) == ascending(map_of(entries).dom()),
{
    let t = ids_of(entries);
    let m = map_of(entries);
    assert forall|i: int| 0 <= i < entries.len() implies m.contains_key((#[trigger] entries[i]).0.key())
        && m[entries[i].0.key()] == entries[i].1 by {
        assert(t[i] == entries[i].0.key());
        let k = t[i];
        let j = t.index_of(k);
        assert(t.contains(k));
        assert(t[j] == k);
        bytes::lex_irreflexive(k);
        if i < j {
            assert(bytes::lex_lt(t[i], t[j]));
        } else if j < i {
            assert(bytes::lex_lt(t[j], t[i]));
        }
    }
    assert forall|i: int| 0 <= i < t.len() implies m.dom().contains(#[trigger] t[i]) by {
        assert(t[i] == entries[i].0.key());
    }
    assert forall|x: Seq<u8>| #[trigger] m.dom().contains(x) implies exists|i: int|
        0 <= i < t.len() && t[i] == x by {
        assert(t.contains(x));
    }
    ascending_unique(t, m.dom());
}

/// Putting an entry at its place keeps the order and makes the map with that
/// one entry put in. `gone` is 1 where an entry with that key stood there, and 0
/// where none did.
proof fn place_filled<K: ByteKey, T>(old: Seq<(K, T)>, new: Seq<(K, T)>, p: int, gone: int)
    requires
        is_ascending(ids_of(old)),
        0 <= gone <= 1,
        0 <= p <= old.len() - gone,
        new.len() == old.len() + 1 - gone,
        forall|j: int| 0 <= j < p ==> #[trigger] new[j] == old[j],
        forall|j: int| p < j < new.len() ==> #[trigger] new[j] == old[j - 1 + gone],
        forall|j: int| 0 <= j < p ==> bytes::lex_lt((#[trigger] old[j]).0.key(), new[p].0.key()),
        forall|j: int|
            p <= j < old.len() ==> !bytes::lex_lt((#[trigger] old[j]).0.key(), new[p].0.key()),
        gone == 1 ==> old[p].0.key() == new[p].0.key(),
        gone == 0 ==> !map_of(old).contains_key(new[p].0.key()),
    ensures
        is_ascending(ids_of(new)),
        map_of(new) == map_of(old).insert(new[p].0.key(), new[p].1),
{
    let t = ids_of(new);
    let u = ids_of(old);
    let id = new[p].0.key();
    map_of_entries(old);
    assert forall|j: int| p < j < new.len() implies bytes::lex_lt(id, #[trigger] t[j]) by {
        let jj = j - 1 + gone;
        assert(new[j] == old[jj]);
        assert(t[j] == u[jj]);
        bytes::lex_total(id, old[jj].0.key());
        if gone == 1 {
            assert(bytes::lex_lt(u[p], u[jj]));
        } else {
            assert(map_of(old).contains_key(old[jj].0.key()));
        }
    }
    assert forall|i: int, j: int| 0 <= i < j < t.len() implies bytes::lex_lt(
        #[trigger] t[i],
        #[trigger] t[j],
    ) by {
        if i < p {
            assert(new[i] == old[i]);
        }
        if j < p {
            assert(new[j] == old[j]);
            assert(t[i] == u[i] && t[j] == u[j]);
        } else if j > p {
            assert(new[j] == old[j - 1 + gone]);
            if i < p {
                bytes::lex_transitive(t[i], id, t[j]);
            } else if i > p {
                assert(new[i] == old[i - 1 + gone]);
                assert(t[i] == u[i - 1 + gone] && t[j] == u[j - 1 + gone]);
            }
        }
    }
    map_of_entries(new);
    let m = map_of(new);
    let n = map_of(old).insert(id, new[p].1);
    assert forall|k: Seq<u8>| #[trigger] m.contains_key(k) implies n.contains_key(k) && m[k]
        == n[k] by {
        assert(t.contains(k));
        let i = t.index_of(k);
        assert(new[i].0.key() == k);
        if i < p {
            assert(new[i] == old[i]);
            bytes::lex_irreflexive(k);
        } else if i > p {
            assert(new[i] == old[i - 1 + gone]);
            assert(bytes::lex_lt(id, t[i]));
            bytes::lex_irreflexive(k);
        }
    }
    assert forall|k: Seq<u8>| #[trigger] n.contains_key(k) implies m.contains_key(k) by {
        if k == id {
            assert(new[p].0.key() == k);
        } else {
            assert(u.contains(k));
            let i = u.index_of(k);
            assert(old[i].0.key() == k);
            if i < p {
                assert(new[i] == old[i]);
            } else {
                assert(new[i + 1 - gone] == old[i]);
            }
        }
    }
    assert(m =~= n);
}

/// Taking an entry out keeps the order and makes the map without that key.
proof fn place_emptied<K: ByteKey, T>(old: Seq<(K, T)>, p: int)
    requires
        is_ascending(ids_of(old)),
        0 <= p < old.len(),
    ensures
        is_ascending(ids_of(old.remove(p))),
        map_of(old.remove(p)) == map_of(old).remove(old[p].0.key()),
{
    let new = old.remove(p);
    let t = ids_of(new);
    let u = ids_of(old);
    let id = old[p].0.key();
    map_of_entries(old);
    assert forall|j: int| 0 <= j < t.len() implies #[trigger] t[j] == u[if j < p {
        j
    } else {
        j + 1
    }] by {}
    assert(u[p] == id);
    map_of_entries(new);
    let m = map_of(new);
    let n = map_of(old).remove(id);
    assert forall|k: Seq<u8>| #[trigger] m.contains_key(k) implies n.contains_key(k) && m[k]
        == n[k] by {
        assert(t.contains(k));
        let i = t.index_of(k);
        let from = if i < p { i } else { i + 1 };
        assert(t[i] == u[from]);
        assert(new[i] == old[from]);
        assert(old[from].0.key() == k);
        bytes::lex_irreflexive(k);
        if from < p {
            assert(bytes::lex_lt(u[from], u[p]));
        } else {
            assert(bytes::lex_lt(u[p], u[from]));
        }
    }
    assert forall|k: Seq<u8>| #[trigger] n.contains_key(k) implies m.contains_key(k) by {
        assert(u.contains(k));
        let i = u.index_of(k);
        assert(old[i].0.key() == k);
        if i < p {
            assert(new[i] == old[i]);
        } else {
            assert(new[i - 1] == old[i]);
        }
    }
    assert(m =~= n);
}

impl<K: ByteKey, T> View for ByteMap<K, T> {
    type V = Map<Seq<u8>, T>;

    closed spec fn view(&self) -> Map<Seq<u8>, T> {
        map_of(self.entries@)
    }
}

impl<K: ByteKey, T> ByteMap<K, T> {
    #[verifier::type_invariant]
    spec fn inv(&self) -> bool {
        is_ascending(ids_of(self.entries@))
    }

    /// The keys it holds, smallest first.
    pub open spec fn ids(&self) -> Seq<Seq<u8>> {
        ascending(self@.dom())
    }

    /// A map that holds nothing.
    pub fn new() -> (r: ByteMap<K, T>)
        ensures
            r@ == Map::<Seq<u8>, T>::empty(),
    {
        let r = ByteMap { entries: Vec::new() };
        assert(r@ =~= Map::<Seq<u8>, T>::empty());
        r
    }

    /// How many keys it holds.
    pub fn len(&self) -> (r: usize)
        ensures
            r == self@.len(),
            r == self.ids().len(),
            self@.dom().finite(),
    {
        proof {
            use_type_invariant(self);
            map_of_entries(self.entries@);
        }
        self.entries.len()
    }

    /// Whether it holds nothing.
    pub fn is_empty(&self) -> (r: bool)
        ensures
            r == (self@.len() == 0),
    {
        self.len() == 0
    }

    /// The `i`-th smallest key.
    pub fn id_at(&self, i: usize) -> (r: &K)
        requires
            i < self.ids().len(),
        ensures
            r.key() == self.ids()[i as int],
            self@.contains_key(r.key()),
    {
        proof {
            use_type_invariant(self);
            map_of_entries(self.entries@);
        }
        assert(ids_of(self.entries@)[i as int] == self.entries@[i as int].0.key());
        &self.entries[i].0
    }

    /// The value under the `i`-th smallest key.
    pub fn value_at(&self, i: usize) -> (r: &T)
        requires
            i < self.ids().len(),
        ensures
            *r == self@[self.ids()[i as int]],
            self@.contains_key(self.ids()[i as int]),
    {
        proof {
            use_type_invariant(self);
            map_of_entries(self.entries@);
        }
        assert(ids_of(self.entries@)[i as int] == self.entries@[i as int].0.key());
        &self.entries[i].1
    }

    /// The first place whose key does not come before `id`.
    fn place(&self, id: &[u8]) -> (r: usize)
        ensures
            r <= self.entries@.len(),
            forall|j: int| 0 <= j < r ==> bytes::lex_lt((#[trigger] self.entries@[j]).0.key(), id@),
            forall|j: int|
                r <= j < self.entries@.len() ==> !bytes::lex_lt(
                    (#[trigger] self.entries@[j]).0.key(),
                    id@,
                ),
    {
        proof {
            use_type_invariant(self);
        }
        let mut lo: usize = 0;
        let mut hi: usize = self.entries.len();
        while lo < hi
            invariant
                lo <= hi <= self.entries@.len(),
                is_ascending(ids_of(self.entries@)),
                forall|j: int| 0 <= j < lo ==> bytes::lex_lt((#[trigger] self.entries@[j]).0.key(), id@),
                forall|j: int|
                    hi <= j < self.entries@.len() ==> !bytes::lex_lt(
                        (#[trigger] self.entries@[j]).0.key(),
                        id@,
                    ),
            decreases hi - lo,
        {
            let mid: usize = lo + (hi - lo) / 2;
            let ghost t = ids_of(self.entries@);
            if before(self.entries[mid].0.key_bytes(), id) {
                assert forall|j: int| 0 <= j < mid + 1 implies bytes::lex_lt(
                    (#[trigger] self.entries@[j]).0.key(),
                    id@,
                ) by {
                    if j < mid {
                        assert(bytes::lex_lt(t[j], t[mid as int]));
                        bytes::lex_transitive(t[j], t[mid as int], id@);
                    }
                }
                lo = mid + 1;
            } else {
                assert forall|j: int| mid <= j < self.entries@.len() implies !bytes::lex_lt(
                    (#[trigger] self.entries@[j]).0.key(),
                    id@,
                ) by {
                    if mid < j && bytes::lex_lt(self.entries@[j].0.key(), id@) {
                        assert(bytes::lex_lt(t[mid as int], t[j]));
                        bytes::lex_transitive(t[mid as int], t[j], id@);
                    }
                }
                hi = mid;
            }
        }
        lo
    }

    /// A key that is in the map stands at its place.
    proof fn place_found(entries: Seq<(K, T)>, p: int, id: Seq<u8>)
        requires
            is_ascending(ids_of(entries)),
            0 <= p <= entries.len(),
            forall|j: int| 0 <= j < p ==> bytes::lex_lt((#[trigger] entries[j]).0.key(), id),
            forall|j: int|
                p <= j < entries.len() ==> !bytes::lex_lt((#[trigger] entries[j]).0.key(), id),
        ensures
            map_of(entries).contains_key(id) <==> p < entries.len() && entries[p].0.key() == id,
    {
        map_of_entries(entries);
        let t = ids_of(entries);
        if map_of(entries).contains_key(id) {
            assert(t.contains(id));
            let j = t.index_of(id);
            assert(t[j] == entries[j].0.key());
            bytes::lex_irreflexive(id);
            assert(p <= j);
            if p < j {
                assert(bytes::lex_lt(t[p], t[j]));
                assert(!bytes::lex_lt(entries[p].0.key(), id));
            }
        }
    }

    /// The value under a key.
    pub fn get(&self, id: &[u8]) -> (r: Option<&T>)
        ensures
            match r {
                Some(v) => self@.contains_key(id@) && self@[id@] == *v,
                None => !self@.contains_key(id@),
            },
    {
        let p: usize = self.place(id);
        proof {
            use_type_invariant(self);
            map_of_entries(self.entries@);
            ByteMap::<K, T>::place_found(self.entries@, p as int, id@);
        }
        if p < self.entries.len() && same_bytes(self.entries[p].0.key_bytes(), id) {
            Some(&self.entries[p].1)
        } else {
            None
        }
    }

    /// Whether it holds a key.
    pub fn contains_key(&self, id: &[u8]) -> (r: bool)
        ensures
            r == self@.contains_key(id@),
    {
        self.get(id).is_some()
    }

    /// Put a value under a key; what stood there before is returned.
    pub fn insert(&mut self, id: K, value: T) -> (r: Option<T>)
        ensures
            final(self)@ == old(self)@.insert(id.key(), value),
            match r {
                Some(v) => old(self)@.contains_key(id.key()) && old(self)@[id.key()] == v,
                None => !old(self)@.contains_key(id.key()),
            },
    {
        let p: usize = self.place(id.key_bytes());
        proof {
            use_type_invariant(&*self);
            map_of_entries(self.entries@);
            ByteMap::<K, T>::place_found(self.entries@, p as int, id.key());
        }
        let ghost old_entries = self.entries@;
        let mut entries: Vec<(K, T)> = Vec::new();
        std::mem::swap(&mut entries, &mut self.entries);
        let mut prior: Option<T> = None;
        if p < entries.len() && same_bytes(entries[p].0.key_bytes(), id.key_bytes()) {
            let e = entries.remove(p);
            prior = Some(e.1);
            assert(entries@ =~= old_entries.remove(p as int));
        }
        entries.insert(p, (id, value));
        proof {
            let gone: int = if prior is Some { 1 } else { 0 };
            place_filled(old_entries, entries@, p as int, gone);
        }
        self.entries = entries;
        prior
    }

    /// Take out a key and what stands under it.
    pub fn remove(&mut self, id: &[u8])
        ensures
            final(self)@ == old(self)@.remove(id@),
    {
        let p: usize = self.place(id);
        proof {
            use_type_invariant(&*self);
            ByteMap::<K, T>::place_found(self.entries@, p as int, id@);
        }
        if p < self.entries.len() && same_bytes(self.entries[p].0.key_bytes(), id) {
            let ghost held = self.entries@;
            let mut entries: Vec<(K, T)> = Vec::new();
            std::mem::swap(&mut entries, &mut self.entries);
            let _ = entries.remove(p);
            proof {
                place_emptied(held, p as int);
                assert(entries@ =~= held.remove(p as int));
            }
            self.entries = entries;
        } else {
            assert(self@ =~= self@.remove(id@));
        }
    }
}

} // verus!
