//! The contract state and its operations.
//!
//! State is a set of signed records, filed by id. Merge is set union with a
//! deterministic tiebreak, then eviction. There is no chess in it: ordering
//! comes from the parent chain, resolved at projection time.

use vstd::prelude::*;
use crate::bytes;
use crate::bytes::{append_bytes, array32, before, same_bytes, sub_bytes};
use crate::cbor;
use crate::cbor::{Cbor, Item};
use crate::bytemap;
use crate::bytemap::ByteMap;
use crate::types;
use crate::types::{GameParams, KeyBytes, Kind, ParamsView, Record, RecordId, RecordView};

verus! {

// ---------------------------------------------------------------------------
// The mathematical state, and what the operations do to it.
// ---------------------------------------------------------------------------

/// A set of records, each under its own id.
pub open spec fn well_formed(m: Map<Seq<u8>, RecordView>) -> bool {
    &&& m.dom().finite()
    &&& forall|k: Seq<u8>| #[trigger] m.contains_key(k) ==> m[k].id() == k && m[k].sized()
}

/// Every record is a real statement by one of the two players.
pub open spec fn valid_state(m: Map<Seq<u8>, RecordView>, params: ParamsView) -> bool {
    forall|k: Seq<u8>| #[trigger] m.contains_key(k) ==> m[k].valid(params)
}

/// The records of a state, in id order.
pub open spec fn listing(m: Map<Seq<u8>, RecordView>) -> Seq<RecordView> {
    bytemap::ascending(m.dom()).map_values(|k: Seq<u8>| m[k])
}

/// One signer's records of one kind at one ply. A resignation belongs to no
/// group.
pub open spec fn group(r: RecordView) -> Option<(Seq<u8>, Kind, u16)> {
    match r.body.ply() {
        Some(ply) => Some((r.signer, r.body.kind(), ply)),
        None => None,
    }
}

/// The ids of the records that verify.
pub open spec fn genuine(m: Map<Seq<u8>, RecordView>, params: ParamsView) -> Set<Seq<u8>> {
    Set::new(|k: Seq<u8>| m.contains_key(k) && m[k].valid(params))
}

/// One id ranks before another: those in `first` before the others, and
/// otherwise the smaller before the larger.
pub open spec fn precedes(first: Set<Seq<u8>>, j: Seq<u8>, k: Seq<u8>) -> bool {
    if first.contains(j) == first.contains(k) {
        bytes::lex_lt(j, k)
    } else {
        first.contains(j)
    }
}

/// The ids in a record's group that rank before it.
pub open spec fn ahead(
    m: Map<Seq<u8>, RecordView>,
    first: Set<Seq<u8>>,
    k: Seq<u8>,
) -> Set<Seq<u8>> {
    Set::new(
        |j: Seq<u8>| m.contains_key(j) && group(m[j]) == group(m[k]) && precedes(first, j, k),
    )
}

/// The record is among the first of its group, as many as its kind allows.
pub open spec fn kept(m: Map<Seq<u8>, RecordView>, first: Set<Seq<u8>>, k: Seq<u8>) -> bool {
    &&& m.contains_key(k)
    &&& group(m[k]) is Some ==> ahead(m, first, k).len() < m[k].body.kind().limit()
}

/// The state with only the first of each group kept.
pub open spec fn topped(m: Map<Seq<u8>, RecordView>, first: Set<Seq<u8>>) -> Map<
    Seq<u8>,
    RecordView,
> {
    Map::new(|k: Seq<u8>| kept(m, first, k), |k: Seq<u8>| m[k])
}

/// The state with only the smallest ids of each group kept.
pub open spec fn evicted(m: Map<Seq<u8>, RecordView>) -> Map<Seq<u8>, RecordView> {
    topped(m, Set::empty())
}

/// The state with each group cut down to size, records that verify before those
/// that do not: a forgery takes only a place that nothing genuine needs.
pub open spec fn trimmed(m: Map<Seq<u8>, RecordView>, params: ParamsView) -> Map<
    Seq<u8>,
    RecordView,
> {
    topped(m, genuine(m, params))
}

/// A record takes the place of one held under the same id: it verifies, its
/// signature is another one, and the held one does not verify or has the larger
/// signature.
pub open spec fn displaces(new: RecordView, held: RecordView, params: ParamsView) -> bool {
    &&& new.sig != held.sig
    &&& new.valid(params)
    &&& !(held.valid(params) && bytes::lex_le(held.sig, new.sig))
}

/// The state after one record is offered to it.
pub open spec fn absorbed(
    m: Map<Seq<u8>, RecordView>,
    r: RecordView,
    params: ParamsView,
) -> Map<Seq<u8>, RecordView> {
    if m.contains_key(r.id()) {
        if displaces(r, m[r.id()], params) {
            m.insert(r.id(), r)
        } else {
            m
        }
    } else if r.valid(params) {
        m.insert(r.id(), r)
    } else {
        m
    }
}

/// The state after a list of records is offered to it, one by one.
pub open spec fn absorbed_all(
    m: Map<Seq<u8>, RecordView>,
    list: Seq<RecordView>,
    params: ParamsView,
) -> Map<Seq<u8>, RecordView>
    decreases list.len(),
{
    if list.len() == 0 {
        m
    } else {
        absorbed(absorbed_all(m, list.drop_last(), params), list.last(), params)
    }
}

/// The union of two states: of what both hold, the record that prevails; of
/// what only the second holds, the records that verify.
pub open spec fn joined(
    a: Map<Seq<u8>, RecordView>,
    b: Map<Seq<u8>, RecordView>,
    params: ParamsView,
) -> Map<Seq<u8>, RecordView> {
    Map::new(
        |k: Seq<u8>| a.contains_key(k) || b.contains_key(k) && b[k].valid(params),
        |k: Seq<u8>|
            if a.contains_key(k) && !(b.contains_key(k) && displaces(b[k], a[k], params)) {
                a[k]
            } else {
                b[k]
            },
    )
}

/// Merge: union, then each group cut down to size.
pub open spec fn merge_of(
    a: Map<Seq<u8>, RecordView>,
    b: Map<Seq<u8>, RecordView>,
    params: ParamsView,
) -> Map<Seq<u8>, RecordView> {
    trimmed(joined(a, b, params), params)
}

/// What a state tells others it holds: each id with its signature's digest.
pub open spec fn summary_of(m: Map<Seq<u8>, RecordView>) -> Map<Seq<u8>, Seq<u8>> {
    Map::new(|k: Seq<u8>| m.contains_key(k), |k: Seq<u8>| types::signature_digest(m[k].sig))
}

/// The records that the holder of a summary lacks, or holds under another
/// signature.
pub open spec fn lacking(
    m: Map<Seq<u8>, RecordView>,
    summary: Map<Seq<u8>, Seq<u8>>,
) -> Map<Seq<u8>, RecordView> {
    Map::new(
        |k: Seq<u8>|
            m.contains_key(k) && !(summary.contains_key(k) && summary[k]
                == types::signature_digest(m[k].sig)),
        |k: Seq<u8>| m[k],
    )
}

/// The values of a list of records.
pub open spec fn views(list: Seq<Record>) -> Seq<RecordView> {
    list.map_values(|r: Record| r@)
}

// ---------------------------------------------------------------------------
// On the wire.
// ---------------------------------------------------------------------------

/// A list of records as a CBOR document.
pub open spec fn list_tree(list: Seq<RecordView>) -> Cbor {
    Cbor::Array(list.map_values(|r: RecordView| r.tree()))
}

/// Read a list of records out of a document.
pub open spec fn parse_list(c: Cbor) -> Option<Seq<RecordView>> {
    match cbor::as_list(c) {
        None => None,
        Some(s) => if forall|i: int|
            0 <= i < s.len() ==> types::parse_record(#[trigger] s[i]) is Some {
            Some(Seq::new(s.len(), |i: int| types::parse_record(s[i])->0))
        } else {
            None
        },
    }
}

/// File a list of records by id; `None` where two of them share one.
pub open spec fn filed(list: Seq<RecordView>) -> Option<Map<Seq<u8>, RecordView>>
    decreases list.len(),
{
    if list.len() == 0 {
        Some(Map::empty())
    } else {
        match filed(list.drop_last()) {
            None => None,
            Some(m) => if m.contains_key(list.last().id()) {
                None
            } else {
                Some(m.insert(list.last().id(), list.last()))
            },
        }
    }
}

/// A state as a CBOR document: its records, in id order. The ids are not sent.
pub open spec fn state_tree(m: Map<Seq<u8>, RecordView>) -> Cbor {
    list_tree(listing(m))
}

/// Read a state out of a document. One that repeats an id is malformed.
pub open spec fn parse_state(c: Cbor) -> Option<Map<Seq<u8>, RecordView>> {
    match parse_list(c) {
        Some(list) => filed(list),
        None => None,
    }
}

/// The state that a byte string holds.
pub open spec fn decoded_state(raw: Seq<u8>) -> Option<Map<Seq<u8>, RecordView>> {
    match cbor::document(raw) {
        Some(c) => parse_state(c),
        None => None,
    }
}

/// The list of records that a byte string holds.
pub open spec fn decoded_list(raw: Seq<u8>) -> Option<Seq<RecordView>> {
    match cbor::document(raw) {
        Some(c) => parse_list(c),
        None => None,
    }
}

/// The entries of a summary, one after another: 32 bytes of id, 32 of digest.
pub open spec fn packed(ids: Seq<Seq<u8>>, m: Map<Seq<u8>, Seq<u8>>) -> Seq<u8>
    decreases ids.len(),
{
    if ids.len() == 0 {
        Seq::empty()
    } else {
        packed(ids.drop_last(), m) + ids.last() + m[ids.last()]
    }
}

/// A summary as a CBOR document: one byte string, 64 bytes an entry.
pub open spec fn summary_tree(m: Map<Seq<u8>, Seq<u8>>) -> Cbor {
    Cbor::Bytes(packed(bytemap::ascending(m.dom()), m))
}

/// Read `n` entries of 64 bytes each; `None` where one repeats an id.
pub open spec fn unpacked(buf: Seq<u8>, n: nat) -> Option<Map<Seq<u8>, Seq<u8>>>
    decreases n,
{
    if n == 0 {
        Some(Map::empty())
    } else {
        let at = 64 * (n - 1);
        let id = buf.subrange(at, at + 32);
        match unpacked(buf, (n - 1) as nat) {
            None => None,
            Some(m) => if m.contains_key(id) {
                None
            } else {
                Some(m.insert(id, buf.subrange(at + 32, at + 64)))
            },
        }
    }
}

/// Read a summary out of a document: a whole number of entries, no id twice.
pub open spec fn parse_summary(c: Cbor) -> Option<Map<Seq<u8>, Seq<u8>>> {
    match cbor::as_bytes(c) {
        None => None,
        Some(buf) => if buf.len() % 64 != 0 {
            None
        } else {
            unpacked(buf, (buf.len() / 64) as nat)
        },
    }
}

/// The summary that a byte string holds.
pub open spec fn decoded_summary(raw: Seq<u8>) -> Option<Map<Seq<u8>, Seq<u8>>> {
    match cbor::document(raw) {
        Some(c) => parse_summary(c),
        None => None,
    }
}

// ---------------------------------------------------------------------------
// Records, filed by id.
// ---------------------------------------------------------------------------

/// Records, each filed under its own id, in id order.
#[derive(Debug, PartialEq, Eq)]
pub struct RecordMap {
    map: ByteMap<RecordId, Record>,
}

impl View for RecordMap {
    type V = Map<Seq<u8>, RecordView>;

    closed spec fn view(&self) -> Map<Seq<u8>, RecordView> {
        self.map@.map_values(|r: Record| r@)
    }
}

impl RecordMap {
    #[verifier::type_invariant]
    pub open spec fn inv(&self) -> bool {
        well_formed(self@)
    }

    /// The ids it holds, smallest first.
    pub open spec fn ids(&self) -> Seq<Seq<u8>> {
        bytemap::ascending(self@.dom())
    }

    proof fn same_ids(&self)
        ensures
            self.map.ids() == self.ids(),
            self.map@.dom() == self@.dom(),
    {
        assert(self.map@.dom() =~= self@.dom());
    }

    /// No records.
    pub fn new() -> (r: RecordMap)
        ensures
            r@ == Map::<Seq<u8>, RecordView>::empty(),
    {
        let map: ByteMap<RecordId, Record> = ByteMap::new();
        assert(map@.map_values(|r: Record| r@) =~= Map::<Seq<u8>, RecordView>::empty());
        RecordMap { map }
    }

    /// How many records it holds.
    pub fn len(&self) -> (r: usize)
        ensures
            r == self@.len(),
            r == self.ids().len(),
    {
        proof {
            self.same_ids();
        }
        self.map.len()
    }

    /// Whether it holds none.
    pub fn is_empty(&self) -> (r: bool)
        ensures
            r == (self@.len() == 0),
    {
        self.len() == 0
    }

    /// The `i`-th smallest id.
    pub fn id_at(&self, i: usize) -> (r: &RecordId)
        requires
            i < self.ids().len(),
        ensures
            r@ == self.ids()[i as int],
            self@.contains_key(r@),
    {
        proof {
            self.same_ids();
        }
        self.map.id_at(i)
    }

    /// The record under the `i`-th smallest id.
    pub fn value_at(&self, i: usize) -> (r: &Record)
        requires
            i < self.ids().len(),
        ensures
            r@ == self@[self.ids()[i as int]],
            self@.contains_key(self.ids()[i as int]),
    {
        proof {
            self.same_ids();
        }
        self.map.value_at(i)
    }

    /// The record under an id.
    pub fn get(&self, id: &RecordId) -> (r: Option<&Record>)
        ensures
            match r {
                Some(rec) => self@.contains_key(id@) && self@[id@] == rec@,
                None => !self@.contains_key(id@),
            },
    {
        self.map.get(id.as_slice())
    }

    /// Whether it holds a record with this id.
    pub fn contains_key(&self, id: &RecordId) -> (r: bool)
        ensures
            r == self@.contains_key(id@),
    {
        self.get(id).is_some()
    }

    /// File a record under its id; what stood there before is returned.
    pub fn insert(&mut self, rec: Record) -> (r: Option<Record>)
        ensures
            final(self)@ == old(self)@.insert(rec@.id(), rec@),
            match r {
                Some(held) => old(self)@.contains_key(rec@.id()) && old(self)@[rec@.id()] == held@,
                None => !old(self)@.contains_key(rec@.id()),
            },
    {
        let id = rec.id();
        self.file(id, rec)
    }

    /// File a record whose id is known.
    fn file(&mut self, id: RecordId, rec: Record) -> (r: Option<Record>)
        requires
            id@ == rec@.id(),
        ensures
            final(self)@ == old(self)@.insert(rec@.id(), rec@),
            match r {
                Some(held) => old(self)@.contains_key(rec@.id()) && old(self)@[rec@.id()] == held@,
                None => !old(self)@.contains_key(rec@.id()),
            },
    {
        proof {
            use_type_invariant(&*self);
        }
        let ghost before = self@;
        let ghost value = rec;
        let mut map: ByteMap<RecordId, Record> = ByteMap::new();
        assert(map@.map_values(|r: Record| r@) =~= Map::<Seq<u8>, RecordView>::empty());
        std::mem::swap(&mut map, &mut self.map);
        let prior = map.insert(id, rec);
        proof {
            let after = map@.map_values(|r: Record| r@);
            assert(after =~= before.insert(value@.id(), value@));
            assert(after.dom() =~= before.dom().insert(value@.id()));
        }
        self.map = map;
        prior
    }

    /// The records, in id order.
    pub fn values(&self) -> (r: Vec<&Record>)
        ensures
            r@.len() == listing(self@).len(),
            forall|i: int| 0 <= i < r@.len() ==> (#[trigger] r@[i])@ == listing(self@)[i],
    {
        let mut out: Vec<&Record> = Vec::new();
        let n: usize = self.len();
        let mut i: usize = 0;
        while i < n
            invariant
                i <= n,
                n == self.ids().len(),
                out@.len() == i,
                forall|j: int| 0 <= j < i ==> (#[trigger] out@[j])@ == self@[self.ids()[j]],
            decreases n - i,
        {
            out.push(self.value_at(i));
            i += 1;
        }
        out
    }

    /// The ids, in order.
    pub fn keys(&self) -> (r: Vec<RecordId>)
        ensures
            r@.len() == self.ids().len(),
            forall|i: int| 0 <= i < r@.len() ==> (#[trigger] r@[i])@ == self.ids()[i],
    {
        let mut out: Vec<RecordId> = Vec::new();
        let n: usize = self.len();
        let mut i: usize = 0;
        while i < n
            invariant
                i <= n,
                n == self.ids().len(),
                out@.len() == i,
                forall|j: int| 0 <= j < i ==> (#[trigger] out@[j])@ == self.ids()[j],
            decreases n - i,
        {
            out.push(*self.id_at(i));
            i += 1;
        }
        out
    }
}

impl Clone for RecordMap {
    fn clone(&self) -> (r: RecordMap)
        ensures
            r@ == self@,
    {
        let mut out = RecordMap::new();
        let n: usize = self.len();
        let mut i: usize = 0;
        proof {
            use_type_invariant(self);
            bytemap::ascending_lists(self@.dom());
        }
        while i < n
            invariant
                i <= n,
                n == self.ids().len(),
                well_formed(self@),
                forall|j: int| 0 <= j < n ==> self@.contains_key(#[trigger] self.ids()[j]),
                forall|k: Seq<u8>| #[trigger]
                    out@.contains_key(k) ==> self@.contains_key(k) && out@[k] == self@[k],
                forall|j: int| 0 <= j < i ==> out@.contains_key(#[trigger] self.ids()[j]),
            decreases n - i,
        {
            assert(self@.contains_key(self.ids()[i as int]));
            let _ = out.file(*self.id_at(i), self.value_at(i).clone());
            i += 1;
        }
        assert forall|k: Seq<u8>| self@.contains_key(k) implies #[trigger] out@.contains_key(k) by {
            assert(self@.dom().contains(k));
            let j = choose|j: int| 0 <= j < n && self.ids()[j] == k;
            assert(out@.contains_key(self.ids()[j]));
        }
        assert(out@ =~= self@);
        out
    }
}

// ---------------------------------------------------------------------------
// The state.
// ---------------------------------------------------------------------------

/// One signer's records of one kind at one ply.
pub type Group = (KeyBytes, Kind, u16);

/// The eviction group of a record.
pub fn group_of(rec: &Record) -> (r: Option<Group>)
    ensures
        match r {
            Some(g) => group(rec@) == Some((g.0@, g.1, g.2)),
            None => group(rec@) is None,
        },
{
    match rec.body.ply() {
        Some(ply) => Some((rec.signer, rec.body.kind(), ply)),
        None => None,
    }
}

/// Whether a record belongs to a group.
fn in_group(rec: &Record, g: &Group) -> (r: bool)
    ensures
        r == (group(rec@) == Some((g.0@, g.1, g.2))),
{
    match group_of(rec) {
        Some(h) => h.2 == g.2 && h.1 == g.1 && same_bytes(h.0.as_slice(), g.0.as_slice()),
        None => false,
    }
}

/// The shared state of one game.
#[derive(Debug, PartialEq, Eq)]
pub struct GameState {
    pub records: RecordMap,
}

/// The records one peer sends another.
pub type Delta = Vec<Record>;

impl View for GameState {
    type V = Map<Seq<u8>, RecordView>;

    open spec fn view(&self) -> Map<Seq<u8>, RecordView> {
        self.records@
    }
}

impl Clone for GameState {
    fn clone(&self) -> (r: GameState)
        ensures
            r@ == self@,
    {
        GameState { records: self.records.clone() }
    }
}

impl Default for GameState {
    fn default() -> (r: GameState)
        ensures
            r@ == Map::<Seq<u8>, RecordView>::empty(),
    {
        GameState::empty()
    }
}

/// The ids in the group of a record, its own among them.
pub open spec fn peers(m: Map<Seq<u8>, RecordView>, k: Seq<u8>) -> Set<Seq<u8>> {
    Set::new(|j: Seq<u8>| m.contains_key(j) && group(m[j]) == group(m[k]))
}

/// There are more records in the group of a record than its kind allows.
pub open spec fn crowded(m: Map<Seq<u8>, RecordView>, k: Seq<u8>) -> bool {
    group(m[k]) is Some && peers(m, k).len() > m[k].body.kind().limit()
}

/// Where a group has room for all of its records, each of them is kept.
proof fn roomy(m: Map<Seq<u8>, RecordView>, first: Set<Seq<u8>>, k: Seq<u8>)
    requires
        m.dom().finite(),
        m.contains_key(k),
        !crowded(m, k),
    ensures
        kept(m, first, k),
{
    bytes::lex_irreflexive(k);
    let p = peers(m, k);
    assert(p.subset_of(m.dom()));
    vstd::set_lib::lemma_len_subset(p, m.dom());
    assert(p.contains(k));
    assert(ahead(m, first, k).subset_of(p.remove(k)));
    vstd::set_lib::lemma_len_subset(ahead(m, first, k), p.remove(k));
}

/// As many flags, none of them set.
fn no_flags(n: usize) -> (r: Vec<bool>)
    ensures
        r@.len() == n,
        forall|t: int| 0 <= t < n ==> !(#[trigger] r@[t]),
{
    let mut out: Vec<bool> = Vec::new();
    let mut i: usize = 0;
    while i < n
        invariant
            i <= n,
            out@.len() == i,
            forall|t: int| 0 <= t < i ==> !(#[trigger] out@[t]),
        decreases n - i,
    {
        out.push(false);
        i += 1;
    }
    out
}

/// The ids are of records that the state holds and that verify.
spec fn all_known(
    m: Map<Seq<u8>, RecordView>,
    params: ParamsView,
    known: Seq<RecordId>,
) -> bool {
    forall|t: int|
        0 <= t < known.len() ==> m.contains_key((#[trigger] known[t])@) && m[known[t]@].valid(params)
}

/// Whether an id is in a list of ids.
fn holds_id(list: &Vec<RecordId>, id: &RecordId) -> (r: bool)
    ensures
        r == exists|t: int| 0 <= t < list@.len() && (#[trigger] list@[t])@ == id@,
{
    let mut i: usize = 0;
    while i < list.len()
        invariant
            i <= list.len(),
            forall|t: int| 0 <= t < i ==> (#[trigger] list@[t])@ != id@,
        decreases list.len() - i,
    {
        if same_bytes(list[i].as_slice(), id.as_slice()) {
            assert(list@[i as int]@ == id@);
            return true;
        }
        i += 1;
    }
    false
}

impl GameState {
    /// The state with no records.
    pub fn empty() -> (r: GameState)
        ensures
            r@ == Map::<Seq<u8>, RecordView>::empty(),
    {
        GameState { records: RecordMap::new() }
    }

    /// Offer one record to the state.
    ///
    /// Of two valid records with one id, the one with the smaller signature
    /// stays, whichever came first. A record that does not verify never takes
    /// the place of one that does, however small its signature. Says whether the
    /// record is the one that is held now, and was found to verify.
    fn absorb(&mut self, rec: &Record, params: &GameParams) -> (taken: bool)
        ensures
            final(self)@ == absorbed(old(self)@, rec@, params@),
            taken ==> final(self)@.contains_key(rec@.id()) && final(self)@[rec@.id()].valid(params@),
    {
        let id = rec.id();
        if let Some(held) = self.records.get(&id) {
            // What is held byte for byte needs no second look.
            if same_bytes(held.sig.as_slice(), rec.sig.as_slice()) {
                return false;
            }
        }
        if rec.verify(params) {
            self.absorb_valid(id, rec, params)
        } else {
            false
        }
    }

    /// Offer one record that verifies to the state. Says whether it is the one
    /// that is held now.
    fn absorb_valid(&mut self, id: RecordId, rec: &Record, params: &GameParams) -> (taken: bool)
        requires
            id@ == rec@.id(),
            rec@.valid(params@),
        ensures
            final(self)@ == absorbed(old(self)@, rec@, params@),
            taken ==> final(self)@.contains_key(rec@.id()) && final(self)@[rec@.id()].valid(params@),
    {
        let stays: bool = match self.records.get(&id) {
            Some(held) => {
                proof {
                    bytes::lex_total(held@.sig, rec@.sig);
                }
                same_bytes(held.sig.as_slice(), rec.sig.as_slice()) || (!before(
                    rec.sig.as_slice(),
                    held.sig.as_slice(),
                ) && held.verify(params))
            },
            None => false,
        };
        if !stays {
            let _ = self.records.file(id, rec.clone());
        }
        !stays
    }

    /// How many records are in the group of the `i`-th, and how many of them
    /// rank before it by the flags.
    fn counts(&self, i: usize, g: &Group, flags: &Vec<bool>, first: Ghost<Set<Seq<u8>>>) -> (r: (
        usize,
        usize,
    ))
        requires
            i < self.records.ids().len(),
            flags@.len() == self.records.ids().len(),
            group(self@[self.records.ids()[i as int]]) == Some((g.0@, g.1, g.2)),
            forall|t: int|
                0 <= t < flags@.len() && group(self@[self.records.ids()[t]]) == Some(
                    (g.0@, g.1, g.2),
                ) ==> #[trigger] flags@[t] == first@.contains(self.records.ids()[t]),
        ensures
            r.0 == peers(self@, self.records.ids()[i as int]).len(),
            r.1 == ahead(self@, first@, self.records.ids()[i as int]).len(),
    {
        let ghost m = self@;
        let ghost ids = self.records.ids();
        let ghost k = ids[i as int];
        let ghost lead = first@;
        proof {
            use_type_invariant(&self.records);
            bytemap::ascending_lists(m.dom());
            bytes::lex_irreflexive(k);
        }
        let n: usize = self.records.len();
        let mine: bool = flags[i];
        let mut all: usize = 0;
        let mut found: usize = 0;
        let ghost mut group_seen: Set<Seq<u8>> = Set::empty();
        let ghost mut seen: Set<Seq<u8>> = Set::empty();
        let mut j: usize = 0;
        while j < n
            invariant
                i < n,
                j <= n == ids.len(),
                m == self@,
                ids == self.records.ids(),
                k == ids[i as int],
                lead == first@,
                flags@.len() == n,
                bytemap::is_ascending(ids),
                mine == lead.contains(k),
                group(m[k]) == Some((g.0@, g.1, g.2)),
                forall|t: int| 0 <= t < n ==> m.contains_key(#[trigger] ids[t]),
                forall|t: int|
                    0 <= t < n && group(m[ids[t]]) == Some((g.0@, g.1, g.2)) ==> #[trigger] flags@[t]
                        == lead.contains(ids[t]),
                group_seen.finite(),
                group_seen.len() == all,
                all <= j,
                seen.finite(),
                seen.len() == found,
                found <= all,
                forall|x: Seq<u8>| #[trigger]
                    group_seen.contains(x) <==> exists|t: int|
                        0 <= t < j && ids[t] == x && group(m[ids[t]]) == group(m[k]),
                forall|x: Seq<u8>| #[trigger]
                    seen.contains(x) <==> group_seen.contains(x) && precedes(lead, x, k),
            decreases n - j,
        {
            let ghost prior = group_seen;
            let ghost x = ids[j as int];
            assert(m.contains_key(x));
            if in_group(self.records.value_at(j), g) {
                proof {
                    if prior.contains(x) {
                        let t = choose|t: int|
                            0 <= t < j && ids[t] == x && group(m[ids[t]]) == group(m[k]);
                        assert(bytes::lex_lt(ids[t], ids[j as int]));
                        bytes::lex_irreflexive(x);
                    }
                    group_seen = prior.insert(x);
                }
                all += 1;
                let theirs: bool = flags[j];
                let earlier: bool = if theirs == mine {
                    j < i
                } else {
                    theirs
                };
                proof {
                    assert(theirs == lead.contains(x));
                    bytes::lex_irreflexive(k);
                    if j < i {
                        assert(bytes::lex_lt(ids[j as int], ids[i as int]));
                    } else if i < j {
                        assert(bytes::lex_lt(ids[i as int], ids[j as int]));
                        if bytes::lex_lt(x, k) {
                            bytes::lex_transitive(x, k, x);
                            bytes::lex_irreflexive(x);
                        }
                    }
                    assert(earlier == precedes(lead, x, k));
                }
                if earlier {
                    proof {
                        seen = seen.insert(x);
                    }
                    found += 1;
                }
            }
            proof {
                assert forall|y: Seq<u8>| #[trigger] group_seen.contains(y) <==> exists|t: int|
                    0 <= t < j + 1 && ids[t] == y && group(m[ids[t]]) == group(m[k]) by {
                    if group_seen.contains(y) {
                        if prior.contains(y) {
                            let t = choose|t: int|
                                0 <= t < j && ids[t] == y && group(m[ids[t]]) == group(m[k]);
                            assert(0 <= t < j + 1 && ids[t] == y);
                        } else {
                            assert(ids[j as int] == y);
                        }
                    }
                    if exists|t: int|
                        0 <= t < j + 1 && ids[t] == y && group(m[ids[t]]) == group(m[k]) {
                        let t = choose|t: int|
                            0 <= t < j + 1 && ids[t] == y && group(m[ids[t]]) == group(m[k]);
                        if t < j {
                            assert(prior.contains(y));
                        }
                    }
                }
            }
            j += 1;
        }
        proof {
            let p = peers(m, k);
            assert forall|x: Seq<u8>| #[trigger] group_seen.contains(x) <==> p.contains(x) by {
                if p.contains(x) {
                    assert(m.dom().contains(x));
                    let t = choose|t: int| 0 <= t < ids.len() && ids[t] == x;
                }
            }
            assert(group_seen =~= p);
            assert(seen =~= ahead(m, lead, k));
        }
        (all, found)
    }

    /// Which records of crowded groups verify. Where a group has room for all of
    /// its records nobody asks, and what is known to verify is not asked again.
    fn standing(&self, params: &GameParams, known: &Vec<RecordId>) -> (r: Vec<bool>)
        requires
            all_known(self@, params@, known@),
        ensures
            r@.len() == self.records.ids().len(),
            forall|t: int|
                0 <= t < r@.len() && crowded(self@, self.records.ids()[t]) ==> #[trigger] r@[t]
                    == genuine(self@, params@).contains(self.records.ids()[t]),
    {
        let n: usize = self.records.len();
        let blind: Vec<bool> = no_flags(n);
        let mut out: Vec<bool> = Vec::new();
        let mut i: usize = 0;
        while i < n
            invariant
                i <= n,
                n == self.records.ids().len(),
                all_known(self@, params@, known@),
                blind@.len() == n,
                forall|t: int| 0 <= t < n ==> !(#[trigger] blind@[t]),
                out@.len() == i,
                forall|t: int|
                    0 <= t < i && crowded(self@, self.records.ids()[t]) ==> #[trigger] out@[t]
                        == genuine(self@, params@).contains(self.records.ids()[t]),
            decreases n - i,
        {
            let rec = self.records.value_at(i);
            let full: bool = match group_of(rec) {
                Some(g) => self.counts(i, &g, &blind, Ghost(Set::empty())).0 > rec.body.kind().k(),
                None => false,
            };
            out.push(full && (holds_id(known, self.records.id_at(i)) || rec.verify(params)));
            i += 1;
        }
        out
    }

    /// Keep only the first of each `(signer, kind, ply)` group, as many as the
    /// kind allows, in the order that the flags give.
    fn cut(&mut self, flags: &Vec<bool>, first: Ghost<Set<Seq<u8>>>)
        requires
            flags@.len() == old(self).records.ids().len(),
            forall|t: int|
                0 <= t < flags@.len() && crowded(old(self)@, old(self).records.ids()[t])
                    ==> #[trigger] flags@[t] == first@.contains(old(self).records.ids()[t]),
        ensures
            final(self)@ == topped(old(self)@, first@),
    {
        let ghost m = self@;
        let ghost ids = self.records.ids();
        let ghost lead = first@;
        proof {
            use_type_invariant(&self.records);
            bytemap::ascending_lists(m.dom());
        }
        let blind: Vec<bool> = no_flags(flags.len());
        let n: usize = self.records.len();
        let mut out = RecordMap::new();
        let mut i: usize = 0;
        while i < n
            invariant
                i <= n,
                n == ids.len(),
                m == self@,
                well_formed(m),
                ids == self.records.ids(),
                lead == first@,
                flags@.len() == n,
                blind@.len() == n,
                forall|t: int| 0 <= t < n ==> !(#[trigger] blind@[t]),
                forall|t: int|
                    0 <= t < n && crowded(m, ids[t]) ==> #[trigger] flags@[t] == lead.contains(
                        ids[t],
                    ),
                bytemap::is_ascending(ids),
                forall|j: int| 0 <= j < n ==> m.contains_key(#[trigger] ids[j]),
                forall|k: Seq<u8>| #[trigger]
                    out@.contains_key(k) ==> kept(m, lead, k) && out@[k] == m[k],
                forall|j: int|
                    0 <= j < n && j < i && kept(m, lead, ids[j]) ==> out@.contains_key(
                        #[trigger] ids[j],
                    ),
            decreases n - i,
        {
            let ghost k = ids[i as int];
            assert(m.contains_key(k));
            let rec = self.records.value_at(i);
            let limit: usize = rec.body.kind().k();
            let stays: bool = match group_of(rec) {
                None => true,
                Some(g) => {
                    let all: usize = self.counts(i, &g, &blind, Ghost(Set::empty())).0;
                    if all <= limit {
                        proof {
                            roomy(m, lead, k);
                        }
                        true
                    } else {
                        proof {
                            assert forall|t: int|
                                0 <= t < n && group(m[ids[t]]) == Some(
                                    (g.0@, g.1, g.2),
                                ) implies #[trigger] flags@[t] == lead.contains(ids[t]) by {
                                assert(peers(m, ids[t]) =~= peers(m, k));
                                assert(m[ids[t]].body.kind() == m[k].body.kind());
                                assert(crowded(m, ids[t]));
                            }
                        }
                        self.counts(i, &g, flags, Ghost(lead)).1 < limit
                    }
                },
            };
            assert(stays == kept(m, lead, k));
            if stays {
                let _ = out.file(*self.records.id_at(i), self.records.value_at(i).clone());
            }
            i += 1;
        }
        assert forall|k: Seq<u8>| kept(m, lead, k) implies #[trigger] out@.contains_key(k) by {
            assert(m.dom().contains(k));
            let j = choose|j: int| 0 <= j < n && ids[j] == k;
            assert(out@.contains_key(ids[j]));
        }
        assert(out@ =~= topped(m, lead));
        self.records = out;
    }

    /// Keep only the smallest ids of each `(signer, kind, ply)` group, as many
    /// as the kind allows.
    ///
    /// Eviction is blind to chess: it sorts by id, so every peer that holds the
    /// same records evicts the same ones.
    pub fn evict(&mut self)
        ensures
            final(self)@ == evicted(old(self)@),
    {
        let flags: Vec<bool> = no_flags(self.records.len());
        self.cut(&flags, Ghost(Set::empty()));
    }

    /// Cut each group down to size, records that verify before those that do
    /// not. Of a valid state this evicts what [`GameState::evict`] does.
    fn trim(&mut self, params: &GameParams, known: &Vec<RecordId>)
        requires
            all_known(old(self)@, params@, known@),
        ensures
            final(self)@ == trimmed(old(self)@, params@),
    {
        let flags: Vec<bool> = self.standing(params, known);
        self.cut(&flags, Ghost(genuine(self@, params@)));
    }

    /// Merge another state into this one. On valid states the operation is
    /// associative, commutative and idempotent, with the empty state as
    /// identity.
    pub fn merge(&mut self, other: &GameState, params: &GameParams)
        ensures
            final(self)@ == merge_of(old(self)@, other@, params@),
    {
        let ghost a = self@;
        let ghost b = other@;
        let ghost ids = other.records.ids();
        proof {
            use_type_invariant(&self.records);
            use_type_invariant(&other.records);
            bytemap::ascending_lists(b.dom());
        }
        let n: usize = other.records.len();
        let mut known: Vec<RecordId> = Vec::new();
        let mut i: usize = 0;
        assert(self@ =~= joined(a, b.restrict(ids.take(0).to_set()), params@));
        while i < n
            invariant
                i <= n,
                n == ids.len(),
                b == other@,
                well_formed(b),
                ids == other.records.ids(),
                bytemap::is_ascending(ids),
                forall|j: int| 0 <= j < n ==> b.contains_key(#[trigger] ids[j]),
                self@ == joined(a, b.restrict(ids.take(i as int).to_set()), params@),
                all_known(self@, params@, known@),
            decreases n - i,
        {
            let ghost k = ids[i as int];
            let ghost part = b.restrict(ids.take(i as int).to_set());
            let ghost next = b.restrict(ids.take(i + 1).to_set());
            if self.absorb(other.records.value_at(i), params) {
                known.push(*other.records.id_at(i));
            }
            proof {
                assert(b.contains_key(k));
                assert(!ids.take(i as int).contains(k)) by {
                    if ids.take(i as int).contains(k) {
                        let t = ids.take(i as int).index_of(k);
                        assert(ids[t] == k);
                        assert(bytes::lex_lt(ids[t], ids[i as int]));
                        bytes::lex_irreflexive(k);
                    }
                }
                assert forall|x: Seq<u8>|
                    #![trigger next.contains_key(x)]
                    #![trigger part.contains_key(x)]
                    next.contains_key(x) == (part.contains_key(x) || x == k) by {
                    assert(ids.take(i + 1) =~= ids.take(i as int).push(k));
                    if ids.take(i + 1).contains(x) && x != k {
                        let t = ids.take(i + 1).index_of(x);
                        assert(ids.take(i as int)[t] == x);
                    }
                    if ids.take(i as int).contains(x) {
                        let t = ids.take(i as int).index_of(x);
                        assert(ids.take(i + 1)[t] == x);
                    }
                    assert(ids.take(i + 1)[i as int] == k);
                }
                assert(self@ =~= joined(a, next, params@));
            }
            i += 1;
        }
        proof {
            let all = b.restrict(ids.take(n as int).to_set());
            assert(ids.take(n as int) =~= ids);
            assert forall|x: Seq<u8>| b.contains_key(x) implies #[trigger] all.contains_key(x) by {
                assert(b.dom().contains(x));
                let t = choose|t: int| 0 <= t < ids.len() && ids[t] == x;
                assert(ids.contains(x));
            }
            assert(all =~= b);
        }
        self.trim(params, &known);
    }

    /// The merge of two states.
    pub fn merged(&self, other: &GameState, params: &GameParams) -> (r: GameState)
        ensures
            r@ == merge_of(self@, other@, params@),
    {
        let mut out = self.clone();
        out.merge(other, params);
        out
    }

    /// Admit a single record from an untrusted source. Says whether the record
    /// verifies.
    pub fn insert_verified(&mut self, rec: &Record, params: &GameParams) -> (r: bool)
        ensures
            final(self)@ == trimmed(absorbed(old(self)@, rec@, params@), params@),
            r == rec@.valid(params@),
    {
        let valid: bool = rec.verify(params);
        let mut known: Vec<RecordId> = Vec::new();
        if valid && self.absorb_valid(rec.id(), rec, params) {
            known.push(rec.id());
        }
        self.trim(params, &known);
        valid
    }

    /// Drop anything not signed by one of the two players, and evict.
    pub fn filter_valid(&self, params: &GameParams) -> (r: GameState)
        ensures
            r@ == merge_of(Map::<Seq<u8>, RecordView>::empty(), self@, params@),
    {
        let mut out = GameState::empty();
        out.merge(self, params);
        out
    }

    /// Whether every record verifies.
    pub fn all_valid(&self, params: &GameParams) -> (r: bool)
        ensures
            r == valid_state(self@, params@),
    {
        let ghost ids = self.records.ids();
        proof {
            use_type_invariant(&self.records);
            bytemap::ascending_lists(self@.dom());
        }
        let n: usize = self.records.len();
        let mut i: usize = 0;
        while i < n
            invariant
                i <= n,
                n == ids.len(),
                ids == self.records.ids(),
                forall|j: int| 0 <= j < i ==> self@[#[trigger] ids[j]].valid(params@),
            decreases n - i,
        {
            if !self.records.value_at(i).verify(params) {
                assert(self@.contains_key(ids[i as int]));
                return false;
            }
            i += 1;
        }
        assert forall|k: Seq<u8>| #[trigger] self@.contains_key(k) implies self@[k].valid(
            params@,
        ) by {
            assert(self@.dom().contains(k));
            let j = choose|j: int| 0 <= j < ids.len() && ids[j] == k;
            assert(self@[ids[j]].valid(params@));
        }
        true
    }

    /// What this peer holds: each id with the digest of its signature.
    pub fn summarize(&self) -> (r: Summary)
        ensures
            r@ == summary_of(self@),
    {
        let ghost ids = self.records.ids();
        let ghost target = summary_of(self@);
        proof {
            use_type_invariant(&self.records);
            bytemap::ascending_lists(self@.dom());
        }
        let n: usize = self.records.len();
        let mut out = Summary::new();
        let mut i: usize = 0;
        while i < n
            invariant
                i <= n,
                n == ids.len(),
                ids == self.records.ids(),
                target == summary_of(self@),
                forall|j: int| 0 <= j < n ==> self@.contains_key(#[trigger] ids[j]),
                forall|k: Seq<u8>| #[trigger]
                    out@.contains_key(k) ==> target.contains_key(k) && out@[k] == target[k],
                forall|j: int| 0 <= j < i ==> out@.contains_key(#[trigger] ids[j]),
            decreases n - i,
        {
            assert(self@.contains_key(ids[i as int]));
            let digest = self.records.value_at(i).sig_digest();
            let _ = out.insert(*self.records.id_at(i), digest);
            i += 1;
        }
        assert forall|k: Seq<u8>| target.contains_key(k) implies #[trigger] out@.contains_key(k) by {
            assert(self@.dom().contains(k));
            let j = choose|j: int| 0 <= j < n && ids[j] == k;
            assert(out@.contains_key(ids[j]));
        }
        assert(out@ =~= target);
        out
    }

    /// The records the other peer is missing, or holds under a different
    /// signature, in id order.
    pub fn delta_against(&self, summary: &Summary) -> (r: Delta)
        ensures
            views(r@) == listing(lacking(self@, summary@)),
    {
        let ghost ids = self.records.ids();
        let ghost m = self@;
        let ghost want = lacking(m, summary@);
        proof {
            use_type_invariant(&self.records);
            bytemap::ascending_lists(m.dom());
        }
        let n: usize = self.records.len();
        let mut out: Vec<Record> = Vec::new();
        let ghost mut at: Seq<Seq<u8>> = Seq::empty();
        let mut i: usize = 0;
        while i < n
            invariant
                i <= n,
                n == ids.len(),
                ids == self.records.ids(),
                m == self@,
                want == lacking(m, summary@),
                bytemap::is_ascending(ids),
                forall|j: int| 0 <= j < n ==> m.contains_key(#[trigger] ids[j]),
                bytemap::is_ascending(at),
                out@.len() == at.len(),
                forall|j: int| 0 <= j < at.len() ==> want.contains_key(#[trigger] at[j]),
                forall|j: int| 0 <= j < at.len() ==> (#[trigger] out@[j])@ == m[at[j]],
                forall|j: int|
                    0 <= j < at.len() ==> exists|t: int| 0 <= t < i && ids[t] == #[trigger] at[j],
                forall|j: int|
                    0 <= j < i && want.contains_key(#[trigger] ids[j]) ==> at.contains(ids[j]),
            decreases n - i,
        {
            let id = self.records.id_at(i);
            let rec = self.records.value_at(i);
            let ghost k = ids[i as int];
            assert(m.contains_key(k));
            let digest = rec.sig_digest();
            let known: bool = match summary.get(id) {
                Some(d) => same_bytes(d.as_slice(), digest.as_slice()),
                None => false,
            };
            let ghost prior = at;
            if !known {
                out.push(rec.clone());
                proof {
                    at = prior.push(k);
                    assert forall|a: int, b: int| 0 <= a < b < at.len() implies bytes::lex_lt(
                        #[trigger] at[a],
                        #[trigger] at[b],
                    ) by {
                        if b == prior.len() {
                            assert(at[a] == prior[a]);
                            let t = choose|t: int| 0 <= t < i && ids[t] == prior[a];
                            assert(bytes::lex_lt(ids[t], ids[i as int]));
                        }
                    }
                    assert(at[prior.len() as int] == k);
                }
            }
            proof {
                assert forall|j: int| 0 <= j < at.len() implies exists|t: int|
                    0 <= t < i + 1 && ids[t] == #[trigger] at[j] by {
                    if j < prior.len() {
                        assert(at[j] == prior[j]);
                        let t = choose|t: int| 0 <= t < i && ids[t] == prior[j];
                        assert(0 <= t < i + 1 && ids[t] == at[j]);
                    } else {
                        assert(ids[i as int] == at[j]);
                    }
                }
                assert forall|j: int|
                    0 <= j < i + 1 && want.contains_key(#[trigger] ids[j]) implies at.contains(
                    ids[j],
                ) by {
                    if j < i {
                        let t = prior.index_of(ids[j]);
                        assert(prior.contains(ids[j]));
                        assert(at[t] == ids[j]);
                    } else {
                        assert(at[prior.len() as int] == k);
                    }
                }
            }
            i += 1;
        }
        proof {
            assert forall|x: Seq<u8>| #[trigger] want.dom().contains(x) implies exists|t: int|
                0 <= t < at.len() && at[t] == x by {
                assert(m.dom().contains(x));
                let j = choose|j: int| 0 <= j < ids.len() && ids[j] == x;
                assert(at.contains(ids[j]));
            }
            assert forall|j: int| 0 <= j < at.len() implies want.dom().contains(
                #[trigger] at[j],
            ) by {
                assert(want.contains_key(at[j]));
            }
            bytemap::ascending_unique(at, want.dom());
            assert(views(out@) =~= listing(want));
        }
        out
    }

    /// Take in the records another peer sent.
    pub fn apply_delta(&mut self, delta: &Delta, params: &GameParams)
        ensures
            final(self)@ == trimmed(
                absorbed_all(old(self)@, views(delta@), params@),
                params@,
            ),
    {
        let ghost a = self@;
        let ghost list = views(delta@);
        let mut known: Vec<RecordId> = Vec::new();
        let mut i: usize = 0;
        while i < delta.len()
            invariant
                i <= delta.len(),
                list == views(delta@),
                self@ == absorbed_all(a, list.take(i as int), params@),
                all_known(self@, params@, known@),
            decreases delta.len() - i,
        {
            if self.absorb(&delta[i], params) {
                known.push(delta[i].id());
            }
            assert(list.take(i + 1).drop_last() =~= list.take(i as int));
            assert(list.take(i + 1).last() == delta@[i as int]@);
            i += 1;
        }
        assert(list.take(i as int) =~= list);
        self.trim(params, &known);
    }

    /// How many records the state holds.
    pub fn len(&self) -> (r: usize)
        ensures
            r == self@.len(),
    {
        self.records.len()
    }

    /// Whether the state holds no records.
    pub fn is_empty(&self) -> (r: bool)
        ensures
            r == (self@.len() == 0),
    {
        self.records.is_empty()
    }

    /// Files a record without verifying it, to build the malformed states that
    /// can arrive over the wire.
    pub fn absorb_for_test(&mut self, rec: &Record)
        ensures
            final(self)@ == old(self)@.insert(rec@.id(), rec@),
    {
        let _ = self.records.insert(rec.clone());
    }

    /// The state as a CBOR document.
    pub fn to_item(&self) -> (r: Item)
        ensures
            r@ == state_tree(self@),
    {
        let ghost list = listing(self@);
        let n: usize = self.records.len();
        let mut out: Vec<Item> = Vec::new();
        let mut i: usize = 0;
        while i < n
            invariant
                i <= n,
                n == self.records.ids().len(),
                list == listing(self@),
                cbor::item_trees(out@) == list.take(i as int).map_values(
                    |r: RecordView| r.tree(),
                ),
            decreases n - i,
        {
            let ghost prior = out@;
            out.push(self.records.value_at(i).to_item());
            assert(out@.drop_last() =~= prior);
            assert(list.take(i + 1).map_values(|r: RecordView| r.tree()) =~= list.take(
                i as int,
            ).map_values(|r: RecordView| r.tree()).push(list[i as int].tree()));
            i += 1;
        }
        assert(list.take(n as int) =~= list);
        Item::Array(out)
    }

    /// Read a state out of a CBOR document.
    pub fn from_item(item: &Item) -> (r: Option<GameState>)
        ensures
            match r {
                Some(st) => parse_state(item@) == Some(st@),
                None => parse_state(item@) is None,
            },
    {
        let list = match read_list(item) {
            Some(list) => list,
            None => return None,
        };
        let ghost all = views(list@);
        let mut records = RecordMap::new();
        let mut i: usize = 0;
        while i < list.len()
            invariant
                i <= list.len(),
                all == views(list@),
                parse_list(item@) == Some(all),
                filed(all.take(i as int)) == Some(records@),
            decreases list.len() - i,
        {
            assert(all.take(i + 1).drop_last() =~= all.take(i as int));
            assert(all.take(i + 1).last() == list@[i as int]@);
            if records.insert(list[i].clone()).is_some() {
                proof {
                    filed_prefix(all, i + 1);
                }
                return None;
            }
            i += 1;
        }
        assert(all.take(i as int) =~= all);
        Some(GameState { records })
    }

    /// The bytes of the state. Peers that hold the same records write the same
    /// bytes, and the bytes read back as the same records.
    pub fn encode(&self) -> (r: Vec<u8>)
        ensures
            r@ == cbor::cbor_bytes(state_tree(self@)),
            decoded_state(r@) == Some(self@),
            r@.len() > 0,
    {
        proof {
            use_type_invariant(&self.records);
            state_reads_back(self@);
        }
        cbor::write(self.to_item())
    }

    /// Read a state; `None` where the bytes are malformed or repeat an id.
    pub fn decode(raw: &[u8]) -> (r: Option<GameState>)
        ensures
            match r {
                Some(st) => decoded_state(raw@) == Some(st@),
                None => decoded_state(raw@) is None,
            },
    {
        match cbor::read(raw) {
            Some(item) => GameState::from_item(&item),
            None => None,
        }
    }
}

/// Where a beginning of a list repeats an id, so does the list.
proof fn filed_prefix(list: Seq<RecordView>, n: int)
    requires
        0 <= n <= list.len(),
        filed(list.take(n)) is None,
    ensures
        filed(list) is None,
    decreases list.len(),
{
    if n == list.len() {
        assert(list.take(n) =~= list);
    } else {
        assert(list.drop_last().take(n) =~= list.take(n));
        filed_prefix(list.drop_last(), n);
    }
}

/// Filing the records of a state in id order gives the state.
proof fn listing_files(m: Map<Seq<u8>, RecordView>)
    requires
        well_formed(m),
    ensures
        filed(listing(m)) == Some(m),
{
    let ids = bytemap::ascending(m.dom());
    bytemap::ascending_lists(m.dom());
    let list = listing(m);
    listing_files_to(m, list.len() as int);
    assert(list.take(list.len() as int) =~= list);
    let part = m.restrict(ids.take(list.len() as int).to_set());
    assert(ids.take(list.len() as int) =~= ids);
    assert forall|k: Seq<u8>| m.contains_key(k) implies #[trigger] part.contains_key(k) by {
        assert(m.dom().contains(k));
        let j = choose|j: int| 0 <= j < ids.len() && ids[j] == k;
        assert(ids.contains(k));
    }
    assert(part =~= m);
}

proof fn listing_files_to(m: Map<Seq<u8>, RecordView>, n: int)
    requires
        well_formed(m),
        0 <= n <= listing(m).len(),
    ensures
        filed(listing(m).take(n)) == Some(
            m.restrict(bytemap::ascending(m.dom()).take(n).to_set()),
        ),
    decreases n,
{
    let ids = bytemap::ascending(m.dom());
    let list = listing(m);
    bytemap::ascending_lists(m.dom());
    if n == 0 {
        assert(m.restrict(ids.take(0).to_set()) =~= Map::empty());
    } else {
        listing_files_to(m, n - 1);
        let k = ids[n - 1];
        let part = m.restrict(ids.take(n - 1).to_set());
        let next = m.restrict(ids.take(n).to_set());
        assert(list.take(n).drop_last() =~= list.take(n - 1));
        assert(list.take(n).last() == m[k]);
        assert(m.dom().contains(k));
        assert(m.contains_key(k));
        assert(!part.contains_key(k)) by {
            if ids.take(n - 1).contains(k) {
                let t = ids.take(n - 1).index_of(k);
                assert(bytes::lex_lt(ids[t], ids[n - 1]));
                bytes::lex_irreflexive(k);
            }
        }
        assert forall|x: Seq<u8>| #[trigger] next.contains_key(x) == part.insert(
            k,
            m[k],
        ).contains_key(x) by {
            assert(ids.take(n) =~= ids.take(n - 1).push(k));
            if ids.take(n).contains(x) && x != k {
                let t = ids.take(n).index_of(x);
                assert(ids.take(n - 1)[t] == x);
            }
            if ids.take(n - 1).contains(x) {
                let t = ids.take(n - 1).index_of(x);
                assert(ids.take(n)[t] == x);
            }
            assert(ids.take(n)[n - 1] == k);
        }
        assert(next =~= part.insert(k, m[k]));
    }
}

/// A list of records reads back from its document.
pub proof fn list_reads_back(list: Seq<RecordView>)
    requires
        forall|i: int| 0 <= i < list.len() ==> (#[trigger] list[i]).sized(),
    ensures
        parse_list(list_tree(list)) == Some(list),
        cbor::writable(list_tree(list)),
{
    let s = list.map_values(|r: RecordView| r.tree());
    assert forall|i: int| 0 <= i < s.len() implies types::parse_record(#[trigger] s[i]) == Some(
        list[i],
    ) && cbor::plain(s[i], 7) by {
        types::record_reads_back(list[i]);
        types::record_tree_plain(list[i]);
        cbor::plain_deeper(s[i], 3, 7);
    }
    assert(parse_list(list_tree(list))->0 =~= list);
}

/// A state reads back from its document.
pub proof fn state_reads_back(m: Map<Seq<u8>, RecordView>)
    requires
        well_formed(m),
    ensures
        parse_state(state_tree(m)) == Some(m),
        cbor::writable(state_tree(m)),
{
    bytemap::ascending_lists(m.dom());
    let ids = bytemap::ascending(m.dom());
    let list = listing(m);
    assert forall|i: int| 0 <= i < list.len() implies (#[trigger] list[i]).sized() by {
        assert(m.dom().contains(ids[i]));
        assert(m.contains_key(ids[i]));
    }
    list_reads_back(list);
    listing_files(m);
}

/// Read a list of records out of a CBOR document.
fn read_list(item: &Item) -> (r: Option<Vec<Record>>)
    ensures
        match r {
            Some(list) => parse_list(item@) == Some(views(list@)),
            None => parse_list(item@) is None,
        },
{
    if cbor::is_empty_string(item) {
        let none: Vec<Record> = Vec::new();
        assert(views(none@) =~= Seq::empty());
        return Some(none);
    }
    let a = match cbor::array_of(item) {
        Some(a) => a,
        None => return None,
    };
    let ghost s = cbor::item_trees(a@);
    proof {
        cbor::item_trees_index(a@);
    }
    let mut out: Vec<Record> = Vec::new();
    let mut i: usize = 0;
    while i < a.len()
        invariant
            i <= a.len(),
            s == cbor::item_trees(a@),
            s.len() == a.len(),
            forall|j: int| 0 <= j < s.len() ==> #[trigger] s[j] == a@[j]@,
            cbor::as_list(item@) == Some(s),
            out@.len() == i,
            forall|j: int| 0 <= j < i ==> types::parse_record(#[trigger] s[j]) == Some(out@[j]@),
        decreases a.len() - i,
    {
        match Record::from_item(&a[i]) {
            Some(rec) => out.push(rec),
            None => {
                assert(types::parse_record(s[i as int]) is None);
                return None;
            },
        }
        i += 1;
    }
    assert(parse_list(item@)->0 =~= views(out@));
    Some(out)
}

/// The bytes of a delta. They read back as the same records.
pub fn encode_delta(delta: &Delta) -> (r: Vec<u8>)
    ensures
        r@ == cbor::cbor_bytes(list_tree(views(delta@))),
        decoded_list(r@) == Some(views(delta@)),
        r@.len() > 0,
{
    let ghost list = views(delta@);
    let mut out: Vec<Item> = Vec::new();
    let mut i: usize = 0;
    while i < delta.len()
        invariant
            i <= delta.len(),
            list == views(delta@),
            cbor::item_trees(out@) == list.take(i as int).map_values(|r: RecordView| r.tree()),
        decreases delta.len() - i,
    {
        let ghost prior = out@;
        out.push(delta[i].to_item());
        assert(out@.drop_last() =~= prior);
        assert(list.take(i + 1).map_values(|r: RecordView| r.tree()) =~= list.take(
            i as int,
        ).map_values(|r: RecordView| r.tree()).push(list[i as int].tree()));
        i += 1;
    }
    assert(list.take(i as int) =~= list);
    proof {
        list_reads_back(list);
    }
    cbor::write(Item::Array(out))
}

/// Read a delta; `None` where the bytes are malformed.
pub fn decode_delta(raw: &[u8]) -> (r: Option<Delta>)
    ensures
        match r {
            Some(list) => decoded_list(raw@) == Some(views(list@)),
            None => decoded_list(raw@) is None,
        },
{
    match cbor::read(raw) {
        Some(item) => read_list(&item),
        None => None,
    }
}

// ---------------------------------------------------------------------------
// Summaries.
// ---------------------------------------------------------------------------

/// SHA-256 of a record's signature bytes; see [`Record::sig_digest`].
pub type SigDigest = [u8; 32];

/// What a peer holds, exactly: each record id with a digest of the signature
/// held for it. Ids leave the signature out, so the id alone would not tell
/// two peers apart that hold different signatures over one statement.
#[derive(Debug, PartialEq, Eq)]
pub struct Summary {
    map: ByteMap<RecordId, SigDigest>,
}

impl View for Summary {
    type V = Map<Seq<u8>, Seq<u8>>;

    closed spec fn view(&self) -> Map<Seq<u8>, Seq<u8>> {
        self.map@.map_values(|d: SigDigest| d@)
    }
}

/// Ids and digests are 32 bytes each.
pub open spec fn summary_sized(m: Map<Seq<u8>, Seq<u8>>) -> bool {
    &&& m.dom().finite()
    &&& forall|k: Seq<u8>| #[trigger] m.contains_key(k) ==> k.len() == 32 && m[k].len() == 32
}

impl Default for Summary {
    fn default() -> (r: Summary)
        ensures
            r@ == Map::<Seq<u8>, Seq<u8>>::empty(),
    {
        Summary::new()
    }
}

impl Summary {
    #[verifier::type_invariant]
    pub open spec fn inv(&self) -> bool {
        summary_sized(self@)
    }

    proof fn same_ids(&self)
        ensures
            self.map.ids() == bytemap::ascending(self@.dom()),
            self.map@.dom() == self@.dom(),
    {
        assert(self.map@.dom() =~= self@.dom());
    }

    /// The summary of nothing.
    pub fn new() -> (r: Summary)
        ensures
            r@ == Map::<Seq<u8>, Seq<u8>>::empty(),
    {
        let map: ByteMap<RecordId, SigDigest> = ByteMap::new();
        assert(map@.map_values(|d: SigDigest| d@) =~= Map::<Seq<u8>, Seq<u8>>::empty());
        Summary { map }
    }

    /// Put one entry in; the digest that stood there before is returned.
    pub fn insert(&mut self, id: RecordId, digest: SigDigest) -> (r: Option<SigDigest>)
        ensures
            final(self)@ == old(self)@.insert(id@, digest@),
            match r {
                Some(d) => old(self)@.contains_key(id@) && old(self)@[id@] == d@,
                None => !old(self)@.contains_key(id@),
            },
    {
        proof {
            use_type_invariant(&*self);
        }
        let ghost before = self@;
        let mut map: ByteMap<RecordId, SigDigest> = ByteMap::new();
        assert(map@.map_values(|d: SigDigest| d@) =~= Map::<Seq<u8>, Seq<u8>>::empty());
        std::mem::swap(&mut map, &mut self.map);
        let prior = map.insert(id, digest);
        proof {
            let after = map@.map_values(|d: SigDigest| d@);
            assert(after =~= before.insert(id@, digest@));
            assert(after.dom() =~= before.dom().insert(id@));
        }
        self.map = map;
        prior
    }

    /// The digest under an id.
    pub fn get(&self, id: &RecordId) -> (r: Option<&SigDigest>)
        ensures
            match r {
                Some(d) => self@.contains_key(id@) && self@[id@] == d@,
                None => !self@.contains_key(id@),
            },
    {
        self.map.get(id.as_slice())
    }

    /// Whether the summary has an entry for an id.
    pub fn contains_key(&self, id: &RecordId) -> (r: bool)
        ensures
            r == self@.contains_key(id@),
    {
        self.get(id).is_some()
    }

    /// How many entries it has.
    pub fn len(&self) -> (r: usize)
        ensures
            r == self@.len(),
    {
        proof {
            self.same_ids();
        }
        self.map.len()
    }

    /// Whether it has no entries.
    pub fn is_empty(&self) -> (r: bool)
        ensures
            r == (self@.len() == 0),
    {
        self.len() == 0
    }

    /// The entries one after another in id order, 64 bytes each.
    pub fn pack(&self) -> (r: Vec<u8>)
        ensures
            r@ == packed(bytemap::ascending(self@.dom()), self@),
    {
        let ghost ids = bytemap::ascending(self@.dom());
        proof {
            self.same_ids();
        }
        let n: usize = self.map.len();
        let mut out: Vec<u8> = Vec::new();
        let mut i: usize = 0;
        while i < n
            invariant
                i <= n,
                n == ids.len(),
                ids == self.map.ids(),
                self.map@.dom() == self@.dom(),
                out@ == packed(ids.take(i as int), self@),
            decreases n - i,
        {
            append_bytes(&mut out, self.map.id_at(i).as_slice());
            append_bytes(&mut out, self.map.value_at(i).as_slice());
            assert(ids.take(i + 1).drop_last() =~= ids.take(i as int));
            i += 1;
        }
        assert(ids.take(n as int) =~= ids);
        out
    }

    /// Read packed entries: a whole number of them, no id twice.
    pub fn unpack(buf: &[u8]) -> (r: Option<Summary>)
        ensures
            match r {
                Some(s) => buf@.len() % 64 == 0 && unpacked(buf@, (buf@.len() / 64) as nat)
                    == Some(s@),
                None => buf@.len() % 64 != 0 || unpacked(buf@, (buf@.len() / 64) as nat) is None,
            },
    {
        if buf.len() % 64 != 0 {
            return None;
        }
        let n: usize = buf.len() / 64;
        let mut out = Summary::new();
        let mut i: usize = 0;
        while i < n
            invariant
                i <= n,
                n == buf@.len() / 64,
                buf@.len() == 64 * n,
                buf@.len() <= usize::MAX,
                unpacked(buf@, i as nat) == Some(out@),
            decreases n - i,
        {
            let at: usize = 64 * i;
            let id_bytes = sub_bytes(buf, at, at + 32);
            let digest_bytes = sub_bytes(buf, at + 32, at + 64);
            match (array32(id_bytes.as_slice()), array32(digest_bytes.as_slice())) {
                (Some(id), Some(digest)) => {
                    if out.insert(id, digest).is_some() {
                        proof {
                            unpacked_prefix(buf@, (i + 1) as nat, n as nat);
                        }
                        return None;
                    }
                },
                _ => {
                    assert(false);
                },
            }
            i += 1;
        }
        Some(out)
    }

    /// The summary as bytes: one CBOR byte string. It reads back as the same
    /// summary.
    pub fn encode(&self) -> (r: Vec<u8>)
        ensures
            r@ == cbor::cbor_bytes(summary_tree(self@)),
            decoded_summary(r@) == Some(self@),
            r@.len() > 0,
    {
        proof {
            use_type_invariant(self);
            summary_reads_back(self@);
        }
        cbor::write(Item::Bytes(self.pack()))
    }

    /// Read a summary; `None` where the bytes are malformed.
    pub fn decode(raw: &[u8]) -> (r: Option<Summary>)
        ensures
            match r {
                Some(s) => decoded_summary(raw@) == Some(s@),
                None => decoded_summary(raw@) is None,
            },
    {
        match cbor::read(raw) {
            Some(item) => match cbor::bytes_of(&item) {
                Some(buf) => Summary::unpack(buf.as_slice()),
                None => None,
            },
            None => None,
        }
    }
}

/// Where the first entries repeat an id, so do all of them.
proof fn unpacked_prefix(buf: Seq<u8>, small: nat, large: nat)
    requires
        small <= large,
        unpacked(buf, small) is None,
    ensures
        unpacked(buf, large) is None,
    decreases large,
{
    if small < large {
        unpacked_prefix(buf, small, (large - 1) as nat);
    }
}

/// A packed summary is 64 bytes an entry.
pub proof fn packed_len(ids: Seq<Seq<u8>>, m: Map<Seq<u8>, Seq<u8>>)
    requires
        summary_sized(m),
        forall|i: int| 0 <= i < ids.len() ==> m.contains_key(#[trigger] ids[i]),
    ensures
        packed(ids, m).len() == 64 * ids.len(),
    decreases ids.len(),
{
    if ids.len() > 0 {
        assert(m.contains_key(ids[ids.len() - 1]));
        packed_len(ids.drop_last(), m);
    }
}

proof fn unpacks(ids: Seq<Seq<u8>>, m: Map<Seq<u8>, Seq<u8>>, buf: Seq<u8>, n: int)
    requires
        summary_sized(m),
        bytemap::is_ascending(ids),
        forall|i: int| 0 <= i < ids.len() ==> m.contains_key(#[trigger] ids[i]),
        buf == packed(ids, m),
        0 <= n <= ids.len(),
    ensures
        unpacked(buf, n as nat) == Some(m.restrict(ids.take(n).to_set())),
    decreases n,
{
    if n == 0 {
        assert(m.restrict(ids.take(0).to_set()) =~= Map::empty());
    } else {
        unpacks(ids, m, buf, n - 1);
        let k = ids[n - 1];
        let part = m.restrict(ids.take(n - 1).to_set());
        let next = m.restrict(ids.take(n).to_set());
        packed_at(ids, m, n - 1);
        assert(m.contains_key(k));
        assert(!part.contains_key(k)) by {
            if ids.take(n - 1).contains(k) {
                let t = ids.take(n - 1).index_of(k);
                assert(bytes::lex_lt(ids[t], ids[n - 1]));
                bytes::lex_irreflexive(k);
            }
        }
        assert forall|x: Seq<u8>| #[trigger] next.contains_key(x) == part.insert(
            k,
            m[k],
        ).contains_key(x) by {
            assert(ids.take(n) =~= ids.take(n - 1).push(k));
            if ids.take(n).contains(x) && x != k {
                let t = ids.take(n).index_of(x);
                assert(ids.take(n - 1)[t] == x);
            }
            if ids.take(n - 1).contains(x) {
                let t = ids.take(n - 1).index_of(x);
                assert(ids.take(n)[t] == x);
            }
            assert(ids.take(n)[n - 1] == k);
        }
        assert(next =~= part.insert(k, m[k]));
    }
}

/// Where the `i`-th entry of a packed summary stands.
proof fn packed_at(ids: Seq<Seq<u8>>, m: Map<Seq<u8>, Seq<u8>>, i: int)
    requires
        summary_sized(m),
        forall|j: int| 0 <= j < ids.len() ==> m.contains_key(#[trigger] ids[j]),
        0 <= i < ids.len(),
    ensures
        packed(ids, m).subrange(64 * i, 64 * i + 32) == ids[i],
        packed(ids, m).subrange(64 * i + 32, 64 * i + 64) == m[ids[i]],
    decreases ids.len(),
{
    let front = ids.drop_last();
    packed_len(ids, m);
    packed_len(front, m);
    let whole = packed(ids, m);
    let start = packed(front, m);
    assert(m.contains_key(ids[ids.len() - 1]));
    if i == ids.len() - 1 {
        assert(whole.subrange(64 * i, 64 * i + 32) =~= ids[i]);
        assert(whole.subrange(64 * i + 32, 64 * i + 64) =~= m[ids[i]]);
    } else {
        packed_at(front, m, i);
        assert(front[i] == ids[i]);
        assert(whole.subrange(64 * i, 64 * i + 32) =~= start.subrange(64 * i, 64 * i + 32));
        assert(whole.subrange(64 * i + 32, 64 * i + 64) =~= start.subrange(
            64 * i + 32,
            64 * i + 64,
        ));
    }
}

/// A summary reads back from its document.
pub proof fn summary_reads_back(m: Map<Seq<u8>, Seq<u8>>)
    requires
        summary_sized(m),
    ensures
        parse_summary(summary_tree(m)) == Some(m),
        cbor::writable(summary_tree(m)),
{
    let ids = bytemap::ascending(m.dom());
    bytemap::ascending_lists(m.dom());
    assert forall|i: int| 0 <= i < ids.len() implies m.contains_key(#[trigger] ids[i]) by {
        assert(m.dom().contains(ids[i]));
    }
    let buf = packed(ids, m);
    packed_len(ids, m);
    unpacks(ids, m, buf, ids.len() as int);
    assert(ids.take(ids.len() as int) =~= ids);
    let part = m.restrict(ids.to_set());
    assert forall|k: Seq<u8>| m.contains_key(k) implies #[trigger] part.contains_key(k) by {
        assert(m.dom().contains(k));
        let j = choose|j: int| 0 <= j < ids.len() && ids[j] == k;
        assert(ids.contains(k));
    }
    assert(part =~= m);
}

// ---------------------------------------------------------------------------
// What cannot be read.
// ---------------------------------------------------------------------------

/// A list is filed exactly where no two of its records share an id, and then
/// every record of it is there, under its own id, and nothing else.
pub proof fn no_id_is_filed_twice(list: Seq<RecordView>)
    ensures
        filed(list) is Some <==> forall|i: int, j: int|
            0 <= i < j < list.len() ==> (#[trigger] list[i]).id() != (#[trigger] list[j]).id(),
        filed(list) matches Some(m) ==> {
            &&& m.dom().finite()
            &&& m.len() == list.len()
            &&& forall|i: int|
                0 <= i < list.len() ==> m.contains_key((#[trigger] list[i]).id())
                    && m[list[i].id()] == list[i]
            &&& forall|k: Seq<u8>| #[trigger]
                m.contains_key(k) ==> exists|i: int|
                    0 <= i < list.len() && (#[trigger] list[i]).id() == k
        },
    decreases list.len(),
{
    if list.len() > 0 {
        let front = list.drop_last();
        let last = list.last();
        no_id_is_filed_twice(front);
        assert forall|i: int| 0 <= i < front.len() implies front[i] == #[trigger] list[i] by {}
        match filed(front) {
            None => {
                let (i, j) = choose|i: int, j: int|
                    0 <= i < j < front.len() && (#[trigger] front[i]).id() == (
                    #[trigger] front[j]).id();
                assert(list[i].id() == list[j].id());
            },
            Some(m) => {
                if m.contains_key(last.id()) {
                    let i = choose|i: int|
                        0 <= i < front.len() && (#[trigger] front[i]).id() == last.id();
                    assert(list[i].id() == list[list.len() - 1].id());
                } else {
                    let next = m.insert(last.id(), last);
                    assert forall|i: int, j: int| 0 <= i < j < list.len() implies (
                    #[trigger] list[i]).id() != (#[trigger] list[j]).id() by {
                        assert(front[i].id() == list[i].id());
                        if j < front.len() {
                            assert(front[j].id() == list[j].id());
                        } else {
                            assert(m.contains_key(front[i].id()));
                        }
                    }
                    assert forall|k: Seq<u8>| #[trigger] next.contains_key(k) implies exists|i: int|
                        0 <= i < list.len() && (#[trigger] list[i]).id() == k by {
                        if k == last.id() {
                            assert(list[list.len() - 1].id() == k);
                        } else {
                            assert(m.contains_key(k));
                            let i = choose|i: int|
                                0 <= i < front.len() && (#[trigger] front[i]).id() == k;
                            assert(list[i].id() == k);
                        }
                    }
                    assert forall|i: int| 0 <= i < list.len() implies next.contains_key(
                        (#[trigger] list[i]).id(),
                    ) && next[list[i].id()] == list[i] by {
                        if i < front.len() {
                            assert(m.contains_key(front[i].id()));
                        }
                    }
                }
            },
        }
    }
}

/// A summary that can be read has as many entries as its bytes have room for, so
/// that none was lost for naming an id again.
pub proof fn no_entry_of_a_summary_is_lost(buf: Seq<u8>, n: nat)
    ensures
        unpacked(buf, n) matches Some(m) ==> m.dom().finite() && m.len() == n,
        parse_summary(Cbor::Bytes(buf)) matches Some(m) ==> 64 * m.len() == buf.len(),
{
    entries_counted(buf, n);
    entries_counted(buf, (buf.len() / 64) as nat);
}

proof fn entries_counted(buf: Seq<u8>, n: nat)
    ensures
        unpacked(buf, n) matches Some(m) ==> m.dom().finite() && m.len() == n,
    decreases n,
{
    if n > 0 {
        entries_counted(buf, (n - 1) as nat);
    }
}

} // verus!
