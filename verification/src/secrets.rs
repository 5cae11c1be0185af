//! Secret-store key naming and typed access.
//!
//! Layout:
//! ```text
//! chess/key/<label>     -> 32 raw signing-key bytes
//! chess/bind/<label>    -> 32-byte game id
//! chess/game/<game id>  -> CBOR of the game record
//! chess/owner/<label>   -> 32-byte origin that created the key
//! chess/quality/<label> -> CBOR of the entropy quality of the key
//! ```

use vstd::prelude::*;
use crate::bytemap;
use crate::bytemap::ByteMap;
use crate::bytes;
use crate::bytes::{append_bytes, array32, copy_bytes, has_prefix, sub_bytes, text_of_bytes};
use crate::cbor;
use crate::delegate_api;
use crate::delegate_api::{EntropyQuality, GameId};
use crate::delegate_policy;
use crate::delegate_policy::{migrate_record, GameRecord, GameRecordView};
use crate::project;

verus! {

/// The delegate's persistence.
///
/// The specification functions have bodies so that an implementation may leave
/// them out; nothing is concluded from those bodies. One that states what it
/// holds gives its own.
pub trait SecretStore {
    /// What the store holds.
    open spec fn contents(&self) -> Map<Seq<u8>, Seq<u8>> {
        Map::empty()
    }

    /// The keys that begin with a prefix, as a listing gives them.
    open spec fn listing(&self, prefix: Seq<u8>) -> Seq<Seq<u8>> {
        Seq::empty()
    }

    /// The state of a contract, where the node holds the contract.
    open spec fn replica(&self, id: Seq<u8>) -> Option<Seq<u8>> {
        None
    }

    /// Every write succeeds, and every listing is complete and ascending. A
    /// store need not be like that.
    open spec fn dependable(&self) -> bool {
        false
    }

    /// The secret under a key.
    fn get(&self, key: &[u8]) -> (r: Option<Vec<u8>>)
        ensures
            match r {
                Some(v) => self.contents().contains_key(key@) && self.contents()[key@] == v@,
                None => !self.contents().contains_key(key@),
            },
    ;

    /// Put a secret under a key. A write that reports success has happened, and
    /// one that does not has stored nothing.
    fn set(&mut self, key: &[u8], value: &[u8]) -> (ok: bool)
        ensures
            ok ==> final(self).contents() == old(self).contents().insert(key@, value@),
            !ok ==> final(self).contents() == old(self).contents(),
            old(self).dependable() ==> ok && final(self).dependable(),
    ;

    /// Forget the secret under a key, if there is one.
    fn remove(&mut self, key: &[u8])
        ensures
            final(self).contents() == old(self).contents().remove(key@),
            old(self).dependable() ==> final(self).dependable(),
    ;

    /// Keys that begin with a prefix, in any order.
    fn list(&self, prefix: &[u8]) -> (r: Vec<Vec<u8>>)
        ensures
            key_views(r@) == self.listing(prefix@),
            forall|i: int|
                0 <= i < r@.len() ==> self.contents().contains_key((#[trigger] r@[i])@)
                    && bytes::starts_with(r@[i]@, prefix@),
            self.dependable() ==> lists_all(self.contents(), prefix@, self.listing(prefix@)),
    ;

    /// Best-effort read of a contract's local state. `None` is a legitimate
    /// answer: the node may simply not hold this contract.
    fn contract_state(&self, id: &[u8; 32]) -> (r: Option<Vec<u8>>)
        ensures
            match r {
                Some(v) => self.replica(id@) == Some(v@),
                None => self.replica(id@) is None,
            },
    ;
}

/// The bytes of a list of keys.
pub open spec fn key_views(list: Seq<Vec<u8>>) -> Seq<Seq<u8>> {
    list.map_values(|k: Vec<u8>| k@)
}

/// The keys are all that begin with the prefix, in strictly ascending order.
pub open spec fn lists_all(
    store: Map<Seq<u8>, Seq<u8>>,
    prefix: Seq<u8>,
    keys: Seq<Seq<u8>>,
) -> bool {
    &&& bytemap::is_ascending(keys)
    &&& forall|k: Seq<u8>| #[trigger]
        keys.contains(k) <==> store.contains_key(k) && bytes::starts_with(k, prefix)
}

/// Those of the keys that begin with a prefix.
pub open spec fn under(keys: Seq<Seq<u8>>, prefix: Seq<u8>) -> Seq<Seq<u8>>
    decreases keys.len(),
{
    if keys.len() == 0 {
        Seq::empty()
    } else {
        let before = under(keys.drop_last(), prefix);
        if bytes::starts_with(keys.last(), prefix) {
            before.push(keys.last())
        } else {
            before
        }
    }
}

/// Keeping those that begin with a prefix leaves out no other and keeps the
/// order.
proof fn under_lists(keys: Seq<Seq<u8>>, prefix: Seq<u8>)
    requires
        bytemap::is_ascending(keys),
    ensures
        bytemap::is_ascending(under(keys, prefix)),
        forall|k: Seq<u8>| #[trigger]
            under(keys, prefix).contains(k) <==> keys.contains(k) && bytes::starts_with(k, prefix),
    decreases keys.len(),
{
    let out = under(keys, prefix);
    if keys.len() > 0 {
        let front = keys.drop_last();
        let last = keys.last();
        let before = under(front, prefix);
        under_lists(front, prefix);
        assert(keys =~= front.push(last));
        assert forall|k: Seq<u8>| #[trigger] out.contains(k) <==> keys.contains(k)
            && bytes::starts_with(k, prefix) by {
            if out.contains(k) {
                let i = out.index_of(k);
                if i < before.len() {
                    assert(before[i] == k);
                    assert(before.contains(k));
                    let j = front.index_of(k);
                    assert(keys[j] == k);
                } else {
                    assert(keys[keys.len() - 1] == k);
                }
            }
            if keys.contains(k) && bytes::starts_with(k, prefix) {
                let j = keys.index_of(k);
                if j < front.len() {
                    assert(front[j] == k);
                    assert(front.contains(k));
                    assert(before.contains(k));
                    let i = before.index_of(k);
                    assert(out[i] == k);
                } else {
                    assert(out[before.len() as int] == k);
                }
            }
        }
        assert forall|i: int, j: int| 0 <= i < j < out.len() implies bytes::lex_lt(
            #[trigger] out[i],
            #[trigger] out[j],
        ) by {
            assert(out[i] == before[i]);
            if j < before.len() {
                assert(out[j] == before[j]);
            } else {
                assert(before.contains(before[i]));
                let t = front.index_of(before[i]);
                assert(front[t] == keys[t]);
                assert(bytes::lex_lt(keys[t], keys[keys.len() - 1]));
            }
        }
    }
}

// ---------------------------------------------------------------------------
// Secrets in memory.
// ---------------------------------------------------------------------------

/// Secrets held in memory, and no contract state.
#[derive(Debug)]
pub struct MemoryStore {
    map: ByteMap<Vec<u8>, Vec<u8>>,
}

impl MemoryStore {
    /// A store that holds nothing.
    pub fn new() -> (r: MemoryStore)
        ensures
            r.contents() == Map::<Seq<u8>, Seq<u8>>::empty(),
    {
        let r = MemoryStore { map: ByteMap::new() };
        assert(r.contents() =~= Map::<Seq<u8>, Seq<u8>>::empty());
        r
    }
}

impl Default for MemoryStore {
    fn default() -> (r: MemoryStore)
        ensures
            r.contents() == Map::<Seq<u8>, Seq<u8>>::empty(),
    {
        MemoryStore::new()
    }
}

impl SecretStore for MemoryStore {
    closed spec fn contents(&self) -> Map<Seq<u8>, Seq<u8>> {
        self.map@.map_values(|v: Vec<u8>| v@)
    }

    closed spec fn listing(&self, prefix: Seq<u8>) -> Seq<Seq<u8>> {
        under(self.map.ids(), prefix)
    }

    open spec fn dependable(&self) -> bool {
        true
    }

    fn get(&self, key: &[u8]) -> (r: Option<Vec<u8>>) {
        match self.map.get(key) {
            Some(v) => Some(copy_bytes(v.as_slice())),
            None => None,
        }
    }

    fn set(&mut self, key: &[u8], value: &[u8]) -> (ok: bool) {
        let ghost before = self.contents();
        let _ = self.map.insert(copy_bytes(key), copy_bytes(value));
        assert(self.contents() =~= before.insert(key@, value@));
        true
    }

    fn remove(&mut self, key: &[u8]) {
        let ghost before = self.contents();
        self.map.remove(key);
        assert(self.contents() =~= before.remove(key@));
    }

    fn list(&self, prefix: &[u8]) -> (r: Vec<Vec<u8>>) {
        let ghost ids = self.map.ids();
        let n: usize = self.map.len();
        let mut out: Vec<Vec<u8>> = Vec::new();
        let mut i: usize = 0;
        assert(key_views(out@) =~= under(ids.take(0), prefix@));
        while i < n
            invariant
                i <= n,
                n == ids.len(),
                ids == self.map.ids(),
                key_views(out@) == under(ids.take(i as int), prefix@),
            decreases n - i,
        {
            let k = self.map.id_at(i);
            let ghost prior = out@;
            proof {
                assert(ids.take(i + 1).drop_last() =~= ids.take(i as int));
                assert(ids.take(i + 1).last() == k@);
            }
            if has_prefix(k.as_slice(), prefix) {
                out.push(copy_bytes(k.as_slice()));
                assert(key_views(out@) =~= key_views(prior).push(k@));
            }
            i += 1;
        }
        proof {
            let keys = under(ids, prefix@);
            assert(ids.take(n as int) =~= ids);
            bytemap::ascending_lists(self.map@.dom());
            under_lists(ids, prefix@);
            assert forall|k: Seq<u8>| #[trigger] keys.contains(k) <==> self.contents().contains_key(
                k,
            ) && bytes::starts_with(k, prefix@) by {
                if self.contents().contains_key(k) {
                    assert(self.map@.dom().contains(k));
                    let t = choose|t: int| 0 <= t < ids.len() && ids[t] == k;
                    assert(ids.contains(k));
                }
            }
            assert forall|j: int| 0 <= j < out@.len() implies self.contents().contains_key(
                (#[trigger] out@[j])@,
            ) && bytes::starts_with(out@[j]@, prefix@) by {
                assert(key_views(out@)[j] == out@[j]@);
                assert(keys.contains(keys[j]));
            }
        }
        out
    }

    fn contract_state(&self, id: &[u8; 32]) -> (r: Option<Vec<u8>>)
        ensures
            r is None,
    {
        None
    }
}

// ---------------------------------------------------------------------------
// Names.
// ---------------------------------------------------------------------------

pub const KEY_PREFIX: &'static str = "chess/key/";

pub const BIND_PREFIX: &'static str = "chess/bind/";

pub const GAME_PREFIX: &'static str = "chess/game/";

pub const OWNER_PREFIX: &'static str = "chess/owner/";

pub const QUALITY_PREFIX: &'static str = "chess/quality/";

/// The name of what is kept for a label under a prefix.
pub open spec fn named(prefix: Seq<char>, label: Seq<char>) -> Seq<u8> {
    bytes::text_bytes(prefix) + bytes::text_bytes(label)
}

/// The name of a game's record.
pub open spec fn game_name(game: Seq<u8>) -> Seq<u8> {
    bytes::text_bytes(GAME_PREFIX@) + game
}

/// A prefix and what follows it.
fn prefixed(prefix: &str, rest: &[u8]) -> (r: Vec<u8>)
    ensures
        r@ == bytes::text_bytes(prefix@) + rest@,
{
    let mut out = copy_bytes(prefix.as_bytes());
    append_bytes(&mut out, rest);
    out
}

/// Where the signing key for a label is kept.
pub fn key_secret(label: &str) -> (r: Vec<u8>)
    ensures
        r@ == named(KEY_PREFIX@, label@),
{
    prefixed(KEY_PREFIX, label.as_bytes())
}

/// Where the game bound to a label is kept.
pub fn bind_secret(label: &str) -> (r: Vec<u8>)
    ensures
        r@ == named(BIND_PREFIX@, label@),
{
    prefixed(BIND_PREFIX, label.as_bytes())
}

/// Where the record of a game is kept.
pub fn game_secret(game_id: &GameId) -> (r: Vec<u8>)
    ensures
        r@ == game_name(game_id@),
{
    prefixed(GAME_PREFIX, game_id.as_slice())
}

/// Where the origin that created the key for a label is kept.
pub fn owner_secret(label: &str) -> (r: Vec<u8>)
    ensures
        r@ == named(OWNER_PREFIX@, label@),
{
    prefixed(OWNER_PREFIX, label.as_bytes())
}

/// Where the entropy quality of the key for a label is kept.
pub fn quality_secret(label: &str) -> (r: Vec<u8>)
    ensures
        r@ == named(QUALITY_PREFIX@, label@),
{
    prefixed(QUALITY_PREFIX, label.as_bytes())
}

// ---------------------------------------------------------------------------
// Typed access.
// ---------------------------------------------------------------------------

/// 32 bytes under a key, if that is what is there.
pub open spec fn id_under(store: Map<Seq<u8>, Seq<u8>>, key: Seq<u8>) -> Option<Seq<u8>> {
    if store.contains_key(key) && store[key].len() == 32 {
        Some(store[key])
    } else {
        None
    }
}

/// The seed kept for a label.
pub open spec fn seed_in(store: Map<Seq<u8>, Seq<u8>>, label: Seq<char>) -> Option<Seq<u8>> {
    id_under(store, named(KEY_PREFIX@, label))
}

/// The game bound to a label.
pub open spec fn bound_in(store: Map<Seq<u8>, Seq<u8>>, label: Seq<char>) -> Option<Seq<u8>> {
    id_under(store, named(BIND_PREFIX@, label))
}

/// The origin that created the key for a label.
pub open spec fn owner_in(store: Map<Seq<u8>, Seq<u8>>, label: Seq<char>) -> Option<Seq<u8>> {
    id_under(store, named(OWNER_PREFIX@, label))
}

/// The record of a game, in the current layout.
pub open spec fn game_in(store: Map<Seq<u8>, Seq<u8>>, game: Seq<u8>) -> Option<GameRecordView> {
    let key = game_name(game);
    if store.contains_key(key) {
        match delegate_policy::decoded_game_record(store[key]) {
            Some(rec) => delegate_policy::migrated(rec),
            None => None,
        }
    } else {
        None
    }
}

/// The record of the game bound to a label.
pub open spec fn bound_game_in(
    store: Map<Seq<u8>, Seq<u8>>,
    label: Seq<char>,
) -> Option<GameRecordView> {
    match bound_in(store, label) {
        Some(game) => game_in(store, game),
        None => None,
    }
}

/// The entropy quality of the key for a label.
pub open spec fn quality_in(
    store: Map<Seq<u8>, Seq<u8>>,
    label: Seq<char>,
) -> Option<EntropyQuality> {
    let key = named(QUALITY_PREFIX@, label);
    if store.contains_key(key) {
        delegate_api::decoded_entropy(store[key])
    } else {
        None
    }
}

/// What is stored when a game record is stored: the record under the game, and
/// the game under the label.
pub open spec fn with_game(
    store: Map<Seq<u8>, Seq<u8>>,
    rec: GameRecordView,
) -> Map<Seq<u8>, Seq<u8>> {
    let game = rec.params.game_id();
    with_record(store, rec).insert(named(BIND_PREFIX@, rec.label), game)
}

/// What is stored when only the first of the two writes succeeds: the record
/// under the game.
pub open spec fn with_record(
    store: Map<Seq<u8>, Seq<u8>>,
    rec: GameRecordView,
) -> Map<Seq<u8>, Seq<u8>> {
    store.insert(game_name(rec.params.game_id()), cbor::cbor_bytes(rec.tree()))
}

/// 32 bytes under a key, if that is what is there.
fn load_id<S: SecretStore>(store: &S, key: &[u8]) -> (r: Option<[u8; 32]>)
    ensures
        cbor::option_view(r) == id_under(store.contents(), key@),
{
    match store.get(key) {
        Some(v) => array32(v.as_slice()),
        None => None,
    }
}

/// The 32 raw signing-key bytes for `label`, if we hold them.
pub fn load_seed<S: SecretStore>(store: &S, label: &str) -> (r: Option<[u8; 32]>)
    ensures
        cbor::option_view(r) == seed_in(store.contents(), label@),
{
    load_id(store, key_secret(label).as_slice())
}

/// The game bound to `label`, if there is one.
pub fn load_bound_game_id<S: SecretStore>(store: &S, label: &str) -> (r: Option<GameId>)
    ensures
        cbor::option_view(r) == bound_in(store.contents(), label@),
{
    load_id(store, bind_secret(label).as_slice())
}

/// The record of a game. The one place where an older layout is migrated, so
/// that no caller can forget.
pub fn load_game<S: SecretStore>(store: &S, game_id: &GameId) -> (r: Option<GameRecord>)
    ensures
        match r {
            Some(rec) => game_in(store.contents(), game_id@) == Some(rec@),
            None => game_in(store.contents(), game_id@) is None,
        },
{
    match store.get(game_secret(game_id).as_slice()) {
        Some(v) => match GameRecord::decode(v.as_slice()) {
            Some(rec) => migrate_record(rec),
            None => None,
        },
        None => None,
    }
}

/// The record of the game bound to `label`.
pub fn load_bound_game<S: SecretStore>(store: &S, label: &str) -> (r: Option<GameRecord>)
    ensures
        match r {
            Some(rec) => bound_game_in(store.contents(), label@) == Some(rec@),
            None => bound_game_in(store.contents(), label@) is None,
        },
{
    match load_bound_game_id(store, label) {
        Some(id) => load_game(store, &id),
        None => None,
    }
}

/// The origin that created the key for `label`, if any.
pub fn load_owner<S: SecretStore>(store: &S, label: &str) -> (r: Option<[u8; 32]>)
    ensures
        cbor::option_view(r) == owner_in(store.contents(), label@),
{
    load_id(store, owner_secret(label).as_slice())
}

/// The entropy quality recorded for `label` when its key was created, if any.
pub fn load_quality<S: SecretStore>(store: &S, label: &str) -> (r: Option<EntropyQuality>)
    ensures
        r == quality_in(store.contents(), label@),
{
    match store.get(quality_secret(label).as_slice()) {
        Some(v) => EntropyQuality::decode(v.as_slice()),
        None => None,
    }
}

/// Writes the game record and the game under its label. Returns false if
/// either write fails; then the record alone may have been stored. What was
/// stored is what is loaded afterwards.
pub fn store_game<S: SecretStore>(store: &mut S, record: &GameRecord) -> (ok: bool)
    ensures
        ok ==> final(store).contents() == with_game(old(store).contents(), record@),
        ok && record@.format == delegate_policy::GAME_RECORD_FORMAT ==> {
            &&& game_in(final(store).contents(), record@.params.game_id()) == Some(record@)
            &&& bound_game_in(final(store).contents(), record@.label) == Some(record@)
        },
        !ok ==> final(store).contents() == old(store).contents() || final(store).contents()
            == with_record(old(store).contents(), record@),
        record@.format == delegate_policy::GAME_RECORD_FORMAT ==> game_in(
            with_record(old(store).contents(), record@),
            record@.params.game_id(),
        ) == Some(record@),
        old(store).dependable() ==> ok && final(store).dependable(),
{
    let raw = record.encode();
    let game_id = record.game_id();
    if !store.set(game_secret(&game_id).as_slice(), raw.as_slice()) {
        return false;
    }
    let ok: bool = store.set(
        bind_secret(record.label.as_str()).as_slice(),
        game_id.as_slice(),
    );
    proof {
        game_and_bind_differ(game_id@, record@.label);
    }
    ok
}

/// Each of the labels has something under the key prefix.
pub open spec fn labels_held(store: Map<Seq<u8>, Seq<u8>>, labels: Seq<Seq<char>>) -> bool {
    forall|i: int|
        0 <= i < labels.len() ==> store.contains_key(named(KEY_PREFIX@, #[trigger] labels[i]))
}

/// Every label that has something under the key prefix is among the labels.
pub open spec fn labels_complete(store: Map<Seq<u8>, Seq<u8>>, labels: Seq<Seq<char>>) -> bool {
    forall|label: Seq<char>|
        store.contains_key(#[trigger] named(KEY_PREFIX@, label)) ==> labels.contains(label)
}

/// The labels come in strictly ascending order of the bytes they are written
/// with, so that none comes twice.
pub open spec fn labels_ascend(labels: Seq<Seq<char>>) -> bool {
    forall|i: int, j: int|
        0 <= i < j < labels.len() ==> bytes::lex_lt(
            bytes::text_bytes(#[trigger] labels[i]),
            bytes::text_bytes(#[trigger] labels[j]),
        )
}

/// The labels in a list of keys: what follows the key prefix, where that is
/// text.
pub open spec fn labels_of(keys: Seq<Seq<u8>>) -> Seq<Seq<char>>
    decreases keys.len(),
{
    if keys.len() == 0 {
        Seq::empty()
    } else {
        let before = labels_of(keys.drop_last());
        let rest = keys.last().skip(bytes::text_bytes(KEY_PREFIX@).len() as int);
        if vstd::utf8::valid_utf8(rest) {
            before.push(vstd::utf8::decode_utf8(rest))
        } else {
            before
        }
    }
}

/// The labels a store lists.
pub open spec fn labels_listed<S: SecretStore>(store: S) -> Seq<Seq<char>> {
    labels_of(store.listing(bytes::text_bytes(KEY_PREFIX@)))
}

/// The labels in a list of keys are those whose names are in it, in its order.
proof fn labels_of_lists(keys: Seq<Seq<u8>>)
    requires
        forall|i: int|
            0 <= i < keys.len() ==> bytes::starts_with(
                #[trigger] keys[i],
                bytes::text_bytes(KEY_PREFIX@),
            ),
    ensures
        forall|label: Seq<char>|
            keys.contains(#[trigger] named(KEY_PREFIX@, label)) <==> labels_of(keys).contains(
                label,
            ),
        bytemap::is_ascending(keys) ==> labels_ascend(labels_of(keys)),
    decreases keys.len(),
{
    let out = labels_of(keys);
    let prefix = bytes::text_bytes(KEY_PREFIX@);
    if keys.len() > 0 {
        let front = keys.drop_last();
        let last = keys.last();
        let before = labels_of(front);
        let rest = last.skip(prefix.len() as int);
        assert forall|i: int| 0 <= i < front.len() implies bytes::starts_with(
            #[trigger] front[i],
            prefix,
        ) by {
            assert(front[i] == keys[i]);
        }
        labels_of_lists(front);
        assert(keys[keys.len() - 1] == last);
        assert(last =~= prefix + rest);
        if vstd::utf8::valid_utf8(rest) {
            vstd::utf8::decode_utf8_encode_utf8(rest);
            assert(named(KEY_PREFIX@, vstd::utf8::decode_utf8(rest)) == last);
        }
        assert forall|label: Seq<char>|
            keys.contains(#[trigger] named(KEY_PREFIX@, label)) <==> out.contains(label) by {
            let name = named(KEY_PREFIX@, label);
            if keys.contains(name) {
                let j = keys.index_of(name);
                if j < front.len() {
                    assert(front[j] == name);
                    assert(front.contains(name));
                    let i = before.index_of(label);
                    assert(out[i] == label);
                } else {
                    bytes::split_equal(prefix, rest, prefix, bytes::text_bytes(label));
                    vstd::utf8::encode_utf8_valid_utf8(label);
                    vstd::utf8::encode_utf8_decode_utf8(label);
                    assert(out[before.len() as int] == label);
                }
            }
            if out.contains(label) {
                let i = out.index_of(label);
                if i < before.len() {
                    assert(before[i] == label);
                    assert(before.contains(label));
                    assert(front.contains(name));
                    let j = front.index_of(name);
                    assert(keys[j] == name);
                }
            }
        }
        if bytemap::is_ascending(keys) {
            assert(bytemap::is_ascending(front)) by {
                assert forall|i: int, j: int| 0 <= i < j < front.len() implies bytes::lex_lt(
                    #[trigger] front[i],
                    #[trigger] front[j],
                ) by {
                    assert(front[i] == keys[i] && front[j] == keys[j]);
                }
            }
            assert forall|i: int, j: int| 0 <= i < j < out.len() implies bytes::lex_lt(
                bytes::text_bytes(#[trigger] out[i]),
                bytes::text_bytes(#[trigger] out[j]),
            ) by {
                assert(out[i] == before[i]);
                if j < before.len() {
                    assert(out[j] == before[j]);
                } else {
                    let name = named(KEY_PREFIX@, out[i]);
                    assert(before.contains(out[i]));
                    assert(front.contains(name));
                    let t = front.index_of(name);
                    assert(front[t] == keys[t]);
                    assert(bytes::lex_lt(keys[t], keys[keys.len() - 1]));
                    bytes::lex_after_prefix(
                        prefix,
                        bytes::text_bytes(out[i]),
                        bytes::text_bytes(out[j]),
                    );
                }
            }
        }
    }
}

/// Labels we hold a key for, recovered from the key prefix, in the order in
/// which the store lists them.
pub fn list_labels<S: SecretStore>(store: &S) -> (r: Vec<String>)
    ensures
        project::text_views(r@) == labels_listed(*store),
        labels_held(store.contents(), project::text_views(r@)),
        store.dependable() ==> labels_complete(store.contents(), project::text_views(r@)),
        store.dependable() ==> labels_ascend(project::text_views(r@)),
{
    let ghost prefix = bytes::text_bytes(KEY_PREFIX@);
    let keys = store.list(KEY_PREFIX.as_bytes());
    let ghost all = key_views(keys@);
    let mut out: Vec<String> = Vec::new();
    let mut i: usize = 0;
    assert(project::text_views(out@) =~= labels_of(all.take(0)));
    while i < keys.len()
        invariant
            i <= keys.len(),
            prefix == bytes::text_bytes(KEY_PREFIX@),
            all == key_views(keys@),
            forall|j: int|
                0 <= j < keys@.len() ==> bytes::starts_with((#[trigger] keys@[j])@, prefix),
            project::text_views(out@) == labels_of(all.take(i as int)),
        decreases keys.len() - i,
    {
        let key = &keys[i];
        let n: usize = KEY_PREFIX.as_bytes().len();
        let rest = sub_bytes(key.as_slice(), n, key.len());
        let ghost tail = rest@;
        let ghost prior = out@;
        proof {
            assert(key@ == keys@[i as int]@);
            assert(all.take(i + 1).drop_last() =~= all.take(i as int));
            assert(all.take(i + 1).last() == key@);
            assert(tail =~= key@.skip(prefix.len() as int));
        }
        match text_of_bytes(rest) {
            Some(t) => {
                proof {
                    vstd::utf8::encode_utf8_valid_utf8(t@);
                    vstd::utf8::encode_utf8_decode_utf8(t@);
                }
                let ghost text = t@;
                out.push(t);
                assert(project::text_views(out@) =~= project::text_views(prior).push(text));
            },
            None => {},
        }
        i += 1;
    }
    proof {
        assert(all.take(i as int) =~= all);
        let labels = labels_of(all);
        assert forall|j: int| 0 <= j < all.len() implies bytes::starts_with(
            #[trigger] all[j],
            prefix,
        ) by {
            assert(all[j] == keys@[j]@);
        }
        labels_of_lists(all);
        assert forall|j: int| 0 <= j < labels.len() implies store.contents().contains_key(
            named(KEY_PREFIX@, #[trigger] labels[j]),
        ) by {
            assert(labels.contains(labels[j]));
            let t = all.index_of(named(KEY_PREFIX@, labels[j]));
            assert(all.contains(named(KEY_PREFIX@, labels[j])));
            assert(all[t] == keys@[t]@);
        }
        if store.dependable() {
            assert forall|label: Seq<char>|
                store.contents().contains_key(
                    #[trigger] named(KEY_PREFIX@, label),
                ) implies labels.contains(label) by {
                let k = named(KEY_PREFIX@, label);
                assert(k.take(prefix.len() as int) =~= prefix);
                assert(all.contains(k));
            }
        }
    }
    out
}

// ---------------------------------------------------------------------------
// Laws.
// ---------------------------------------------------------------------------

/// The bytes of an ASCII text, one for each character.
proof fn ascii_bytes(s: &str)
    requires
        s.is_ascii(),
    ensures
        bytes::text_bytes(s@).len() == s@.len(),
        forall|i: int| 0 <= i < s@.len() ==> #[trigger] bytes::text_bytes(s@)[i] == s@[i] as u8,
{
    vstd::string::is_ascii_spec_bytes(s);
}

/// The prefixes as bytes: `c` after `chess/` differs from one to the next.
proof fn prefixes_differ()
    ensures
        bytes::text_bytes(KEY_PREFIX@).len() == 10,
        bytes::text_bytes(BIND_PREFIX@).len() == 11,
        bytes::text_bytes(GAME_PREFIX@).len() == 11,
        bytes::text_bytes(OWNER_PREFIX@).len() == 12,
        bytes::text_bytes(QUALITY_PREFIX@).len() == 14,
        bytes::text_bytes(KEY_PREFIX@)[6] == 107,
        bytes::text_bytes(BIND_PREFIX@)[6] == 98,
        bytes::text_bytes(GAME_PREFIX@)[6] == 103,
        bytes::text_bytes(OWNER_PREFIX@)[6] == 111,
        bytes::text_bytes(QUALITY_PREFIX@)[6] == 113,
{
    reveal_strlit("chess/key/");
    reveal_strlit("chess/bind/");
    reveal_strlit("chess/game/");
    reveal_strlit("chess/owner/");
    reveal_strlit("chess/quality/");
    ascii_bytes("chess/key/");
    ascii_bytes("chess/bind/");
    ascii_bytes("chess/game/");
    ascii_bytes("chess/owner/");
    ascii_bytes("chess/quality/");
}

proof fn game_and_bind_differ(game: Seq<u8>, label: Seq<char>)
    ensures
        game_name(game) != named(BIND_PREFIX@, label),
{
    prefixes_differ();
    assert(game_name(game)[6] == 103);
    assert(named(BIND_PREFIX@, label)[6] == 98);
}

/// No label reaches from one namespace into another, whatever it spells.
pub proof fn namespaces_never_meet(a: Seq<char>, b: Seq<char>, game: Seq<u8>)
    ensures
        named(KEY_PREFIX@, a) != named(BIND_PREFIX@, b),
        named(KEY_PREFIX@, a) != named(OWNER_PREFIX@, b),
        named(KEY_PREFIX@, a) != named(QUALITY_PREFIX@, b),
        named(KEY_PREFIX@, a) != game_name(game),
        named(BIND_PREFIX@, a) != named(OWNER_PREFIX@, b),
        named(BIND_PREFIX@, a) != named(QUALITY_PREFIX@, b),
        named(BIND_PREFIX@, a) != game_name(game),
        named(OWNER_PREFIX@, a) != named(QUALITY_PREFIX@, b),
        named(OWNER_PREFIX@, a) != game_name(game),
        named(QUALITY_PREFIX@, a) != game_name(game),
{
    prefixes_differ();
    assert(named(KEY_PREFIX@, a)[6] == 107);
    assert(named(BIND_PREFIX@, a)[6] == 98);
    assert(named(BIND_PREFIX@, b)[6] == 98);
    assert(named(OWNER_PREFIX@, a)[6] == 111);
    assert(named(OWNER_PREFIX@, b)[6] == 111);
    assert(named(QUALITY_PREFIX@, a)[6] == 113);
    assert(named(QUALITY_PREFIX@, b)[6] == 113);
    assert(game_name(game)[6] == 103);
}

/// Two labels never share a name under one prefix.
pub proof fn labels_never_share(prefix: Seq<char>, a: Seq<char>, b: Seq<char>)
    requires
        a != b,
    ensures
        named(prefix, a) != named(prefix, b),
{
    if named(prefix, a) == named(prefix, b) {
        bytes::split_equal(
            bytes::text_bytes(prefix),
            bytes::text_bytes(a),
            bytes::text_bytes(prefix),
            bytes::text_bytes(b),
        );
        bytes::text_bytes_injective(a, b);
    }
}

} // verus!
