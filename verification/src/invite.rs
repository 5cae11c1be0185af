//! The two blobs players copy and paste to agree on a game.
//!
//! Both players must end up with identical parameters, or each of them sits on
//! a contract of their own and sees a game the other never joins. The nonce
//! therefore has exactly one author, the inviter, and the offer carries the
//! contract id, so that two different builds of the contract are told apart
//! instead of silently playing alone.
//!
//! A blob is a CBOR table, written in base58. Spaces around it are ignored.

use vstd::prelude::*;
use vstd::string::StrSliceExecFns;
use crate::bytes::array16;
use crate::cbor;
use crate::cbor::{Cbor, Item};
use crate::delegate_api;
use crate::delegate_api::{byte_field, params_field, side_field, Side};
use crate::text;
use crate::text::{decimal_text, join5};
use crate::types;
use crate::types::{GameParams, KeyBytes, ParamsView};

verus! {

/// The format of the invites written here.
pub const INVITE_FORMAT: u8 = 1;

/// The format of the offers written here.
pub const OFFER_FORMAT: u8 = 1;

// ---------------------------------------------------------------------------
// Base58.
// ---------------------------------------------------------------------------

/// What `bs58::encode` makes of a byte string.
pub uninterp spec fn base58(bytes: Seq<u8>) -> Seq<char>;

/// What `bs58::decode` makes of a text; `None` where it reports an error.
pub uninterp spec fn base58_bytes(text: Seq<char>) -> Option<Seq<u8>>;

/// The characters of base58: the digits and letters of ASCII, without the
/// four that are easily mistaken for one another.
pub open spec fn is_base58_char(c: char) -> bool {
    ||| '1' <= c <= '9'
    ||| 'A' <= c <= 'H'
    ||| 'J' <= c <= 'N'
    ||| 'P' <= c <= 'Z'
    ||| 'a' <= c <= 'k'
    ||| 'm' <= c <= 'z'
}

/// `bs58::encode` with its default alphabet, as a string: the text named
/// [`base58`]. It is made of the characters of that alphabet, and reads back
/// as the same bytes.
#[verifier::external_body]
pub(crate) fn to_base58(bytes: &[u8]) -> (r: String)
    ensures
        r@ == base58(bytes@),
        base58_bytes(r@) == Some(bytes@),
        forall|i: int| 0 <= i < r@.len() ==> is_base58_char(#[trigger] r@[i]),
{
    bs58::encode(bytes).into_string()
}

/// `bs58::decode` with its default alphabet, into a vector: the bytes named
/// [`base58_bytes`], and nothing where it reports an error.
#[verifier::external_body]
fn from_base58(text: &str) -> (r: Option<Vec<u8>>)
    ensures
        match r {
            Some(b) => base58_bytes(text@) == Some(b@),
            None => base58_bytes(text@) is None,
        },
{
    bs58::decode(text).into_vec().ok()
}

// ---------------------------------------------------------------------------
// Spaces around a text.
// ---------------------------------------------------------------------------

/// White space, in the sense of Unicode.
pub open spec fn is_space(c: char) -> bool {
    let n = c as u32;
    ||| 9 <= n <= 13
    ||| n == 32
    ||| n == 0x85
    ||| n == 0xA0
    ||| n == 0x1680
    ||| 0x2000 <= n <= 0x200A
    ||| 0x2028 <= n <= 0x2029
    ||| n == 0x202F
    ||| n == 0x205F
    ||| n == 0x3000
}

/// A text without the white space around it.
pub open spec fn trimmed(t: Seq<char>) -> Seq<char>
    decreases t.len(),
{
    if t.len() == 0 {
        t
    } else if is_space(t[0]) {
        trimmed(t.drop_first())
    } else if is_space(t.last()) {
        trimmed(t.drop_last())
    } else {
        t
    }
}

/// Whether a character is white space.
fn is_white(c: char) -> (r: bool)
    ensures
        r == is_space(c),
{
    let n: u32 = c as u32;
    (9 <= n && n <= 13) || n == 32 || n == 0x85 || n == 0xA0 || n == 0x1680 || (0x2000 <= n && n
        <= 0x200A) || (0x2028 <= n && n <= 0x2029) || n == 0x202F || n == 0x205F || n == 0x3000
}

/// A text without the white space around it.
pub fn trim(t: &str) -> (r: &str)
    ensures
        r@ == trimmed(t@),
{
    let n: usize = t.unicode_len();
    let mut lo: usize = 0;
    assert(t@.subrange(0, n as int) =~= t@);
    while lo < n && is_white(t.get_char(lo))
        invariant
            lo <= n == t@.len(),
            trimmed(t@) == trimmed(t@.subrange(lo as int, n as int)),
        ensures
            lo < n ==> !is_space(t@[lo as int]),
        decreases n - lo,
    {
        assert(t@.subrange(lo as int, n as int).drop_first() =~= t@.subrange(lo + 1, n as int));
        lo = lo + 1;
    }
    let mut hi: usize = n;
    while lo < hi && is_white(t.get_char(hi - 1))
        invariant
            lo <= hi <= n == t@.len(),
            lo < n ==> !is_space(t@[lo as int]),
            trimmed(t@) == trimmed(t@.subrange(lo as int, hi as int)),
        ensures
            lo < hi ==> !is_space(t@[hi - 1]),
        decreases hi - lo,
    {
        assert(t@.subrange(lo as int, hi as int).drop_last() =~= t@.subrange(lo as int, hi - 1));
        hi = hi - 1;
    }
    t.substring_char(lo, hi)
}

/// Nothing is left of white space alone.
proof fn all_space(t: Seq<char>)
    requires
        forall|i: int| 0 <= i < t.len() ==> is_space(#[trigger] t[i]),
    ensures
        trimmed(t) == Seq::<char>::empty(),
    decreases t.len(),
{
    if t.len() > 0 {
        all_space(t.drop_first());
    } else {
        assert(t =~= Seq::<char>::empty());
    }
}

/// White space behind a text is ignored.
proof fn space_behind(t: Seq<char>, after: Seq<char>)
    requires
        forall|i: int| 0 <= i < after.len() ==> is_space(#[trigger] after[i]),
    ensures
        trimmed(t + after) == trimmed(t),
    decreases t.len() + after.len(),
{
    if t.len() == 0 {
        assert(t + after =~= after);
        assert(t =~= Seq::<char>::empty());
        all_space(after);
    } else if is_space(t[0]) {
        assert((t + after).drop_first() =~= t.drop_first() + after);
        space_behind(t.drop_first(), after);
    } else if after.len() > 0 {
        assert((t + after).last() == after.last());
        assert((t + after).drop_last() =~= t + after.drop_last());
        space_behind(t, after.drop_last());
    } else {
        assert(t + after =~= t);
    }
}

/// White space around a text is ignored, however much of it there is.
pub proof fn space_around_is_ignored(before: Seq<char>, t: Seq<char>, after: Seq<char>)
    requires
        forall|i: int| 0 <= i < before.len() ==> is_space(#[trigger] before[i]),
        forall|i: int| 0 <= i < after.len() ==> is_space(#[trigger] after[i]),
    ensures
        trimmed(before + t + after) == trimmed(t),
    decreases before.len(),
{
    if before.len() == 0 {
        assert(before + t + after =~= t + after);
        space_behind(t, after);
    } else {
        assert((before + t + after)[0] == before[0]);
        assert((before + t + after).drop_first() =~= before.drop_first() + t + after);
        space_around_is_ignored(before.drop_first(), t, after);
    }
}

/// There is no white space in base58.
proof fn base58_has_no_space(t: Seq<char>)
    requires
        forall|i: int| 0 <= i < t.len() ==> is_base58_char(#[trigger] t[i]),
    ensures
        trimmed(t) == t,
{
    if t.len() > 0 {
        assert(is_base58_char(t[0]));
        assert(is_base58_char(t[t.len() - 1]));
    }
}

// ---------------------------------------------------------------------------
// Blobs.
// ---------------------------------------------------------------------------

/// Why a blob is refused.
#[derive(Clone, Copy, Debug, PartialEq, Eq, Structural)]
pub enum InviteError {
    Base58,
    Malformed,
    Version { found: u8, expected: u8 },
}

impl InviteError {
    /// The error as a sentence for the user.
    pub open spec fn sentence(self) -> Seq<char> {
        match self {
            InviteError::Base58 => "not valid base58"@,
            InviteError::Malformed => "not a valid blob"@,
            InviteError::Version { found, expected } => "blob is format "@ + text::decimal(
                found as nat,
            ) + ", this build speaks "@ + text::decimal(expected as nat),
        }
    }

    /// The error as a sentence for the user.
    pub fn message(&self) -> (r: String)
        ensures
            r@ == self.sentence(),
    {
        match self {
            InviteError::Base58 => "not valid base58".to_owned(),
            InviteError::Malformed => "not a valid blob".to_owned(),
            InviteError::Version { found, expected } => {
                let r = join5(
                    "blob is format ",
                    decimal_text(*found as u64).as_str(),
                    ", this build speaks ",
                    decimal_text(*expected as u64).as_str(),
                    "",
                );
                proof {
                    reveal_strlit("");
                    assert(r@ =~= self.sentence());
                }
                r
            },
        }
    }
}

/// The document in a blob.
pub open spec fn unwrapped(t: Seq<char>) -> Result<Cbor, InviteError> {
    match base58_bytes(trimmed(t)) {
        Some(b) => match cbor::document(b) {
            Some(c) => Ok(c),
            None => Err(InviteError::Malformed),
        },
        None => Err(InviteError::Base58),
    }
}

/// The blob of a document.
pub open spec fn wrapped(c: Cbor) -> Seq<char> {
    base58(cbor::cbor_bytes(c))
}

/// The blob of a document.
fn encode_blob(item: Item) -> (r: String)
    requires
        cbor::writable(item@),
    ensures
        r@ == wrapped(item@),
        unwrapped(r@) == Ok::<Cbor, InviteError>(item@),
{
    let raw = cbor::write(item);
    let r = to_base58(raw.as_slice());
    proof {
        base58_has_no_space(r@);
    }
    r
}

/// The document in a blob.
fn decode_blob(t: &str) -> (r: Result<Item, InviteError>)
    ensures
        match r {
            Ok(item) => unwrapped(t@) == Ok::<Cbor, InviteError>(item@),
            Err(e) => unwrapped(t@) == Err::<Cbor, InviteError>(e),
        },
{
    match from_base58(trim(t)) {
        Some(b) => match cbor::read(b.as_slice()) {
            Some(item) => Ok(item),
            None => Err(InviteError::Malformed),
        },
        None => Err(InviteError::Base58),
    }
}

// ---------------------------------------------------------------------------
// Invites.
// ---------------------------------------------------------------------------

/// The value of an [`Invite`].
#[verifier::ext_equal]
pub struct InviteView {
    pub v: u8,
    pub side: Side,
    pub public_key: Seq<u8>,
    pub nonce: Seq<u8>,
}

/// What the inviting player sends: their side, their key for the game, and the
/// nonce of the game.
#[derive(Debug, PartialEq, Eq)]
pub struct Invite {
    pub v: u8,
    /// The side of the inviting player.
    pub side: Side,
    pub public_key: KeyBytes,
    pub nonce: [u8; 16],
}

impl View for Invite {
    type V = InviteView;

    open spec fn view(&self) -> InviteView {
        InviteView {
            v: self.v,
            side: self.side,
            public_key: self.public_key@,
            nonce: self.nonce@,
        }
    }
}

impl Clone for Invite {
    fn clone(&self) -> (r: Invite)
        ensures
            r == *self,
    {
        Invite { v: self.v, side: self.side, public_key: self.public_key, nonce: self.nonce }
    }
}

impl InviteView {
    /// The invite as a CBOR document.
    pub open spec fn tree(self) -> Cbor {
        Cbor::Table(
            seq![
                cbor::row("v"@, Cbor::Int(self.v as int)),
                cbor::row("side"@, Cbor::Text(self.side.text())),
                cbor::row("public_key"@, Cbor::Bytes(self.public_key)),
                cbor::row("nonce"@, Cbor::Bytes(self.nonce)),
            ],
        )
    }

    /// The byte strings have the widths of a key and of a nonce.
    pub open spec fn sized(self) -> bool {
        self.public_key.len() == 32 && self.nonce.len() == 16
    }
}

/// Read an invite of any format out of a document.
pub open spec fn parse_invite(c: Cbor) -> Option<InviteView> {
    match cbor::as_table(c) {
        Some(s) => match (
            cbor::number_at(s, "v"@, 255),
            delegate_api::side_at(s, "side"@),
            cbor::sized_at(s, "public_key"@, 32),
            cbor::sized_at(s, "nonce"@, 16),
        ) {
            (Some(v), Some(side), Some(public_key), Some(nonce)) => Some(
                InviteView { v: v as u8, side, public_key, nonce },
            ),
            _ => None,
        },
        None => None,
    }
}

/// What reading a text as an invite gives.
pub open spec fn read_invite(t: Seq<char>) -> Result<InviteView, InviteError> {
    match unwrapped(t) {
        Ok(c) => match parse_invite(c) {
            Some(i) => if i.v == INVITE_FORMAT {
                Ok(i)
            } else {
                Err(InviteError::Version { found: i.v, expected: INVITE_FORMAT })
            },
            None => Err(InviteError::Malformed),
        },
        Err(e) => Err(e),
    }
}

/// An invite reads back from its document.
pub proof fn invite_reads_back(i: InviteView)
    requires
        i.sized(),
    ensures
        parse_invite(i.tree()) == Some(i),
        cbor::plain(i.tree(), 1),
{
    delegate_api::names_differ();
    reveal_strlit("nonce");
    reveal_with_fuel(cbor::plain, 2);
    let s = i.tree()->Table_0;
    cbor::present(s, 0, "v"@);
    cbor::present(s, 1, "side"@);
    cbor::present(s, 2, "public_key"@);
    cbor::present(s, 3, "nonce"@);
}

/// The nonce under a name.
fn nonce_field(m: &Vec<(Item, Item)>, name: &str) -> (r: Option<[u8; 16]>)
    ensures
        match r {
            Some(b) => cbor::sized_at(cbor::pair_trees(m@), name@, 16) == Some(b@),
            None => cbor::sized_at(cbor::pair_trees(m@), name@, 16) is None,
        },
{
    match cbor::field_of(m, name) {
        Some(i) => match cbor::piece_of(i) {
            Some(b) => array16(b.as_slice()),
            None => None,
        },
        None => None,
    }
}

impl Invite {
    /// An invite of the current format.
    pub fn new(side: Side, public_key: KeyBytes, nonce: [u8; 16]) -> (r: Invite)
        ensures
            r@ == (InviteView { v: INVITE_FORMAT, side, public_key: public_key@, nonce: nonce@ }),
    {
        Invite { v: INVITE_FORMAT, side, public_key, nonce }
    }

    /// The invite as a CBOR document.
    pub fn to_item(&self) -> (r: Item)
        ensures
            r@ == self@.tree(),
    {
        let mut m: Vec<(Item, Item)> = Vec::new();
        cbor::push_row(&mut m, "v", Item::Int(self.v as i128));
        cbor::push_row(&mut m, "side", cbor::text_item(self.side.name()));
        cbor::push_row(&mut m, "public_key", cbor::bytes_item(self.public_key.as_slice()));
        cbor::push_row(&mut m, "nonce", cbor::bytes_item(self.nonce.as_slice()));
        assert(cbor::pair_trees(m@) =~= self@.tree()->Table_0);
        Item::Table(m)
    }

    /// Read an invite of any format out of a CBOR document.
    pub fn from_item(item: &Item) -> (r: Option<Invite>)
        ensures
            match r {
                Some(i) => parse_invite(item@) == Some(i@),
                None => parse_invite(item@) is None,
            },
    {
        let m = match cbor::table_of(item) {
            Some(m) => m,
            None => return None,
        };
        let v: u8 = match byte_field(m, "v") {
            Some(v) => v,
            None => return None,
        };
        let side = match side_field(m, "side") {
            Some(s) => s,
            None => return None,
        };
        let public_key = match cbor::field32(m, "public_key") {
            Some(b) => b,
            None => return None,
        };
        let nonce = match nonce_field(m, "nonce") {
            Some(b) => b,
            None => return None,
        };
        Some(Invite { v, side, public_key, nonce })
    }

    /// The blob to send. An invite of the current format reads back.
    pub fn encode(&self) -> (r: String)
        ensures
            r@ == wrapped(self@.tree()),
            unwrapped(r@) == Ok::<Cbor, InviteError>(self@.tree()),
            self.v == INVITE_FORMAT ==> read_invite(r@) == Ok::<InviteView, InviteError>(self@),
    {
        proof {
            invite_reads_back(self@);
            cbor::plain_deeper(self@.tree(), 1, cbor::MAX_DEPTH as nat);
        }
        encode_blob(self.to_item())
    }

    /// Read a blob. An invite of another format is refused by that name.
    pub fn decode(t: &str) -> (r: Result<Invite, InviteError>)
        ensures
            match r {
                Ok(i) => read_invite(t@) == Ok::<InviteView, InviteError>(i@),
                Err(e) => read_invite(t@) == Err::<InviteView, InviteError>(e),
            },
    {
        let item = match decode_blob(t) {
            Ok(item) => item,
            Err(e) => return Err(e),
        };
        match Invite::from_item(&item) {
            Some(me) => if me.v != INVITE_FORMAT {
                Err(InviteError::Version { found: me.v, expected: INVITE_FORMAT })
            } else {
                Ok(me)
            },
            None => Err(InviteError::Malformed),
        }
    }
}

// ---------------------------------------------------------------------------
// Offers.
// ---------------------------------------------------------------------------

/// The value of a [`GameOffer`].
#[verifier::ext_equal]
pub struct OfferView {
    pub v: u8,
    pub params: ParamsView,
    pub contract: Seq<u8>,
}

/// What the accepting player sends back: the parameters of the game, and the
/// contract that their build derives from them.
#[derive(Debug, PartialEq, Eq)]
pub struct GameOffer {
    pub v: u8,
    pub params: GameParams,
    pub contract: [u8; 32],
}

impl View for GameOffer {
    type V = OfferView;

    open spec fn view(&self) -> OfferView {
        OfferView { v: self.v, params: self.params@, contract: self.contract@ }
    }
}

impl Clone for GameOffer {
    fn clone(&self) -> (r: GameOffer)
        ensures
            r == *self,
    {
        GameOffer { v: self.v, params: self.params.clone(), contract: self.contract }
    }
}

impl OfferView {
    /// The offer as a CBOR document.
    pub open spec fn tree(self) -> Cbor {
        Cbor::Table(
            seq![
                cbor::row("v"@, Cbor::Int(self.v as int)),
                cbor::row("params"@, self.params.tree()),
                cbor::row("contract"@, Cbor::Bytes(self.contract)),
            ],
        )
    }

    /// The byte strings have the widths of keys, nonces and ids.
    pub open spec fn sized(self) -> bool {
        self.params.sized() && self.contract.len() == 32
    }
}

/// Read an offer of any format out of a document.
pub open spec fn parse_offer(c: Cbor) -> Option<OfferView> {
    match cbor::as_table(c) {
        Some(s) => match (
            cbor::number_at(s, "v"@, 255),
            delegate_api::params_at(s, "params"@),
            cbor::sized_at(s, "contract"@, 32),
        ) {
            (Some(v), Some(params), Some(contract)) => Some(
                OfferView { v: v as u8, params, contract },
            ),
            _ => None,
        },
        None => None,
    }
}

/// What reading a text as an offer gives.
pub open spec fn read_offer(t: Seq<char>) -> Result<OfferView, InviteError> {
    match unwrapped(t) {
        Ok(c) => match parse_offer(c) {
            Some(o) => if o.v == OFFER_FORMAT {
                Ok(o)
            } else {
                Err(InviteError::Version { found: o.v, expected: OFFER_FORMAT })
            },
            None => Err(InviteError::Malformed),
        },
        Err(e) => Err(e),
    }
}

/// An offer reads back from its document.
pub proof fn offer_reads_back(o: OfferView)
    requires
        o.sized(),
    ensures
        parse_offer(o.tree()) == Some(o),
        cbor::plain(o.tree(), 2),
{
    delegate_api::names_differ();
    reveal_with_fuel(cbor::plain, 3);
    types::params_read_back(o.params);
    let s = o.tree()->Table_0;
    cbor::present(s, 0, "v"@);
    cbor::present(s, 1, "params"@);
    cbor::present(s, 2, "contract"@);
}

impl GameOffer {
    /// An offer of the current format.
    pub fn new(params: GameParams, contract: [u8; 32]) -> (r: GameOffer)
        ensures
            r@ == (OfferView { v: OFFER_FORMAT, params: params@, contract: contract@ }),
    {
        GameOffer { v: OFFER_FORMAT, params, contract }
    }

    /// The offer as a CBOR document.
    pub fn to_item(&self) -> (r: Item)
        ensures
            r@ == self@.tree(),
    {
        let mut m: Vec<(Item, Item)> = Vec::new();
        cbor::push_row(&mut m, "v", Item::Int(self.v as i128));
        cbor::push_row(&mut m, "params", self.params.to_item());
        cbor::push_row(&mut m, "contract", cbor::bytes_item(self.contract.as_slice()));
        assert(cbor::pair_trees(m@) =~= self@.tree()->Table_0);
        Item::Table(m)
    }

    /// Read an offer of any format out of a CBOR document.
    pub fn from_item(item: &Item) -> (r: Option<GameOffer>)
        ensures
            match r {
                Some(o) => parse_offer(item@) == Some(o@),
                None => parse_offer(item@) is None,
            },
    {
        let m = match cbor::table_of(item) {
            Some(m) => m,
            None => return None,
        };
        let v: u8 = match byte_field(m, "v") {
            Some(v) => v,
            None => return None,
        };
        let params = match params_field(m, "params") {
            Some(p) => p,
            None => return None,
        };
        let contract = match cbor::field32(m, "contract") {
            Some(b) => b,
            None => return None,
        };
        Some(GameOffer { v, params, contract })
    }

    /// The blob to send back. An offer of the current format reads back.
    pub fn encode(&self) -> (r: String)
        ensures
            r@ == wrapped(self@.tree()),
            unwrapped(r@) == Ok::<Cbor, InviteError>(self@.tree()),
            self.v == OFFER_FORMAT ==> read_offer(r@) == Ok::<OfferView, InviteError>(self@),
    {
        proof {
            offer_reads_back(self@);
            cbor::plain_deeper(self@.tree(), 2, cbor::MAX_DEPTH as nat);
        }
        encode_blob(self.to_item())
    }

    /// Read a blob. An offer of another format is refused by that name.
    pub fn decode(t: &str) -> (r: Result<GameOffer, InviteError>)
        ensures
            match r {
                Ok(o) => read_offer(t@) == Ok::<OfferView, InviteError>(o@),
                Err(e) => read_offer(t@) == Err::<OfferView, InviteError>(e),
            },
    {
        let item = match decode_blob(t) {
            Ok(item) => item,
            Err(e) => return Err(e),
        };
        match GameOffer::from_item(&item) {
            Some(me) => if me.v != OFFER_FORMAT {
                Err(InviteError::Version { found: me.v, expected: OFFER_FORMAT })
            } else {
                Ok(me)
            },
            None => Err(InviteError::Malformed),
        }
    }
}

/// A blob of another format is refused by its number, and one that holds no
/// invite or no offer is not mistaken for one.
pub proof fn another_format_is_named(t: Seq<char>)
    ensures
        match read_invite(t) {
            Ok(i) => unwrapped(t) matches Ok(c) && parse_invite(c) == Some(i) && i.v
                == INVITE_FORMAT,
            Err(InviteError::Version { found, expected }) => found != expected && expected
                == INVITE_FORMAT && (unwrapped(t) matches Ok(c) && parse_invite(c) matches Some(i)
                && i.v == found),
            Err(InviteError::Base58) => base58_bytes(trimmed(t)) is None,
            Err(InviteError::Malformed) => base58_bytes(trimmed(t)) is Some,
        },
        match read_offer(t) {
            Ok(o) => unwrapped(t) matches Ok(c) && parse_offer(c) == Some(o) && o.v
                == OFFER_FORMAT,
            Err(InviteError::Version { found, expected }) => found != expected && expected
                == OFFER_FORMAT && (unwrapped(t) matches Ok(c) && parse_offer(c) matches Some(o)
                && o.v == found),
            Err(InviteError::Base58) => base58_bytes(trimmed(t)) is None,
            Err(InviteError::Malformed) => base58_bytes(trimmed(t)) is Some,
        },
{
}

/// White space around a blob makes no difference to what is read.
pub proof fn a_blob_may_be_padded(before: Seq<char>, t: Seq<char>, after: Seq<char>)
    requires
        forall|i: int| 0 <= i < before.len() ==> is_space(#[trigger] before[i]),
        forall|i: int| 0 <= i < after.len() ==> is_space(#[trigger] after[i]),
    ensures
        read_invite(before + t + after) == read_invite(t),
        read_offer(before + t + after) == read_offer(t),
{
    space_around_is_ignored(before, t, after);
}

} // verus!
