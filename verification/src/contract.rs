//! The contract: bytes in, bytes out.
//!
//! Every entry point reads the stored state, and every one normalizes it the
//! same way before use: what does not verify is dropped, then the rest is
//! evicted.

use vstd::prelude::*;
use crate::algebra;
use crate::cbor;
use crate::state;
use crate::state::{decode_delta, encode_delta, Delta, GameState, Summary};
use crate::types;
use crate::types::{GameParams, ParamsView, RecordView};

verus! {

/// Why the contract refused.
#[derive(Debug, PartialEq, Eq)]
pub enum ContractError {
    /// The bytes could not be read.
    Deser(String),
    /// An update was read, and refused.
    InvalidUpdateWithInfo { reason: String },
    /// An update of a form that is not known here.
    InvalidUpdate,
}

/// The value of a [`ContractError`].
pub enum ErrorView {
    Deser(Seq<char>),
    InvalidUpdateWithInfo { reason: Seq<char> },
    InvalidUpdate,
}

impl View for ContractError {
    type V = ErrorView;

    open spec fn view(&self) -> ErrorView {
        match self {
            ContractError::Deser(t) => ErrorView::Deser(t@),
            ContractError::InvalidUpdateWithInfo { reason } => ErrorView::InvalidUpdateWithInfo {
                reason: reason@,
            },
            ContractError::InvalidUpdate => ErrorView::InvalidUpdate,
        }
    }
}

/// Whether a state is one the contract accepts.
#[derive(Clone, Copy, Debug, PartialEq, Eq, Structural)]
pub enum ValidateResult {
    Valid,
    Invalid,
}

/// One update that arrived.
#[derive(Debug)]
pub enum UpdateData {
    State(Vec<u8>),
    Delta(Vec<u8>),
    /// Both halves of a two-step sync can arrive together.
    StateAndDelta { state: Vec<u8>, delta: Vec<u8> },
    /// Something about a related contract. This game has none.
    Related,
    /// A form of update that is not known here.
    Unknown,
}

/// The value of an [`UpdateData`].
pub enum UpdateView {
    State(Seq<u8>),
    Delta(Seq<u8>),
    StateAndDelta { state: Seq<u8>, delta: Seq<u8> },
    Related,
    Unknown,
}

impl View for UpdateData {
    type V = UpdateView;

    open spec fn view(&self) -> UpdateView {
        match self {
            UpdateData::State(s) => UpdateView::State(s@),
            UpdateData::Delta(d) => UpdateView::Delta(d@),
            UpdateData::StateAndDelta { state, delta } => UpdateView::StateAndDelta {
                state: state@,
                delta: delta@,
            },
            UpdateData::Related => UpdateView::Related,
            UpdateData::Unknown => UpdateView::Unknown,
        }
    }
}

/// The values of a list of updates.
pub open spec fn update_views(data: Seq<UpdateData>) -> Seq<UpdateView> {
    data.map_values(|u: UpdateData| u@)
}

/// What is said of parameters that cannot be read, where the bytes are CBOR.
pub const BAD_PARAMETERS: &'static str = "the parameters cannot be read";

/// What is said of a state that cannot be read, where the bytes are CBOR.
pub const BAD_STATE: &'static str = "the state cannot be read";

/// What is said of a delta that cannot be read, where the bytes are CBOR.
pub const BAD_DELTA: &'static str = "the delta cannot be read";

/// What is said of a summary that cannot be read, where the bytes are CBOR.
pub const BAD_SUMMARY: &'static str = "the summary cannot be read";

/// What is said of a state that holds a forgery.
pub const FORGED_STATE: &'static str = "state contains a record not signed by either player";

/// What is said of a delta that holds a forgery.
pub const FORGED_DELTA: &'static str = "delta contains a record not signed by either player";

// ---------------------------------------------------------------------------
// What the contract does.
// ---------------------------------------------------------------------------

/// The state in a byte string. No bytes are a game nobody has moved in yet.
pub open spec fn stored_state(raw: Seq<u8>) -> Option<Map<Seq<u8>, RecordView>> {
    if raw.len() == 0 {
        Some(Map::empty())
    } else {
        state::decoded_state(raw)
    }
}

/// A state with what does not verify dropped, and the rest evicted.
pub open spec fn normalized(
    m: Map<Seq<u8>, RecordView>,
    params: ParamsView,
) -> Map<Seq<u8>, RecordView> {
    state::merge_of(Map::empty(), m, params)
}

/// Every record of a list verifies.
pub open spec fn valid_list(list: Seq<RecordView>, params: ParamsView) -> bool {
    forall|i: int| 0 <= i < list.len() ==> (#[trigger] list[i]).valid(params)
}

/// The state after a whole state arrived.
pub open spec fn state_applied(
    m: Map<Seq<u8>, RecordView>,
    raw: Seq<u8>,
    params: ParamsView,
) -> Result<Map<Seq<u8>, RecordView>, ErrorView> {
    match stored_state(raw) {
        None => Err(ErrorView::Deser(cbor::complaint_of(raw, BAD_STATE@))),
        Some(incoming) => if state::valid_state(incoming, params) {
            Ok(state::merge_of(m, incoming, params))
        } else {
            Err(ErrorView::InvalidUpdateWithInfo { reason: FORGED_STATE@ })
        },
    }
}

/// The state after a delta arrived. No bytes are no delta.
pub open spec fn delta_applied(
    m: Map<Seq<u8>, RecordView>,
    raw: Seq<u8>,
    params: ParamsView,
) -> Result<Map<Seq<u8>, RecordView>, ErrorView> {
    if raw.len() == 0 {
        Ok(m)
    } else {
        match state::decoded_list(raw) {
            None => Err(ErrorView::Deser(cbor::complaint_of(raw, BAD_DELTA@))),
            Some(list) => if valid_list(list, params) {
                Ok(state::trimmed(state::absorbed_all(m, list, params), params))
            } else {
                Err(ErrorView::InvalidUpdateWithInfo { reason: FORGED_DELTA@ })
            },
        }
    }
}

/// The state after one update.
pub open spec fn update_applied(
    m: Map<Seq<u8>, RecordView>,
    update: UpdateView,
    params: ParamsView,
) -> Result<Map<Seq<u8>, RecordView>, ErrorView> {
    match update {
        UpdateView::State(raw) => state_applied(m, raw, params),
        UpdateView::Delta(raw) => delta_applied(m, raw, params),
        UpdateView::StateAndDelta { state, delta } => match state_applied(m, state, params) {
            Ok(next) => delta_applied(next, delta, params),
            Err(e) => Err(e),
        },
        UpdateView::Related => Ok(m),
        UpdateView::Unknown => Err(ErrorView::InvalidUpdate),
    }
}

/// The state after a list of updates; the first that is refused refuses them
/// all.
pub open spec fn updates_applied(
    m: Map<Seq<u8>, RecordView>,
    data: Seq<UpdateView>,
    params: ParamsView,
) -> Result<Map<Seq<u8>, RecordView>, ErrorView>
    decreases data.len(),
{
    if data.len() == 0 {
        Ok(m)
    } else {
        match updates_applied(m, data.drop_last(), params) {
            Ok(next) => update_applied(next, data.last(), params),
            Err(e) => Err(e),
        }
    }
}

/// The parameters and the normalized stored state.
pub open spec fn opened(
    parameters: Seq<u8>,
    raw: Seq<u8>,
) -> Result<(ParamsView, Map<Seq<u8>, RecordView>), ErrorView> {
    match types::decoded_params(parameters) {
        None => Err(ErrorView::Deser(cbor::complaint_of(parameters, BAD_PARAMETERS@))),
        Some(params) => match stored_state(raw) {
            None => Err(ErrorView::Deser(cbor::complaint_of(raw, BAD_STATE@))),
            Some(m) => Ok((params, normalized(m, params))),
        },
    }
}

/// The bytes of a delta: none where there is nothing to tell.
pub open spec fn delta_bytes(list: Seq<RecordView>) -> Seq<u8> {
    if list.len() == 0 {
        Seq::empty()
    } else {
        cbor::cbor_bytes(state::list_tree(list))
    }
}

/// The summary in a byte string. No bytes are a peer that holds nothing.
pub open spec fn stored_summary(raw: Seq<u8>) -> Option<Map<Seq<u8>, Seq<u8>>> {
    if raw.len() == 0 {
        Some(Map::empty())
    } else {
        state::decoded_summary(raw)
    }
}

/// What the sender of a summary is sent, or why nothing can be.
pub open spec fn delta_for(parameters: Seq<u8>, raw: Seq<u8>, summary: Seq<u8>) -> Result<
    Seq<u8>,
    ErrorView,
> {
    match opened(parameters, raw) {
        Err(e) => Err(e),
        Ok((params, m)) => match stored_summary(summary) {
            None => Err(ErrorView::Deser(cbor::complaint_of(summary, BAD_SUMMARY@))),
            Some(held) => Ok(delta_bytes(state::listing(state::lacking(m, held)))),
        },
    }
}

/// The error of bytes that cannot be read.
fn unreadable(raw: &[u8], what: &str) -> (r: ContractError)
    ensures
        r@ == ErrorView::Deser(cbor::complaint_of(raw@, what@)),
{
    ContractError::Deser(cbor::complaint(raw, what))
}

fn forged(what: &str) -> (r: ContractError)
    ensures
        r@ == (ErrorView::InvalidUpdateWithInfo { reason: what@ }),
{
    ContractError::InvalidUpdateWithInfo { reason: what.to_owned() }
}

/// Read a stored state. Empty bytes mean "nothing yet", not "malformed": a
/// contract is created before either player has moved.
pub fn decode_state(raw: &[u8]) -> (r: Result<GameState, ContractError>)
    ensures
        match r {
            Ok(s) => stored_state(raw@) == Some(s@),
            Err(e) => stored_state(raw@) is None && e@ == ErrorView::Deser(
                cbor::complaint_of(raw@, BAD_STATE@),
            ),
        },
{
    if raw.len() == 0 {
        return Ok(GameState::empty());
    }
    match GameState::decode(raw) {
        Some(s) => Ok(s),
        None => Err(unreadable(raw, BAD_STATE)),
    }
}

/// Read the contract's parameters.
pub fn decode_params(raw: &[u8]) -> (r: Result<GameParams, ContractError>)
    ensures
        match r {
            Ok(p) => types::decoded_params(raw@) == Some(p@),
            Err(e) => types::decoded_params(raw@) is None && e@ == ErrorView::Deser(
                cbor::complaint_of(raw@, BAD_PARAMETERS@),
            ),
        },
{
    match GameParams::decode(raw) {
        Some(p) => Ok(p),
        None => Err(unreadable(raw, BAD_PARAMETERS)),
    }
}

/// The validity predicate of whole states. Structural only: chess legality has
/// no part in it, or either player could destroy the game by signing one
/// garbage move.
pub fn check_valid(state: &GameState, params: &GameParams) -> (r: Result<(), ContractError>)
    ensures
        match r {
            Ok(_) => state::valid_state(state@, params@),
            Err(e) => !state::valid_state(state@, params@) && e@ == (
            ErrorView::InvalidUpdateWithInfo { reason: FORGED_STATE@ }),
        },
{
    if state.all_valid(params) {
        Ok(())
    } else {
        Err(forged(FORGED_STATE))
    }
}

/// Whether every record of a delta verifies.
fn delta_verifies(delta: &Delta, params: &GameParams) -> (r: bool)
    ensures
        r == valid_list(state::views(delta@), params@),
{
    let ghost list = state::views(delta@);
    let mut i: usize = 0;
    while i < delta.len()
        invariant
            i <= delta.len(),
            list == state::views(delta@),
            forall|j: int| 0 <= j < i ==> (#[trigger] list[j]).valid(params@),
        decreases delta.len() - i,
    {
        if !delta[i].verify(params) {
            assert(!list[i as int].valid(params@));
            return false;
        }
        i += 1;
    }
    true
}

/// Take in a whole state.
fn apply_state(game: &mut GameState, raw: &[u8], params: &GameParams) -> (r: Result<
    (),
    ContractError,
>)
    ensures
        match r {
            Ok(_) => state_applied(old(game)@, raw@, params@) == Ok::<_, ErrorView>(final(game)@),
            Err(e) => state_applied(old(game)@, raw@, params@) == Err::<
                Map<Seq<u8>, RecordView>,
                _,
            >(e@),
        },
{
    let incoming = match decode_state(raw) {
        Ok(s) => s,
        Err(e) => return Err(e),
    };
    match check_valid(&incoming, params) {
        Ok(_) => {},
        Err(e) => return Err(e),
    }
    game.merge(&incoming, params);
    Ok(())
}

/// Take in a delta. Every record is verified before any is absorbed.
fn apply_raw_delta(game: &mut GameState, raw: &[u8], params: &GameParams) -> (r: Result<
    (),
    ContractError,
>)
    ensures
        match r {
            Ok(_) => delta_applied(old(game)@, raw@, params@) == Ok::<_, ErrorView>(final(game)@),
            Err(e) => delta_applied(old(game)@, raw@, params@) == Err::<
                Map<Seq<u8>, RecordView>,
                _,
            >(e@),
        },
{
    if raw.len() == 0 {
        return Ok(());
    }
    let delta = match decode_delta(raw) {
        Some(d) => d,
        None => return Err(unreadable(raw, BAD_DELTA)),
    };
    if !delta_verifies(&delta, params) {
        return Err(forged(FORGED_DELTA));
    }
    game.apply_delta(&delta, params);
    Ok(())
}

/// Take in one update.
fn apply_update(game: &mut GameState, update: &UpdateData, params: &GameParams) -> (r: Result<
    (),
    ContractError,
>)
    ensures
        match r {
            Ok(_) => update_applied(old(game)@, update@, params@) == Ok::<_, ErrorView>(
                final(game)@,
            ),
            Err(e) => update_applied(old(game)@, update@, params@) == Err::<
                Map<Seq<u8>, RecordView>,
                _,
            >(e@),
        },
{
    match update {
        UpdateData::State(raw) => apply_state(game, raw.as_slice(), params),
        UpdateData::Delta(raw) => apply_raw_delta(game, raw.as_slice(), params),
        UpdateData::StateAndDelta { state, delta } => {
            match apply_state(game, state.as_slice(), params) {
                Ok(_) => apply_raw_delta(game, delta.as_slice(), params),
                Err(e) => Err(e),
            }
        },
        UpdateData::Related => Ok(()),
        UpdateData::Unknown => Err(ContractError::InvalidUpdate),
    }
}

/// Whether a state is one the contract accepts. A contract that holds no bytes
/// yet is a game nobody has moved in.
pub open spec fn validated(parameters: Seq<u8>, raw: Seq<u8>) -> Result<ValidateResult, ErrorView> {
    if raw.len() == 0 {
        Ok(ValidateResult::Valid)
    } else {
        match (types::decoded_params(parameters), state::decoded_state(raw)) {
            (None, _) => Err(ErrorView::Deser(cbor::complaint_of(parameters, BAD_PARAMETERS@))),
            (Some(_), None) => Err(ErrorView::Deser(cbor::complaint_of(raw, BAD_STATE@))),
            (Some(params), Some(m)) => Ok(
                if state::valid_state(m, params) {
                    ValidateResult::Valid
                } else {
                    ValidateResult::Invalid
                },
            ),
        }
    }
}

/// The contract's entry points.
pub struct Contract;

impl Contract {
    /// Whether a state is one the contract accepts.
    pub fn validate_state(parameters: &[u8], raw: &[u8]) -> (r: Result<
        ValidateResult,
        ContractError,
    >)
        ensures
            match r {
                Ok(v) => validated(parameters@, raw@) == Ok::<ValidateResult, ErrorView>(v),
                Err(e) => validated(parameters@, raw@) == Err::<ValidateResult, ErrorView>(e@),
            },
            if raw@.len() == 0 {
                r == Ok::<ValidateResult, ContractError>(ValidateResult::Valid)
            } else {
                match (types::decoded_params(parameters@), state::decoded_state(raw@)) {
                    (None, _) => r matches Err(e) && e@ == ErrorView::Deser(
                        cbor::complaint_of(parameters@, BAD_PARAMETERS@),
                    ),
                    (Some(_), None) => r matches Err(e) && e@ == ErrorView::Deser(
                        cbor::complaint_of(raw@, BAD_STATE@),
                    ),
                    (Some(params), Some(m)) => r == Ok::<ValidateResult, ContractError>(
                        if state::valid_state(m, params) {
                            ValidateResult::Valid
                        } else {
                            ValidateResult::Invalid
                        },
                    ),
                }
            },
    {
        if raw.len() == 0 {
            return Ok(ValidateResult::Valid);
        }
        let params = match decode_params(parameters) {
            Ok(p) => p,
            Err(e) => return Err(e),
        };
        let game = match decode_state(raw) {
            Ok(s) => s,
            Err(e) => return Err(e),
        };
        if game.all_valid(&params) {
            Ok(ValidateResult::Valid)
        } else {
            Ok(ValidateResult::Invalid)
        }
    }

    /// Read the parameters and the stored state, normalized.
    fn open(parameters: &[u8], raw: &[u8]) -> (r: Result<(GameParams, GameState), ContractError>)
        ensures
            match r {
                Ok((p, s)) => opened(parameters@, raw@) == Ok::<_, ErrorView>((p@, s@)),
                Err(e) => opened(parameters@, raw@) == Err::<
                    (ParamsView, Map<Seq<u8>, RecordView>),
                    _,
                >(e@),
            },
    {
        let params = match decode_params(parameters) {
            Ok(p) => p,
            Err(e) => return Err(e),
        };
        let game = match decode_state(raw) {
            Ok(s) => s.filter_valid(&params),
            Err(e) => return Err(e),
        };
        Ok((params, game))
    }

    /// The bytes of the state after a list of updates.
    pub fn update_state(parameters: &[u8], raw: &[u8], data: &Vec<UpdateData>) -> (r: Result<
        Vec<u8>,
        ContractError,
    >)
        ensures
            match opened(parameters@, raw@) {
                Err(e) => r matches Err(x) && x@ == e,
                Ok((params, m)) => match updates_applied(m, update_views(data@), params) {
                    Err(e) => r matches Err(x) && x@ == e,
                    Ok(next) => {
                        &&& r matches Ok(out)
                        &&& out@ == cbor::cbor_bytes(state::state_tree(next))
                        &&& stored_state(out@) == Some(next)
                    },
                },
            },
    {
        let (params, mut game) = match Contract::open(parameters, raw) {
            Ok(x) => x,
            Err(e) => return Err(e),
        };
        let ghost base = game@;
        let ghost all = update_views(data@);
        let mut i: usize = 0;
        while i < data.len()
            invariant
                i <= data.len(),
                all == update_views(data@),
                opened(parameters@, raw@) == Ok::<_, ErrorView>((params@, base)),
                updates_applied(base, all.take(i as int), params@) == Ok::<_, ErrorView>(game@),
            decreases data.len() - i,
        {
            assert(all.take(i + 1).drop_last() =~= all.take(i as int));
            assert(all.take(i + 1).last() == data@[i as int]@);
            match apply_update(&mut game, &data[i], &params) {
                Ok(_) => {},
                Err(e) => {
                    proof {
                        refused_stays_refused(base, all, params@, i + 1);
                    }
                    return Err(e);
                },
            }
            i += 1;
        }
        assert(all.take(i as int) =~= all);
        Ok(game.encode())
    }

    /// The bytes of the summary of a stored state. A peer that sends these very
    /// bytes is sent nothing.
    pub fn summarize_state(parameters: &[u8], raw: &[u8]) -> (r: Result<Vec<u8>, ContractError>)
        ensures
            match opened(parameters@, raw@) {
                Err(e) => r matches Err(x) && x@ == e,
                Ok((params, m)) => {
                    &&& r matches Ok(out)
                    &&& out@ == cbor::cbor_bytes(state::summary_tree(state::summary_of(m)))
                    &&& stored_summary(out@) == Some(state::summary_of(m))
                    &&& delta_for(parameters@, raw@, out@) == Ok::<Seq<u8>, ErrorView>(Seq::empty())
                },
            },
    {
        let (params, game) = match Contract::open(parameters, raw) {
            Ok(x) => x,
            Err(e) => return Err(e),
        };
        proof {
            a_peer_up_to_date_is_sent_nothing(game@);
        }
        Ok(game.summarize().encode())
    }

    /// The bytes of what the sender of a summary lacks. A peer that is up to
    /// date gets no bytes at all: the network skips a broadcast by looking at
    /// the encoded length.
    pub fn get_state_delta(parameters: &[u8], raw: &[u8], summary: &[u8]) -> (r: Result<
        Vec<u8>,
        ContractError,
    >)
        ensures
            match delta_for(parameters@, raw@, summary@) {
                Err(e) => r matches Err(x) && x@ == e,
                Ok(sent) => r matches Ok(out) && out@ == sent,
            },
            opened(parameters@, raw@) matches Ok((params, m)) ==> (stored_summary(summary@)
                matches Some(held) ==> (r matches Ok(out) && ({
                let list = state::listing(state::lacking(m, held));
                &&& out@.len() == 0 <==> list.len() == 0
                &&& list.len() > 0 ==> state::decoded_list(out@) == Some(list)
            }))),
    {
        let (params, game) = match Contract::open(parameters, raw) {
            Ok(x) => x,
            Err(e) => return Err(e),
        };
        // An empty summary means the peer holds nothing, not that it is up to
        // date.
        let held = if summary.len() == 0 {
            Summary::new()
        } else {
            match Summary::decode(summary) {
                Some(s) => s,
                None => return Err(unreadable(summary, BAD_SUMMARY)),
            }
        };
        let delta = game.delta_against(&held);
        assert(state::views(delta@).len() == delta@.len());
        if delta.len() == 0 {
            let none: Vec<u8> = Vec::new();
            assert(none@ =~= delta_bytes(state::views(delta@)));
            return Ok(none);
        }
        Ok(encode_delta(&delta))
    }
}

/// Once an update is refused, so is every list that begins with it.
proof fn refused_stays_refused(
    m: Map<Seq<u8>, RecordView>,
    data: Seq<UpdateView>,
    params: ParamsView,
    n: int,
)
    requires
        0 <= n <= data.len(),
        updates_applied(m, data.take(n), params) is Err,
    ensures
        updates_applied(m, data, params) == updates_applied(m, data.take(n), params),
    decreases data.len(),
{
    if n == data.len() {
        assert(data.take(n) =~= data);
    } else {
        assert(data.drop_last().take(n) =~= data.take(n));
        refused_stays_refused(m, data.drop_last(), params, n);
    }
}

// ---------------------------------------------------------------------------
// Laws.
// ---------------------------------------------------------------------------

/// A record that was read has ids and keys of the right sizes.
proof fn parsed_is_sized(c: cbor::Cbor)
    ensures
        types::parse_record(c) matches Some(r) ==> r.sized(),
{
}

/// A state that was read files every record under its own id.
proof fn filed_is_well_formed(list: Seq<RecordView>)
    requires
        forall|i: int| 0 <= i < list.len() ==> (#[trigger] list[i]).sized(),
    ensures
        state::filed(list) matches Some(m) ==> state::well_formed(m),
    decreases list.len(),
{
    if list.len() > 0 {
        assert(list[list.len() - 1].sized());
        filed_is_well_formed(list.drop_last());
        match state::filed(list.drop_last()) {
            Some(m) => {
                assert(m.insert(list.last().id(), list.last()).dom() =~= m.dom().insert(
                    list.last().id(),
                ));
            },
            None => {},
        }
    }
}

/// A list that was read is made of records of the right sizes.
proof fn decoded_list_is_sized(raw: Seq<u8>)
    ensures
        state::decoded_list(raw) matches Some(list) ==> forall|i: int|
            0 <= i < list.len() ==> (#[trigger] list[i]).sized(),
{
    match state::decoded_list(raw) {
        Some(list) => {
            let s = cbor::as_list(cbor::document(raw)->0)->0;
            assert forall|i: int| 0 <= i < list.len() implies (#[trigger] list[i]).sized() by {
                assert(types::parse_record(s[i]) is Some);
                parsed_is_sized(s[i]);
            }
        },
        None => {},
    }
}

/// A stored state that can be read is well formed.
pub proof fn stored_is_well_formed(raw: Seq<u8>)
    ensures
        stored_state(raw) matches Some(m) ==> state::well_formed(m),
{
    decoded_list_is_sized(raw);
    match state::decoded_list(raw) {
        Some(list) => filed_is_well_formed(list),
        None => {},
    }
}

/// Normalizing gives a sound state with nothing left to evict, and changes
/// nothing in one that is like that already.
pub proof fn normalizing_settles(m: Map<Seq<u8>, RecordView>, params: ParamsView)
    requires
        state::well_formed(m),
    ensures
        algebra::sound(normalized(m, params), params),
        algebra::settled(normalized(m, params), params),
        algebra::sound(m, params) && algebra::settled(m, params) ==> normalized(m, params) == m,
{
    algebra::merge_is_sound(Map::empty(), m, params);
    if algebra::sound(m, params) && algebra::settled(m, params) {
        algebra::empty_is_the_identity(m, params);
    }
}

/// Absorbing records keeps a state sound.
proof fn absorbing_is_sound(
    m: Map<Seq<u8>, RecordView>,
    list: Seq<RecordView>,
    params: ParamsView,
)
    requires
        algebra::sound(m, params),
        forall|i: int| 0 <= i < list.len() ==> (#[trigger] list[i]).sized(),
    ensures
        algebra::sound(state::absorbed_all(m, list, params), params),
    decreases list.len(),
{
    if list.len() > 0 {
        absorbing_is_sound(m, list.drop_last(), params);
        let before = state::absorbed_all(m, list.drop_last(), params);
        let r = list.last();
        assert(list[list.len() - 1].sized());
        assert(before.insert(r.id(), r).dom() =~= before.dom().insert(r.id()));
    }
}

/// Whatever arrives, the state the contract stores is sound and has nothing
/// left to evict.
pub proof fn updates_keep_the_state_sound(
    m: Map<Seq<u8>, RecordView>,
    data: Seq<UpdateView>,
    params: ParamsView,
)
    requires
        algebra::sound(m, params),
        algebra::settled(m, params),
    ensures
        updates_applied(m, data, params) matches Ok(next) ==> algebra::sound(next, params)
            && algebra::settled(next, params),
    decreases data.len(),
{
    if data.len() > 0 {
        updates_keep_the_state_sound(m, data.drop_last(), params);
        match updates_applied(m, data.drop_last(), params) {
            Ok(x) => {
                match data.last() {
                    UpdateView::State(raw) => state_keeps_sound(x, raw, params),
                    UpdateView::Delta(raw) => delta_keeps_sound(x, raw, params),
                    UpdateView::StateAndDelta { state, delta } => {
                        state_keeps_sound(x, state, params);
                        match state_applied(x, state, params) {
                            Ok(y) => delta_keeps_sound(y, delta, params),
                            Err(_) => {},
                        }
                    },
                    _ => {},
                }
            },
            Err(_) => {},
        }
    }
}

proof fn state_keeps_sound(m: Map<Seq<u8>, RecordView>, raw: Seq<u8>, params: ParamsView)
    requires
        algebra::sound(m, params),
    ensures
        state_applied(m, raw, params) matches Ok(next) ==> algebra::sound(next, params)
            && algebra::settled(next, params),
{
    stored_is_well_formed(raw);
    match stored_state(raw) {
        Some(incoming) => algebra::merge_is_sound(m, incoming, params),
        None => {},
    }
}

proof fn delta_keeps_sound(m: Map<Seq<u8>, RecordView>, raw: Seq<u8>, params: ParamsView)
    requires
        algebra::sound(m, params),
        algebra::settled(m, params),
    ensures
        delta_applied(m, raw, params) matches Ok(next) ==> algebra::sound(next, params)
            && algebra::settled(next, params),
{
    decoded_list_is_sized(raw);
    match state::decoded_list(raw) {
        Some(list) => {
            absorbing_is_sound(m, list, params);
            let u = state::absorbed_all(m, list, params);
            algebra::trimming_is_sound(u, params);
            algebra::eviction_is_idempotent(u, params);
        },
        None => {},
    }
}

/// The state the contract stores is bounded, whatever anyone sends.
pub proof fn the_stored_state_is_bounded(
    parameters: Seq<u8>,
    raw: Seq<u8>,
    data: Seq<UpdateView>,
)
    ensures
        opened(parameters, raw) matches Ok((params, m)) ==> (updates_applied(m, data, params)
            matches Ok(next) ==> next.len() <= 2 * algebra::player_bound()),
{
    match opened(parameters, raw) {
        Ok((params, m)) => {
            stored_is_well_formed(raw);
            normalizing_settles(stored_state(raw)->0, params);
            updates_keep_the_state_sound(m, data, params);
            match updates_applied(m, data, params) {
                Ok(next) => algebra::the_state_is_bounded(next, params),
                Err(_) => {},
            }
        },
        Err(_) => {},
    }
}

/// A peer that holds what the contract stores is sent no bytes.
pub proof fn a_peer_up_to_date_is_sent_nothing(m: Map<Seq<u8>, RecordView>)
    ensures
        delta_bytes(state::listing(state::lacking(m, state::summary_of(m)))) == Seq::<u8>::empty(),
{
    algebra::nothing_to_tell_oneself(m);
    assert(Map::<Seq<u8>, RecordView>::empty().dom() =~= Set::<Seq<u8>>::empty());
}

/// Where a state and a list name one id, they name one statement.
pub open spec fn coherent(m: Map<Seq<u8>, RecordView>, list: Seq<RecordView>) -> bool {
    &&& forall|i: int|
        0 <= i < list.len() ==> #[trigger] algebra::agree(m, algebra::single(list[i]))
    &&& forall|i: int, j: int|
        0 <= i < list.len() && 0 <= j < list.len() ==> #[trigger] algebra::agree(
            algebra::single(list[i]),
            algebra::single(list[j]),
        )
}

/// Taking in a delta is taking the union with all of it at once.
proof fn a_delta_is_a_union(
    m: Map<Seq<u8>, RecordView>,
    list: Seq<RecordView>,
    params: ParamsView,
)
    requires
        algebra::sound(m, params),
        valid_list(list, params),
        forall|i: int| 0 <= i < list.len() ==> (#[trigger] list[i]).sized(),
        coherent(m, list),
    ensures
        ({
            let all = state::absorbed_all(Map::empty(), list, params);
            &&& state::absorbed_all(m, list, params) == state::joined(m, all, params)
            &&& algebra::sound(all, params)
            &&& algebra::agree(m, all)
            &&& forall|k: Seq<u8>| #[trigger]
                all.contains_key(k) ==> exists|i: int|
                    0 <= i < list.len() && #[trigger] list[i] == all[k]
        }),
    decreases list.len(),
{
    let none = Map::<Seq<u8>, RecordView>::empty();
    let all = state::absorbed_all(none, list, params);
    if list.len() == 0 {
        assert(state::joined(m, all, params) =~= m);
    } else {
        let front = list.drop_last();
        let n = list.len() - 1;
        let r = list[n];
        assert forall|i: int| 0 <= i < front.len() implies #[trigger] algebra::agree(
            m,
            algebra::single(front[i]),
        ) by {
            assert(algebra::agree(m, algebra::single(list[i])));
        }
        assert forall|i: int, j: int|
            0 <= i < front.len() && 0 <= j < front.len() implies #[trigger] algebra::agree(
            algebra::single(front[i]),
            algebra::single(front[j]),
        ) by {
            assert(algebra::agree(algebra::single(list[i]), algebra::single(list[j])));
        }
        a_delta_is_a_union(m, front, params);
        let most = state::absorbed_all(none, front, params);
        let one = algebra::single(r);
        assert(algebra::agree(m, one));
        assert(algebra::sound(one, params)) by {
            assert(one.dom() =~= Set::empty().insert(r.id()));
        }
        assert(algebra::agree(most, one)) by {
            assert forall|k: Seq<u8>| #[trigger]
                most.contains_key(k) && one.contains_key(k) implies most[k].body == one[k].body
                && most[k].signer == one[k].signer by {
                let i = choose|i: int| 0 <= i < front.len() && #[trigger] front[i] == most[k];
                assert(algebra::agree(algebra::single(list[i]), algebra::single(list[n])));
                assert(most[k].id() == k);
                assert(algebra::single(list[i]).contains_key(k));
            }
        }
        assert(state::absorbed(most, r, params) =~= state::joined(most, one, params));
        assert(state::absorbed(state::joined(m, most, params), r, params) =~= state::joined(
            state::joined(m, most, params),
            one,
            params,
        ));
        algebra::union_associates(m, most, one, params);
        algebra::union_is_sound(most, one, params);
        assert forall|k: Seq<u8>| #[trigger] all.contains_key(k) implies exists|i: int|
            0 <= i < list.len() && #[trigger] list[i] == all[k] by {
            if all[k] == r {
                assert(list[n] == all[k]);
            } else {
                assert(most.contains_key(k));
                let i = choose|i: int| 0 <= i < front.len() && #[trigger] front[i] == most[k];
                assert(list[i] == all[k]);
            }
        }
        assert(algebra::agree(m, all)) by {
            assert forall|k: Seq<u8>| #[trigger]
                m.contains_key(k) && all.contains_key(k) implies m[k].body == all[k].body
                && m[k].signer == all[k].signer by {
                let i = choose|i: int| 0 <= i < list.len() && #[trigger] list[i] == all[k];
                assert(algebra::agree(m, algebra::single(list[i])));
                assert(algebra::single(list[i]).contains_key(k));
            }
        }
    }
}

/// A delta that arrives twice changes nothing the second time.
pub proof fn a_delta_twice_is_a_delta_once(
    m: Map<Seq<u8>, RecordView>,
    list: Seq<RecordView>,
    params: ParamsView,
)
    requires
        algebra::sound(m, params),
        valid_list(list, params),
        forall|i: int| 0 <= i < list.len() ==> (#[trigger] list[i]).sized(),
        coherent(m, list),
    ensures
        ({
            let once = state::trimmed(state::absorbed_all(m, list, params), params);
            state::trimmed(state::absorbed_all(once, list, params), params) == once
        }),
{
    let none = Map::<Seq<u8>, RecordView>::empty();
    let all = state::absorbed_all(none, list, params);
    a_delta_is_a_union(m, list, params);
    let u = state::joined(m, all, params);
    let once = state::trimmed(u, params);
    algebra::union_is_sound(m, all, params);
    algebra::trimming_is_sound(u, params);
    assert forall|i: int| 0 <= i < list.len() implies #[trigger] algebra::agree(
        u,
        algebra::single(list[i]),
    ) by {
        let one = algebra::single(list[i]);
        assert forall|k: Seq<u8>| #[trigger] u.contains_key(k) && one.contains_key(k) implies u[k].body
            == one[k].body && u[k].signer == one[k].signer by {
            if all.contains_key(k) && u[k] == all[k] {
                let j = choose|j: int| 0 <= j < list.len() && #[trigger] list[j] == all[k];
                assert(algebra::agree(algebra::single(list[j]), one));
                assert(algebra::single(list[j]).contains_key(k));
            } else {
                assert(algebra::agree(m, one));
                assert(m.contains_key(k));
            }
        }
    }
    assert(coherent(once, list)) by {
        assert forall|i: int| 0 <= i < list.len() implies #[trigger] algebra::agree(
            once,
            algebra::single(list[i]),
        ) by {
            let one = algebra::single(list[i]);
            assert(algebra::agree(u, one));
            assert forall|k: Seq<u8>| #[trigger]
                once.contains_key(k) && one.contains_key(k) implies once[k].body == one[k].body
                && once[k].signer == one[k].signer by {
                assert(u.contains_key(k) && one.contains_key(k));
            }
        }
    }
    a_delta_is_a_union(once, list, params);
    assert(algebra::agree(u, all)) by {
        assert forall|k: Seq<u8>| #[trigger] u.contains_key(k) && all.contains_key(k) implies u[k].body
            == all[k].body && u[k].signer == all[k].signer by {
            let j = choose|j: int| 0 <= j < list.len() && #[trigger] list[j] == all[k];
            assert(algebra::agree(u, algebra::single(list[j])));
            assert(algebra::single(list[j]).contains_key(k));
        }
    }
    algebra::trimming_distributes(u, all, params);
    assert(state::joined(u, all, params) =~= u) by {
        assert forall|k: Seq<u8>| #[trigger] all.contains_key(k) implies u.contains_key(k)
            && !state::displaces(all[k], u[k], params) by {
            if m.contains_key(k) {
                crate::bytes::lex_total(m[k].sig, all[k].sig);
            }
        }
    }
}

/// A batch of updates is taken one after another, and as a whole or not at all:
/// what comes first is applied first, and one that is refused refuses the batch.
pub proof fn a_batch_is_taken_whole(
    m: Map<Seq<u8>, RecordView>,
    a: Seq<UpdateView>,
    b: Seq<UpdateView>,
    params: ParamsView,
)
    ensures
        updates_applied(m, a + b, params) == match updates_applied(m, a, params) {
            Ok(next) => updates_applied(next, b, params),
            Err(e) => Err(e),
        },
    decreases b.len(),
{
    if b.len() == 0 {
        assert(a + b =~= a);
    } else {
        a_batch_is_taken_whole(m, a, b.drop_last(), params);
        assert((a + b).drop_last() =~= a + b.drop_last());
        assert((a + b).last() == b.last());
    }
}

/// One forgery spoils an update: a state or a delta that can be read is taken
/// exactly if every record in it is genuine, and is refused for the forgery
/// otherwise. News of other contracts change nothing, and an unknown form of
/// update is refused.
pub proof fn one_forgery_spoils_an_update(
    m: Map<Seq<u8>, RecordView>,
    incoming: Map<Seq<u8>, RecordView>,
    list: Seq<RecordView>,
    as_state: Seq<u8>,
    as_delta: Seq<u8>,
    params: ParamsView,
)
    requires
        as_state.len() > 0,
        as_delta.len() > 0,
        state::decoded_state(as_state) == Some(incoming),
        state::decoded_list(as_delta) == Some(list),
    ensures
        update_applied(m, UpdateView::State(as_state), params) is Ok <==> forall|k: Seq<u8>|
            #[trigger] incoming.contains_key(k) ==> incoming[k].valid(params),
        update_applied(m, UpdateView::State(as_state), params) matches Err(e) ==> e
            is InvalidUpdateWithInfo,
        update_applied(m, UpdateView::Delta(as_delta), params) is Ok <==> forall|i: int|
            0 <= i < list.len() ==> (#[trigger] list[i]).valid(params),
        update_applied(m, UpdateView::Delta(as_delta), params) matches Err(e) ==> e
            is InvalidUpdateWithInfo,
        update_applied(m, UpdateView::StateAndDelta { state: as_state, delta: as_delta }, params)
            is Ok <==> update_applied(m, UpdateView::State(as_state), params) is Ok
            && update_applied(m, UpdateView::Delta(as_delta), params) is Ok,
        update_applied(m, UpdateView::Related, params) == Ok::<_, ErrorView>(m),
        update_applied(m, UpdateView::Unknown, params) == Err::<
            Map<Seq<u8>, RecordView>,
            ErrorView,
        >(ErrorView::InvalidUpdate),
{
}

/// Nothing is nothing: an empty state is a game nobody has moved in, an empty
/// delta brings nothing, and a peer that says nothing of what it holds is sent
/// everything.
pub proof fn no_bytes_are_no_records(m: Map<Seq<u8>, RecordView>, params: ParamsView)
    requires
        algebra::sound(m, params),
        algebra::settled(m, params),
    ensures
        stored_state(Seq::empty()) == Some(Map::<Seq<u8>, RecordView>::empty()),
        update_applied(m, UpdateView::Delta(Seq::empty()), params) == Ok::<_, ErrorView>(m),
        update_applied(m, UpdateView::State(Seq::empty()), params) == Ok::<_, ErrorView>(m),
        stored_summary(Seq::empty()) matches Some(held) && state::lacking(m, held) == m,
{
    algebra::empty_is_the_identity(m, params);
    let none = Map::<Seq<u8>, Seq<u8>>::empty();
    assert(state::lacking(m, none) =~= m);
}

/// A state is accepted as it is exactly where it would be accepted as an update,
/// whatever is held already; and what the contract makes of a state by taking
/// updates is a state that it accepts.
pub proof fn what_is_accepted_is_accepted_everywhere(
    parameters: Seq<u8>,
    params: ParamsView,
    raw: Seq<u8>,
    m: Map<Seq<u8>, RecordView>,
    data: Seq<UpdateView>,
)
    requires
        types::decoded_params(parameters) == Some(params),
        algebra::sound(m, params),
        algebra::settled(m, params),
    ensures
        validated(parameters, raw) == Ok::<ValidateResult, ErrorView>(ValidateResult::Valid)
            <==> update_applied(m, UpdateView::State(raw), params) is Ok,
        validated(parameters, raw) == Ok::<ValidateResult, ErrorView>(ValidateResult::Invalid)
            <==> (update_applied(m, UpdateView::State(raw), params) matches Err(e) && e
            is InvalidUpdateWithInfo),
        updates_applied(m, data, params) matches Ok(next) ==> (stored_state(raw) == Some(next)
            ==> validated(parameters, raw) == Ok::<ValidateResult, ErrorView>(
            ValidateResult::Valid,
        )),
{
    updates_keep_the_state_sound(m, data, params);
}

/// Parameters that cannot be read are told of before anything else, and a stored
/// state that cannot be read is never taken for an empty game.
pub proof fn what_cannot_be_read_is_told(parameters: Seq<u8>, raw: Seq<u8>, summary: Seq<u8>)
    ensures
        types::decoded_params(parameters) is None ==> opened(parameters, raw) == Err::<
            (ParamsView, Map<Seq<u8>, RecordView>),
            ErrorView,
        >(ErrorView::Deser(cbor::complaint_of(parameters, BAD_PARAMETERS@))),
        raw.len() > 0 && state::decoded_state(raw) is None ==> opened(parameters, raw) is Err
            && delta_for(parameters, raw, summary) is Err,
        opened(parameters, raw) is Ok && summary.len() > 0 && state::decoded_summary(summary) is None
            ==> delta_for(parameters, raw, summary) is Err,
        opened(parameters, raw) is Err ==> delta_for(parameters, raw, summary) is Err,
{
}

} // verus!
