//! The commands of the command line: what each begins with, and what it prints.

use vstd::prelude::*;
use crate::delegate_api;
use crate::delegate_api::{EntropyQuality, Side};
use crate::flow;
use crate::flow::{Action, ActionView, Flow, FlowView, Outcome, OutcomeView};
use crate::invite;
use crate::invite::{to_base58, GameOffer, Invite};
use crate::output;
use crate::output::{render_game_list, render_key_list, render_status};
use crate::project;
use crate::session::{MigrateOutcome, MigrateView};
use crate::text;
use crate::text::{decimal_text, join2, join3, join5};

verus! {

/// The value of an [`Order`].
#[verifier::ext_equal]
pub enum OrderView {
    KeyNew { label: Seq<char> },
    KeyList,
    InviteNew { label: Seq<char>, side: Side },
    InviteAccept { label: Seq<char>, invite: Seq<char> },
    GameBind { label: Seq<char>, offer: Seq<char> },
    GameList,
    GameMigrate { label: Seq<char> },
    Show { label: Seq<char> },
    Move { label: Seq<char>, uci: Seq<char> },
    Resign { label: Seq<char> },
    DrawOffer { label: Seq<char> },
    DrawAccept { label: Seq<char> },
    DrawClaim { label: Seq<char> },
    Watch { label: Seq<char> },
}

/// A command that asks something of the node.
#[derive(Debug, PartialEq, Eq)]
pub enum Order {
    KeyNew { label: String },
    KeyList,
    InviteNew { label: String, side: Side },
    InviteAccept { label: String, invite: String },
    GameBind { label: String, offer: String },
    GameList,
    GameMigrate { label: String },
    Show { label: String },
    Move { label: String, uci: String },
    Resign { label: String },
    DrawOffer { label: String },
    DrawAccept { label: String },
    DrawClaim { label: String },
    Watch { label: String },
}

impl View for Order {
    type V = OrderView;

    open spec fn view(&self) -> OrderView {
        match self {
            Order::KeyNew { label } => OrderView::KeyNew { label: label@ },
            Order::KeyList => OrderView::KeyList,
            Order::InviteNew { label, side } => OrderView::InviteNew { label: label@, side: *side },
            Order::InviteAccept { label, invite } => OrderView::InviteAccept {
                label: label@,
                invite: invite@,
            },
            Order::GameBind { label, offer } => OrderView::GameBind {
                label: label@,
                offer: offer@,
            },
            Order::GameList => OrderView::GameList,
            Order::GameMigrate { label } => OrderView::GameMigrate { label: label@ },
            Order::Show { label } => OrderView::Show { label: label@ },
            Order::Move { label, uci } => OrderView::Move { label: label@, uci: uci@ },
            Order::Resign { label } => OrderView::Resign { label: label@ },
            Order::DrawOffer { label } => OrderView::DrawOffer { label: label@ },
            Order::DrawAccept { label } => OrderView::DrawAccept { label: label@ },
            Order::DrawClaim { label } => OrderView::DrawClaim { label: label@ },
            Order::Watch { label } => OrderView::Watch { label: label@ },
        }
    }
}

/// The command depends on the build of the contract.
pub open spec fn uses_contract(order: OrderView) -> bool {
    !(order is KeyNew || order is KeyList || order is InviteNew || order is GameList)
}

/// The label a command is about.
pub open spec fn label_of(order: OrderView) -> Seq<char> {
    match order {
        OrderView::KeyNew { label } => label,
        OrderView::KeyList => ""@,
        OrderView::InviteNew { label, .. } => label,
        OrderView::InviteAccept { label, .. } => label,
        OrderView::GameBind { label, .. } => label,
        OrderView::GameList => ""@,
        OrderView::GameMigrate { label } => label,
        OrderView::Show { label } => label,
        OrderView::Move { label, .. } => label,
        OrderView::Resign { label } => label,
        OrderView::DrawOffer { label } => label,
        OrderView::DrawAccept { label } => label,
        OrderView::DrawClaim { label } => label,
        OrderView::Watch { label } => label,
    }
}

/// What a command begins with, or why it cannot begin. Both random inputs come
/// from the caller.
pub open spec fn plan_of(order: OrderView, entropy: Seq<u8>, nonce: Seq<u8>, wasm: Seq<u8>) -> Result<
    (FlowView, ActionView),
    Seq<char>,
> {
    match order {
        OrderView::KeyNew { label } => Ok(
            (FlowView::Keying, flow::asking_for_a_key(label, entropy)),
        ),
        OrderView::KeyList | OrderView::GameList => Ok(
            (FlowView::Listing, ActionView::Ask(delegate_api::RequestView::ListGames)),
        ),
        OrderView::InviteNew { label, side } => Ok(
            (FlowView::Inviting { side, nonce }, flow::asking_for_a_key(label, entropy)),
        ),
        OrderView::InviteAccept { label, invite } => match invite::read_invite(invite) {
            Ok(i) => Ok(
                (
                    FlowView::Accepting { label, invite: i },
                    flow::asking_for_a_key(label, entropy),
                ),
            ),
            Err(e) => Err("decoding invite: "@ + e.sentence()),
        },
        OrderView::GameBind { label, offer } => match invite::read_offer(offer) {
            Ok(o) => Ok(flow::joining(label, o, wasm)),
            Err(e) => Err("decoding offer: "@ + e.sentence()),
        },
        OrderView::GameMigrate { label } => Ok(
            (
                FlowView::Migrating { label },
                ActionView::Ask(delegate_api::RequestView::ListGames),
            ),
        ),
        OrderView::Show { label } => Ok(flow::looking_up(label, flow::GoalView::View)),
        OrderView::Move { label, uci } => Ok(flow::looking_up(label, flow::GoalView::Play(uci))),
        OrderView::Resign { label } => Ok(flow::looking_up(label, flow::GoalView::Resign)),
        OrderView::DrawOffer { label } => Ok(flow::looking_up(label, flow::GoalView::DrawOffer)),
        OrderView::DrawAccept { label } => Ok(flow::looking_up(label, flow::GoalView::DrawAccept)),
        OrderView::DrawClaim { label } => Ok(flow::looking_up(label, flow::GoalView::DrawClaim)),
        OrderView::Watch { label } => Ok(flow::looking_up(label, flow::GoalView::Watch)),
    }
}

/// What is said of a key whose randomness is not to be relied on.
pub const DEGRADED_WARNING: &'static str =
    "warning: this key was generated with degraded entropy -- it is not securely random";

/// Whether there is something to warn of: a key made for its own sake whose
/// randomness is not to be relied on.
pub open spec fn warned(order: OrderView, outcome: OutcomeView) -> bool {
    order is KeyNew && (outcome matches OutcomeView::Keyed { entropy, .. } && entropy
        == EntropyQuality::Degraded)
}

/// The line on a migration.
pub open spec fn migration_line(label: Seq<char>, m: MigrateView) -> Seq<char> {
    match m {
        MigrateView::AlreadyCurrent { contract } => label + " is already on contract "@
            + invite::base58(contract),
        MigrateView::Migrated { from, to, records } => label + " migrated from contract "@
            + invite::base58(from) + " to contract "@ + invite::base58(to) + ", "@ + text::decimal(
            records,
        ) + " record(s)"@,
    }
}

/// What a command prints of its outcome.
pub open spec fn printed(order: OrderView, outcome: OutcomeView) -> Seq<Seq<char>> {
    match outcome {
        OutcomeView::Keyed { public_key, .. } => seq![
            label_of(order) + ": "@ + invite::base58(public_key),
        ],
        OutcomeView::Listed(games) => if order is KeyList {
            output::keys_rendered(games)
        } else {
            output::games_rendered(games)
        },
        OutcomeView::Invited(i) => seq![invite::wrapped(i.tree())],
        OutcomeView::Offered(o) => seq![invite::wrapped(o.tree())],
        OutcomeView::Bound(id) => seq![
            label_of(order) + " bound to contract "@ + invite::base58(id),
        ],
        OutcomeView::Migrated(m) => seq![migration_line(label_of(order), m)],
        OutcomeView::Opened(scene) => output::status_rendered(label_of(order), scene.status),
        OutcomeView::Moved(status) => output::status_rendered(label_of(order), status),
        OutcomeView::Watched => Seq::empty(),
    }
}

fn write_migration(label: &str, m: MigrateOutcome) -> (r: String)
    ensures
        r@ == migration_line(label@, m@),
{
    match m {
        MigrateOutcome::AlreadyCurrent { contract } => join3(
            label,
            " is already on contract ",
            to_base58(contract.as_slice()).as_str(),
        ),
        MigrateOutcome::Migrated { from, to, records } => {
            let start = join5(
                label,
                " migrated from contract ",
                to_base58(from.as_slice()).as_str(),
                " to contract ",
                to_base58(to.as_slice()).as_str(),
            );
            let count = decimal_text(records as u64);
            let middle = join3(start.as_str(), ", ", count.as_str());
            join2(middle.as_str(), " record(s)")
        },
    }
}

/// One line.
fn line(t: String) -> (r: Vec<String>)
    ensures
        project::text_views(r@) == seq![t@],
{
    let mut out: Vec<String> = Vec::new();
    out.push(t);
    assert(project::text_views(out@) =~= seq![t@]);
    out
}

impl Order {
    /// Whether the command depends on the build of the contract, so that it has
    /// to be read first.
    pub fn needs_contract(&self) -> (r: bool)
        ensures
            r == uses_contract(self@),
    {
        match self {
            Order::KeyNew { .. } => false,
            Order::KeyList => false,
            Order::InviteNew { .. } => false,
            Order::GameList => false,
            _ => true,
        }
    }

    /// The label the command is about.
    pub fn label(&self) -> (r: &str)
        ensures
            r@ == label_of(self@),
    {
        match self {
            Order::KeyNew { label } => label.as_str(),
            Order::KeyList => "",
            Order::InviteNew { label, .. } => label.as_str(),
            Order::InviteAccept { label, .. } => label.as_str(),
            Order::GameBind { label, .. } => label.as_str(),
            Order::GameList => "",
            Order::GameMigrate { label } => label.as_str(),
            Order::Show { label } => label.as_str(),
            Order::Move { label, .. } => label.as_str(),
            Order::Resign { label } => label.as_str(),
            Order::DrawOffer { label } => label.as_str(),
            Order::DrawAccept { label } => label.as_str(),
            Order::DrawClaim { label } => label.as_str(),
            Order::Watch { label } => label.as_str(),
        }
    }

    /// What the command begins with, or why it cannot begin.
    pub fn plan(&self, entropy: [u8; 32], nonce: [u8; 16], wasm: &[u8]) -> (r: Result<
        (Flow, Action),
        String,
    >)
        ensures
            match r {
                Ok((f, a)) => plan_of(self@, entropy@, nonce@, wasm@) == Ok::<
                    (FlowView, ActionView),
                    Seq<char>,
                >((f@, a@)),
                Err(why) => plan_of(self@, entropy@, nonce@, wasm@) == Err::<
                    (FlowView, ActionView),
                    Seq<char>,
                >(why@),
            },
    {
        match self {
            Order::KeyNew { label } => Ok(flow::new_key(label.as_str(), entropy)),
            Order::KeyList | Order::GameList => Ok(flow::list_games()),
            Order::InviteNew { label, side } => Ok(
                flow::invite_new(label.as_str(), *side, entropy, nonce),
            ),
            Order::InviteAccept { label, invite } => match Invite::decode(invite.as_str()) {
                Ok(i) => Ok(flow::invite_accept(label.as_str(), &i, entropy)),
                Err(e) => Err(join2("decoding invite: ", e.message().as_str())),
            },
            Order::GameBind { label, offer } => match GameOffer::decode(offer.as_str()) {
                Ok(o) => Ok(flow::game_bind(label.as_str(), &o, wasm)),
                Err(e) => Err(join2("decoding offer: ", e.message().as_str())),
            },
            Order::GameMigrate { label } => Ok(flow::migrate_label(label.as_str())),
            Order::Show { label } => Ok(flow::open_game_view(label.as_str())),
            Order::Move { label, uci } => Ok(flow::play_move(label.as_str(), uci.as_str())),
            Order::Resign { label } => Ok(flow::resign(label.as_str())),
            Order::DrawOffer { label } => Ok(flow::draw_offer(label.as_str())),
            Order::DrawAccept { label } => Ok(flow::draw_accept(label.as_str())),
            Order::DrawClaim { label } => Ok(flow::draw_claim(label.as_str())),
            Order::Watch { label } => Ok(flow::watch_label(label.as_str())),
        }
    }

    /// What the command prints of its outcome.
    pub fn print(&self, outcome: &Outcome) -> (r: Vec<String>)
        ensures
            project::text_views(r@) == printed(self@, outcome@),
    {
        match outcome {
            Outcome::Keyed { public_key, .. } => line(
                join3(self.label(), ": ", to_base58(public_key.as_slice()).as_str()),
            ),
            Outcome::Listed(games) => match self {
                Order::KeyList => render_key_list(games),
                _ => render_game_list(games),
            },
            Outcome::Invited(i) => line(i.encode()),
            Outcome::Offered(o) => line(o.encode()),
            Outcome::Bound(id) => line(
                join3(self.label(), " bound to contract ", to_base58(id.as_slice()).as_str()),
            ),
            Outcome::Migrated(m) => line(write_migration(self.label(), *m)),
            Outcome::Opened(view) => render_status(self.label(), &view.status),
            Outcome::Moved(status) => render_status(self.label(), status),
            Outcome::Watched => {
                let out: Vec<String> = Vec::new();
                assert(project::text_views(out@) =~= Seq::empty());
                out
            },
        }
    }

    /// What to warn of, beside what is printed.
    pub fn warning(&self, outcome: &Outcome) -> (r: Option<&'static str>)
        ensures
            r is Some <==> warned(self@, outcome@),
            match r {
                Some(t) => t@ == DEGRADED_WARNING@ && self@ is KeyNew && (outcome@ matches
                    OutcomeView::Keyed { entropy, .. } && entropy == EntropyQuality::Degraded),
                None => !(self@ is KeyNew && (outcome@ matches OutcomeView::Keyed { entropy, .. }
                    && entropy == EntropyQuality::Degraded)),
            },
    {
        match (self, outcome) {
            (Order::KeyNew { .. }, Outcome::Keyed { entropy: EntropyQuality::Degraded, .. }) => Some(
                DEGRADED_WARNING,
            ),
            _ => None,
        }
    }
}

/// A command that does not ask for the build of the contract is the same under
/// every build: it begins alike, and each answer ends it alike.
pub proof fn only_some_commands_depend_on_the_build(
    order: OrderView,
    entropy: Seq<u8>,
    nonce: Seq<u8>,
    ours: Seq<u8>,
    theirs: Seq<u8>,
    event: flow::EventView,
)
    requires
        !uses_contract(order),
    ensures
        plan_of(order, entropy, nonce, ours) == plan_of(order, entropy, nonce, theirs),
        plan_of(order, entropy, nonce, ours) matches Ok((f, a)) && {
            &&& a is Ask
            &&& flow::stepped(f, event, ours) == flow::stepped(f, event, theirs)
            &&& flow::stepped(f, event, ours).0 is Finished
        },
{
}

/// A command line and a panel that are given the same wish do the same: they
/// run the same flow from the same first step, and where one cannot read what was
/// pasted, neither can the other.
pub proof fn the_panel_does_the_same(
    label: Seq<char>,
    side: Side,
    pasted: Seq<char>,
    uci: Seq<char>,
    entropy: Seq<u8>,
    nonce: Seq<u8>,
    wasm: Seq<u8>,
)
    ensures
        same_run(
            OrderView::InviteNew { label, side },
            crate::panel::CmdView::NewGame { label, side },
            entropy,
            nonce,
            wasm,
        ),
        same_run(
            OrderView::InviteAccept { label, invite: pasted },
            crate::panel::CmdView::Accept { label, invite: pasted },
            entropy,
            nonce,
            wasm,
        ),
        same_run(
            OrderView::GameBind { label, offer: pasted },
            crate::panel::CmdView::Bind { label, offer: pasted },
            entropy,
            nonce,
            wasm,
        ),
        same_run(OrderView::GameList, crate::panel::CmdView::ListGames, entropy, nonce, wasm),
        same_run(OrderView::KeyList, crate::panel::CmdView::ListGames, entropy, nonce, wasm),
        same_run(
            OrderView::GameMigrate { label },
            crate::panel::CmdView::Migrate { label },
            entropy,
            nonce,
            wasm,
        ),
        same_run(
            OrderView::Show { label },
            crate::panel::CmdView::Open { label },
            entropy,
            nonce,
            wasm,
        ),
        same_run(
            OrderView::Move { label, uci },
            crate::panel::CmdView::Play { label, uci },
            entropy,
            nonce,
            wasm,
        ),
        same_run(
            OrderView::Resign { label },
            crate::panel::CmdView::Resign { label },
            entropy,
            nonce,
            wasm,
        ),
        same_run(
            OrderView::DrawOffer { label },
            crate::panel::CmdView::DrawOffer { label },
            entropy,
            nonce,
            wasm,
        ),
        same_run(
            OrderView::DrawAccept { label },
            crate::panel::CmdView::DrawAccept { label },
            entropy,
            nonce,
            wasm,
        ),
        same_run(
            OrderView::DrawClaim { label },
            crate::panel::CmdView::DrawClaim { label },
            entropy,
            nonce,
            wasm,
        ),
{
}

/// An order and a command of the panel run the same flow, or both fail.
pub open spec fn same_run(
    order: OrderView,
    cmd: crate::panel::CmdView,
    entropy: Seq<u8>,
    nonce: Seq<u8>,
    wasm: Seq<u8>,
) -> bool {
    match plan_of(order, entropy, nonce, wasm) {
        Ok((f, a)) => crate::panel::job_of(cmd, entropy, nonce, wasm)
            == crate::panel::JobView::Run(f, a),
        Err(_) => crate::panel::job_of(cmd, entropy, nonce, wasm) is Fail,
    }
}

/// The label of an order is the one that the flow goes by, and what it is asked
/// to do is what it does: a move is played with the text that was given, an
/// invite is made for the side that was given, and the randomness is what came
/// from outside.
pub proof fn an_order_is_carried_out_as_given(
    order: OrderView,
    entropy: Seq<u8>,
    nonce: Seq<u8>,
    wasm: Seq<u8>,
)
    ensures
        plan_of(order, entropy, nonce, wasm) matches Ok((f, a)) ==> {
            &&& a matches ActionView::Ask(
                delegate_api::RequestView::CreateGameKey { label, caller_entropy },
            ) ==> label == label_of(order) && caller_entropy == Some(entropy)
            &&& f matches FlowView::Opening { label, goal } ==> {
                &&& label == label_of(order)
                &&& a == ActionView::Ask(delegate_api::RequestView::ListGames)
                &&& order matches OrderView::Move { uci, .. } ==> goal == flow::GoalView::Play(uci)
                &&& goal is Play <==> order is Move
                &&& goal is View <==> order is Show
                &&& goal is Watch <==> order is Watch
                &&& goal is Resign <==> order is Resign
                &&& goal is DrawOffer <==> order is DrawOffer
                &&& goal is DrawAccept <==> order is DrawAccept
                &&& goal is DrawClaim <==> order is DrawClaim
                &&& goal !is SignAt
            }
            &&& f matches FlowView::Migrating { label } ==> label == label_of(order)
            &&& f matches FlowView::Joining { label, .. } ==> label == label_of(order)
            &&& f matches FlowView::Accepting { label, .. } ==> label == label_of(order)
            &&& order matches OrderView::InviteNew { side, .. } ==> f == (FlowView::Inviting {
                side,
                nonce,
            })
            &&& a !is Put && a !is Update && a !is Report
        },
{
}

/// What is said of a game begins with the label that was given, and only
/// following a game to its end says nothing more.
pub proof fn what_is_said_begins_with_the_label(order: OrderView, outcome: OutcomeView)
    ensures
        outcome is Keyed || outcome is Bound || outcome is Migrated || outcome is Opened || outcome
            is Moved ==> printed(order, outcome).len() >= 1 && label_of(order).is_prefix_of(
            printed(order, outcome)[0],
        ),
        printed(order, outcome).len() == 0 <==> outcome is Watched,
{
    let label = label_of(order);
    if outcome is Keyed || outcome is Bound || outcome is Migrated || outcome is Opened || outcome
        is Moved {
        let line = printed(order, outcome)[0];
        assert(line.subrange(0, label.len() as int) =~= label);
    }
    if let OutcomeView::Listed(games) = outcome {
        assert(output::keys_rendered(games).len() > 0);
        assert(output::games_rendered(games).len() > 0);
    }
}

/// The list of keys has a line for every key, and the list of games one for every
/// game that is bound.
pub proof fn each_list_has_its_own_lines(games: Seq<delegate_api::GameSummaryView>)
    requires
        games.len() > 0,
    ensures
        printed(OrderView::KeyList, OutcomeView::Listed(games)) == games.map_values(
            |g: delegate_api::GameSummaryView| output::key_line(g),
        ),
        games.filter(|g: delegate_api::GameSummaryView| g.game_id is Some).len() > 0 ==> printed(
            OrderView::GameList,
            OutcomeView::Listed(games),
        ) == games.filter(|g: delegate_api::GameSummaryView| g.game_id is Some).map_values(
            |g: delegate_api::GameSummaryView| output::game_line(g),
        ),
{
    output::every_bound_game_has_a_line(games);
}

/// The line on a migration names the label, where the game came from and where it
/// went, in that order.
pub proof fn a_migration_is_told(label: Seq<char>, from: Seq<u8>, to: Seq<u8>, records: nat)
    ensures
        ({
            let line = migration_line(label, MigrateView::Migrated { from, to, records });
            (label + " migrated from contract "@ + invite::base58(from) + " to contract "@
                + invite::base58(to)).is_prefix_of(line)
        }),
{
    let line = migration_line(label, MigrateView::Migrated { from, to, records });
    let start = label + " migrated from contract "@ + invite::base58(from) + " to contract "@
        + invite::base58(to);
    assert(line.subrange(0, start.len() as int) =~= start);
}

/// Keys and invites are made, and keys and games listed, without the contract;
/// everything that reads, writes or follows a game needs it.
pub proof fn what_touches_a_game_uses_the_contract(
    order: OrderView,
    entropy: Seq<u8>,
    nonce: Seq<u8>,
    wasm: Seq<u8>,
)
    ensures
        order is KeyNew || order is KeyList || order is InviteNew || order is GameList
            ==> !uses_contract(order),
        plan_of(order, entropy, nonce, wasm) matches Ok((f, _)) ==> (f is Opening || f is Migrating
            || f is Joining || f is Accepting ==> uses_contract(order)),
{
}

/// A key that was made without the host is warned of, and one that was made with
/// it is not; nothing but making a key is warned of.
pub proof fn a_weak_key_is_warned_of(
    label: Seq<char>,
    key: Seq<u8>,
    entropy: EntropyQuality,
    order: OrderView,
    outcome: OutcomeView,
)
    ensures
        warned(
            OrderView::KeyNew { label },
            OutcomeView::Keyed { public_key: key, entropy },
        ) <==> entropy != EntropyQuality::HostBacked,
        outcome !is Keyed || order !is KeyNew ==> !warned(order, outcome),
{
}

} // verus!
