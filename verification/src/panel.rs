//! The panel of a graphical client: what each command does, and what is shown
//! of it afterwards.
//!
//! The connection has one owner, who takes one command at a time. Following a
//! game has an owner of its own: it lasts as long as the game does, and nothing
//! else waits for it.

use vstd::prelude::*;
use crate::bytes::same_text;
use crate::delegate_api;
use crate::delegate_api::{GameSummary, GameSummaryView, Side};
use crate::flow;
use crate::flow::{Action, ActionView, Flow, FlowView, Outcome, OutcomeView, SKEW_WARNING};
use crate::invite;
use crate::invite::{GameOffer, Invite};
use crate::project;
use crate::project::{Status, StatusView};
use crate::session;
use crate::session::{GameView, Scene};
use crate::state::GameState;
use crate::types::RecordView;

verus! {

// ---------------------------------------------------------------------------
// Commands.
// ---------------------------------------------------------------------------

/// The value of a [`Cmd`].
#[verifier::ext_equal]
pub enum CmdView {
    Connect,
    Reconnect,
    ListGames,
    NewGame { label: Seq<char>, side: Side },
    Accept { label: Seq<char>, invite: Seq<char> },
    Bind { label: Seq<char>, offer: Seq<char> },
    Open { label: Seq<char> },
    Migrate { label: Seq<char> },
    Play { label: Seq<char>, uci: Seq<char> },
    Resign { label: Seq<char> },
    DrawOffer { label: Seq<char> },
    DrawAccept { label: Seq<char> },
    DrawClaim { label: Seq<char> },
    Watch { label: Seq<char> },
}

/// What the user asked for.
#[derive(Debug, PartialEq, Eq)]
pub enum Cmd {
    Connect,
    /// Drop the connection, and make no new one until there is use for it. Sent
    /// where the address of the node changes.
    Reconnect,
    ListGames,
    NewGame { label: String, side: Side },
    Accept { label: String, invite: String },
    Bind { label: String, offer: String },
    Open { label: String },
    Migrate { label: String },
    Play { label: String, uci: String },
    Resign { label: String },
    DrawOffer { label: String },
    DrawAccept { label: String },
    DrawClaim { label: String },
    /// Follow a game until it is over.
    Watch { label: String },
}

impl View for Cmd {
    type V = CmdView;

    open spec fn view(&self) -> CmdView {
        match self {
            Cmd::Connect => CmdView::Connect,
            Cmd::Reconnect => CmdView::Reconnect,
            Cmd::ListGames => CmdView::ListGames,
            Cmd::NewGame { label, side } => CmdView::NewGame { label: label@, side: *side },
            Cmd::Accept { label, invite } => CmdView::Accept { label: label@, invite: invite@ },
            Cmd::Bind { label, offer } => CmdView::Bind { label: label@, offer: offer@ },
            Cmd::Open { label } => CmdView::Open { label: label@ },
            Cmd::Migrate { label } => CmdView::Migrate { label: label@ },
            Cmd::Play { label, uci } => CmdView::Play { label: label@, uci: uci@ },
            Cmd::Resign { label } => CmdView::Resign { label: label@ },
            Cmd::DrawOffer { label } => CmdView::DrawOffer { label: label@ },
            Cmd::DrawAccept { label } => CmdView::DrawAccept { label: label@ },
            Cmd::DrawClaim { label } => CmdView::DrawClaim { label: label@ },
            Cmd::Watch { label } => CmdView::Watch { label: label@ },
        }
    }
}

impl Clone for Cmd {
    fn clone(&self) -> (r: Cmd)
        ensures
            r@ == self@,
    {
        match self {
            Cmd::Connect => Cmd::Connect,
            Cmd::Reconnect => Cmd::Reconnect,
            Cmd::ListGames => Cmd::ListGames,
            Cmd::NewGame { label, side } => Cmd::NewGame { label: label.clone(), side: *side },
            Cmd::Accept { label, invite } => Cmd::Accept {
                label: label.clone(),
                invite: invite.clone(),
            },
            Cmd::Bind { label, offer } => Cmd::Bind {
                label: label.clone(),
                offer: offer.clone(),
            },
            Cmd::Open { label } => Cmd::Open { label: label.clone() },
            Cmd::Migrate { label } => Cmd::Migrate { label: label.clone() },
            Cmd::Play { label, uci } => Cmd::Play { label: label.clone(), uci: uci.clone() },
            Cmd::Resign { label } => Cmd::Resign { label: label.clone() },
            Cmd::DrawOffer { label } => Cmd::DrawOffer { label: label.clone() },
            Cmd::DrawAccept { label } => Cmd::DrawAccept { label: label.clone() },
            Cmd::DrawClaim { label } => Cmd::DrawClaim { label: label.clone() },
            Cmd::Watch { label } => Cmd::Watch { label: label.clone() },
        }
    }
}

/// The value of a [`Job`].
#[verifier::ext_equal]
pub enum JobView {
    Nothing,
    Run(FlowView, ActionView),
    Watch(Seq<char>),
    Fail(Seq<char>),
}

/// What the owner of the connection has to do for a command.
#[derive(Debug)]
pub enum Job {
    /// To be connected is all.
    Nothing,
    /// Run a flow.
    Run(Flow, Action),
    /// Hand a label to whoever follows games.
    Watch(String),
    /// What was pasted cannot be read.
    Fail(String),
}

impl View for Job {
    type V = JobView;

    open spec fn view(&self) -> JobView {
        match self {
            Job::Nothing => JobView::Nothing,
            Job::Run(f, a) => JobView::Run(f@, a@),
            Job::Watch(label) => JobView::Watch(label@),
            Job::Fail(why) => JobView::Fail(why@),
        }
    }
}

/// Looking a game up, for what the user wants of it.
pub open spec fn looking(label: Seq<char>, goal: flow::GoalView) -> JobView {
    JobView::Run(flow::looking_up(label, goal).0, flow::looking_up(label, goal).1)
}

/// What has to be done for a command. Both random inputs come from the caller.
pub open spec fn job_of(cmd: CmdView, entropy: Seq<u8>, nonce: Seq<u8>, wasm: Seq<u8>) -> JobView {
    match cmd {
        CmdView::Connect => JobView::Nothing,
        CmdView::Reconnect => JobView::Nothing,
        CmdView::ListGames => JobView::Run(
            FlowView::Listing,
            ActionView::Ask(delegate_api::RequestView::ListGames),
        ),
        CmdView::NewGame { label, side } => JobView::Run(
            FlowView::Inviting { side, nonce },
            flow::asking_for_a_key(label, entropy),
        ),
        CmdView::Accept { label, invite } => match invite::read_invite(invite) {
            Ok(i) => JobView::Run(
                FlowView::Accepting { label, invite: i },
                flow::asking_for_a_key(label, entropy),
            ),
            Err(e) => JobView::Fail(e.sentence()),
        },
        CmdView::Bind { label, offer } => match invite::read_offer(offer) {
            Ok(o) => JobView::Run(
                flow::joining(label, o, wasm).0,
                flow::joining(label, o, wasm).1,
            ),
            Err(e) => JobView::Fail(e.sentence()),
        },
        CmdView::Migrate { label } => JobView::Run(
            FlowView::Migrating { label },
            ActionView::Ask(delegate_api::RequestView::ListGames),
        ),
        CmdView::Open { label } => looking(label, flow::GoalView::View),
        CmdView::Play { label, uci } => looking(label, flow::GoalView::Play(uci)),
        CmdView::Resign { label } => looking(label, flow::GoalView::Resign),
        CmdView::DrawOffer { label } => looking(label, flow::GoalView::DrawOffer),
        CmdView::DrawAccept { label } => looking(label, flow::GoalView::DrawAccept),
        CmdView::DrawClaim { label } => looking(label, flow::GoalView::DrawClaim),
        CmdView::Watch { label } => JobView::Watch(label),
    }
}

fn run(begun: (Flow, Action)) -> (r: Job)
    ensures
        r@ == JobView::Run(begun.0@, begun.1@),
{
    Job::Run(begun.0, begun.1)
}

impl Cmd {
    /// What has to be done for the command.
    pub fn job(&self, entropy: [u8; 32], nonce: [u8; 16], wasm: &[u8]) -> (r: Job)
        ensures
            r@ == job_of(self@, entropy@, nonce@, wasm@),
    {
        match self {
            Cmd::Connect => Job::Nothing,
            Cmd::Reconnect => Job::Nothing,
            Cmd::ListGames => run(flow::list_games()),
            Cmd::NewGame { label, side } => run(
                flow::invite_new(label.as_str(), *side, entropy, nonce),
            ),
            Cmd::Accept { label, invite } => match Invite::decode(invite.as_str()) {
                Ok(i) => run(flow::invite_accept(label.as_str(), &i, entropy)),
                Err(e) => Job::Fail(e.message()),
            },
            Cmd::Bind { label, offer } => match GameOffer::decode(offer.as_str()) {
                Ok(o) => run(flow::game_bind(label.as_str(), &o, wasm)),
                Err(e) => Job::Fail(e.message()),
            },
            Cmd::Migrate { label } => run(flow::migrate_label(label.as_str())),
            Cmd::Open { label } => run(flow::open_game_view(label.as_str())),
            Cmd::Play { label, uci } => run(flow::play_move(label.as_str(), uci.as_str())),
            Cmd::Resign { label } => run(flow::resign(label.as_str())),
            Cmd::DrawOffer { label } => run(flow::draw_offer(label.as_str())),
            Cmd::DrawAccept { label } => run(flow::draw_accept(label.as_str())),
            Cmd::DrawClaim { label } => run(flow::draw_claim(label.as_str())),
            Cmd::Watch { label } => Job::Watch(label.clone()),
        }
    }
}

// ---------------------------------------------------------------------------
// What is shown.
// ---------------------------------------------------------------------------

/// The value of a [`Panel`].
#[verifier::ext_equal]
pub struct PanelView {
    pub games: Seq<GameSummaryView>,
    pub view: Option<Scene>,
    pub invite_blob: Option<(Seq<char>, Seq<char>)>,
    pub offer_blob: Option<(Seq<char>, Seq<char>)>,
    pub error: Option<Seq<char>>,
    pub watch_error: Option<Seq<char>>,
    pub skew: Option<Seq<char>>,
    pub busy: bool,
    pub connected: bool,
}

/// What every screen shows.
#[derive(Debug)]
pub struct Panel {
    pub games: Vec<GameSummary>,
    /// The game that was opened last.
    pub view: Option<GameView>,
    /// The invite that was made last, under the label it was made for.
    pub invite_blob: Option<(String, String)>,
    /// The offer that was made last, under the label it was made for.
    pub offer_blob: Option<(String, String)>,
    /// What went wrong with the last command.
    pub error: Option<String>,
    /// What went wrong with following a game.
    pub watch_error: Option<String>,
    /// That the opponent stayed behind.
    pub skew: Option<String>,
    pub busy: bool,
    pub connected: bool,
}

/// The value of a game that may be missing.
pub open spec fn scene_in(view: Option<GameView>) -> Option<Scene> {
    match view {
        Some(v) => Some(v@),
        None => None,
    }
}

/// The value of a labelled text that may be missing.
pub open spec fn blob_view(blob: Option<(String, String)>) -> Option<(Seq<char>, Seq<char>)> {
    match blob {
        Some((label, text)) => Some((label@, text@)),
        None => None,
    }
}

/// The value of a text that may be missing.
pub open spec fn words_view(words: Option<String>) -> Option<Seq<char>> {
    match words {
        Some(t) => Some(t@),
        None => None,
    }
}

impl View for Panel {
    type V = PanelView;

    open spec fn view(&self) -> PanelView {
        PanelView {
            games: delegate_api::summary_views(self.games@),
            view: scene_in(self.view),
            invite_blob: blob_view(self.invite_blob),
            offer_blob: blob_view(self.offer_blob),
            error: words_view(self.error),
            watch_error: words_view(self.watch_error),
            skew: words_view(self.skew),
            busy: self.busy,
            connected: self.connected,
        }
    }
}

/// A panel on which nothing happened yet.
pub open spec fn blank() -> PanelView {
    PanelView {
        games: Seq::empty(),
        view: None,
        invite_blob: None,
        offer_blob: None,
        error: None,
        watch_error: None,
        skew: None,
        busy: false,
        connected: false,
    }
}

/// The panel as a command is taken up. What went wrong before is forgotten; to
/// drop the connection is done at once.
pub open spec fn begun(p: PanelView, cmd: CmdView) -> PanelView {
    match cmd {
        CmdView::Reconnect => PanelView { connected: false, error: None, ..p },
        _ => PanelView { busy: true, error: None, ..p },
    }
}

/// The panel once there is a connection to carry the command out on. A game
/// that is about to be opened takes the place of the one shown before, which
/// must not be seen under its label meanwhile.
pub open spec fn ready(p: PanelView, cmd: CmdView) -> PanelView {
    PanelView {
        connected: true,
        view: if cmd is Open {
            None
        } else {
            p.view
        },
        ..p
    }
}

/// The label of a game that a command changed, and that is read again to show
/// it.
pub open spec fn to_show_again(cmd: CmdView) -> Option<Seq<char>> {
    match cmd {
        CmdView::Play { label, .. } => Some(label),
        CmdView::Resign { label } => Some(label),
        CmdView::DrawAccept { label } => Some(label),
        CmdView::DrawClaim { label } => Some(label),
        CmdView::Migrate { label } => Some(label),
        _ => None,
    }
}

/// The panel as a flow of a command comes to an outcome.
pub open spec fn settled(p: PanelView, cmd: CmdView, outcome: OutcomeView) -> PanelView {
    match outcome {
        OutcomeView::Listed(games) => PanelView { games, ..p },
        OutcomeView::Invited(i) => match cmd {
            CmdView::NewGame { label, .. } => PanelView {
                invite_blob: Some((label, invite::wrapped(i.tree()))),
                ..p
            },
            _ => p,
        },
        OutcomeView::Offered(o) => match cmd {
            CmdView::Accept { label, .. } => PanelView {
                offer_blob: Some((label, invite::wrapped(o.tree()))),
                ..p
            },
            _ => p,
        },
        OutcomeView::Bound(_) => PanelView { invite_blob: None, offer_blob: None, ..p },
        OutcomeView::Opened(scene) => PanelView { view: Some(scene), ..p },
        _ => p,
    }
}

/// What to run after a flow of a command came to an outcome.
pub open spec fn next_run(cmd: CmdView, outcome: OutcomeView) -> Option<(FlowView, ActionView)> {
    match outcome {
        OutcomeView::Moved(_) | OutcomeView::Migrated(_) => match to_show_again(cmd) {
            Some(label) => Some(flow::looking_up(label, flow::GoalView::View)),
            None => None,
        },
        _ => None,
    }
}

/// The panel as a command fails. Only where the connection is gone does the
/// panel say so.
pub open spec fn failed(p: PanelView, why: Seq<char>, lost: bool) -> PanelView {
    PanelView { error: Some(why), connected: p.connected && !lost, ..p }
}

/// The panel as a command ends, however it ended.
pub open spec fn ended(p: PanelView) -> PanelView {
    PanelView { busy: false, ..p }
}

/// The panel as following a game begins.
pub open spec fn watch_begun(p: PanelView) -> PanelView {
    PanelView { watch_error: None, skew: None, ..p }
}

/// The panel as there is news of a game. It shows where it is that game that is
/// shown.
pub open spec fn watch_told(
    p: PanelView,
    label: Seq<char>,
    state: Map<Seq<u8>, RecordView>,
    status: StatusView,
) -> PanelView {
    PanelView {
        view: match p.view {
            Some(scene) => if scene.label == label {
                Some(Scene { state, status, ..scene })
            } else {
                Some(scene)
            },
            None => None,
        },
        ..p
    }
}

/// The panel as it turns out that the opponent stayed behind.
pub open spec fn watch_skewed(p: PanelView) -> PanelView {
    PanelView { skew: Some(SKEW_WARNING@), ..p }
}

/// The panel as following a game fails.
pub open spec fn watch_failed(p: PanelView, why: Seq<char>) -> PanelView {
    PanelView { watch_error: Some(why), ..p }
}

/// The game to show under a label.
pub open spec fn shown_under(p: PanelView, label: Seq<char>) -> Option<Scene> {
    match p.view {
        Some(scene) => if scene.label == label {
            Some(scene)
        } else {
            None
        },
        None => None,
    }
}

/// The text to show under a label.
pub open spec fn blob_under(blob: Option<(Seq<char>, Seq<char>)>, label: Seq<char>) -> Option<
    Seq<char>,
> {
    match blob {
        Some((l, text)) => if l == label {
            Some(text)
        } else {
            None
        },
        None => None,
    }
}

/// The label of a command whose game is read again.
fn label_to_show(cmd: &Cmd) -> (r: Option<&str>)
    ensures
        match r {
            Some(t) => to_show_again(cmd@) == Some(t@),
            None => to_show_again(cmd@) is None,
        },
{
    match cmd {
        Cmd::Play { label, .. } => Some(label.as_str()),
        Cmd::Resign { label } => Some(label.as_str()),
        Cmd::DrawAccept { label } => Some(label.as_str()),
        Cmd::DrawClaim { label } => Some(label.as_str()),
        Cmd::Migrate { label } => Some(label.as_str()),
        _ => None,
    }
}

/// The text of a blob, where it was made for the label.
fn blob_for<'a>(blob: &'a Option<(String, String)>, label: &str) -> (r: Option<&'a str>)
    ensures
        match r {
            Some(t) => blob_under(blob_view(*blob), label@) == Some(t@),
            None => blob_under(blob_view(*blob), label@) is None,
        },
{
    match blob {
        Some((l, text)) => if same_text(l.as_str(), label) {
            Some(text.as_str())
        } else {
            None
        },
        None => None,
    }
}

impl Panel {
    /// A panel on which nothing happened yet.
    pub fn new() -> (r: Panel)
        ensures
            r@ == blank(),
    {
        let games: Vec<GameSummary> = Vec::new();
        assert(delegate_api::summary_views(games@) =~= Seq::empty());
        Panel {
            games,
            view: None,
            invite_blob: None,
            offer_blob: None,
            error: None,
            watch_error: None,
            skew: None,
            busy: false,
            connected: false,
        }
    }

    /// Take a command up.
    pub fn begin(&mut self, cmd: &Cmd)
        ensures
            final(self)@ == begun(old(self)@, cmd@),
    {
        match cmd {
            Cmd::Reconnect => self.connected = false,
            _ => self.busy = true,
        }
        self.error = None;
    }

    /// There is a connection to carry the command out on.
    pub fn ready(&mut self, cmd: &Cmd)
        ensures
            final(self)@ == ready(old(self)@, cmd@),
    {
        self.connected = true;
        if let Cmd::Open { .. } = cmd {
            self.view = None;
        }
    }

    /// A flow of the command came to an outcome: what to run next, if anything.
    pub fn settle(&mut self, cmd: &Cmd, outcome: Outcome) -> (r: Option<(Flow, Action)>)
        ensures
            final(self)@ == settled(old(self)@, cmd@, outcome@),
            match r {
                Some((f, a)) => next_run(cmd@, outcome@) == Some((f@, a@)),
                None => next_run(cmd@, outcome@) is None,
            },
    {
        match outcome {
            Outcome::Listed(games) => {
                self.games = games;
                None
            },
            Outcome::Invited(i) => {
                if let Cmd::NewGame { label, .. } = cmd {
                    self.invite_blob = Some((label.clone(), i.encode()));
                }
                None
            },
            Outcome::Offered(o) => {
                if let Cmd::Accept { label, .. } = cmd {
                    self.offer_blob = Some((label.clone(), o.encode()));
                }
                None
            },
            Outcome::Bound(_) => {
                self.invite_blob = None;
                self.offer_blob = None;
                None
            },
            Outcome::Opened(v) => {
                self.view = Some(v);
                None
            },
            Outcome::Moved(_) | Outcome::Migrated(_) => match label_to_show(cmd) {
                Some(label) => Some(flow::open_game_view(label)),
                None => None,
            },
            _ => None,
        }
    }

    /// The command failed. `lost` says whether the connection is gone.
    pub fn fail(&mut self, why: String, lost: bool)
        ensures
            final(self)@ == failed(old(self)@, why@, lost),
    {
        if lost {
            self.connected = false;
        }
        self.error = Some(why);
    }

    /// The command is over, however it ended.
    pub fn end(&mut self)
        ensures
            final(self)@ == ended(old(self)@),
    {
        self.busy = false;
    }

    /// A game is about to be followed.
    pub fn watch_begins(&mut self)
        ensures
            final(self)@ == watch_begun(old(self)@),
    {
        self.watch_error = None;
        self.skew = None;
    }

    /// There is news of a game that is followed.
    pub fn watch_tells(&mut self, label: &str, state: GameState, status: Status)
        ensures
            final(self)@ == watch_told(old(self)@, label@, state@, status@),
    {
        let shown: bool = match &self.view {
            Some(v) => same_text(v.label.as_str(), label),
            None => false,
        };
        if shown {
            match self.view.take() {
                Some(v) => {
                    self.view = Some(
                        GameView {
                            label: v.label,
                            side: v.side,
                            params: v.params,
                            game_id: v.game_id,
                            contract: v.contract,
                            state,
                            status,
                        },
                    );
                },
                None => {},
            }
        }
    }

    /// The opponent stayed behind.
    pub fn watch_warns(&mut self)
        ensures
            final(self)@ == watch_skewed(old(self)@),
    {
        self.skew = Some(SKEW_WARNING.to_owned());
    }

    /// Following a game failed.
    pub fn watch_fails(&mut self, why: String)
        ensures
            final(self)@ == watch_failed(old(self)@, why@),
    {
        self.watch_error = Some(why);
    }

    /// The game to show under a label.
    pub fn view_of(&self, label: &str) -> (r: Option<&GameView>)
        ensures
            match r {
                Some(v) => shown_under(self@, label@) == Some(v@),
                None => shown_under(self@, label@) is None,
            },
    {
        match &self.view {
            Some(v) => if same_text(v.label.as_str(), label) {
                Some(v)
            } else {
                None
            },
            None => None,
        }
    }

    /// The invite to show under a label.
    pub fn invite_for(&self, label: &str) -> (r: Option<&str>)
        ensures
            match r {
                Some(t) => blob_under(self@.invite_blob, label@) == Some(t@),
                None => blob_under(self@.invite_blob, label@) is None,
            },
    {
        blob_for(&self.invite_blob, label)
    }

    /// The offer to show under a label.
    pub fn offer_for(&self, label: &str) -> (r: Option<&str>)
        ensures
            match r {
                Some(t) => blob_under(self@.offer_blob, label@) == Some(t@),
                None => blob_under(self@.offer_blob, label@) is None,
            },
    {
        blob_for(&self.offer_blob, label)
    }
}

// ---------------------------------------------------------------------------
// What holds of the panel.
// ---------------------------------------------------------------------------

/// What went wrong with following a game is not wiped out by a command about
/// something else: it stands until a game is followed again.
pub proof fn a_dead_watch_stays_seen(
    p: PanelView,
    cmd: CmdView,
    outcome: OutcomeView,
    why: Seq<char>,
    lost: bool,
)
    ensures
        begun(p, cmd).watch_error == p.watch_error,
        ready(p, cmd).watch_error == p.watch_error,
        settled(p, cmd, outcome).watch_error == p.watch_error,
        failed(p, why, lost).watch_error == p.watch_error,
        ended(p).watch_error == p.watch_error,
        begun(p, cmd).skew == p.skew,
        ready(p, cmd).skew == p.skew,
        settled(p, cmd, outcome).skew == p.skew,
        failed(p, why, lost).skew == p.skew,
        ended(p).skew == p.skew,
{
}

/// A refusal, a move out of turn or a bad paste does not touch a connection
/// that is alive, and every failure is shown until the next command.
pub proof fn a_failure_is_shown_and_costs_no_connection(p: PanelView, why: Seq<char>)
    ensures
        failed(p, why, false).connected == p.connected,
        !failed(p, why, true).connected,
        ended(failed(p, why, false)).error == Some(why),
        ended(failed(p, why, true)).error == Some(why),
        !ended(failed(p, why, false)).busy,
{
}

/// No game is shown under the label of another: what is shown under a label is
/// of that label, news of another game changes nothing of it, and while a game
/// is being opened nothing is shown at all.
pub proof fn no_game_is_shown_under_another_label(
    p: PanelView,
    label: Seq<char>,
    other: Seq<char>,
    state: Map<Seq<u8>, RecordView>,
    status: StatusView,
)
    ensures
        shown_under(p, label) matches Some(scene) ==> scene.label == label,
        label != other ==> shown_under(watch_told(p, other, state, status), label) == shown_under(
            p,
            label,
        ),
        shown_under(ready(p, CmdView::Open { label: other }), label) is None,
{
}

/// News of a game leaves what is shown of it coherent: the status stands beside
/// the state it was read off.
pub proof fn news_keeps_the_view_coherent(
    p: PanelView,
    label: Seq<char>,
    state: Map<Seq<u8>, RecordView>,
)
    requires
        p.view matches Some(scene) ==> session::coherent(scene),
    ensures
        p.view matches Some(scene) ==> (watch_told(
            p,
            label,
            state,
            project::projected(state, scene.params),
        ).view matches Some(after) && session::coherent(after)),
{
}

/// An invite and an offer never stand in for each other, nor for those of
/// another label.
pub proof fn blobs_do_not_mix(p: PanelView, label: Seq<char>, other: Seq<char>, side: Side, invite: Seq<char>, outcome: OutcomeView)
    ensures
        outcome !is Bound ==> settled(p, CmdView::NewGame { label, side }, outcome).offer_blob
            == p.offer_blob,
        outcome !is Bound ==> settled(p, CmdView::Accept { label, invite }, outcome).invite_blob
            == p.invite_blob,
        outcome is Invited && label != other ==> blob_under(
            settled(p, CmdView::NewGame { label, side }, outcome).invite_blob,
            other,
        ) is None,
        outcome is Offered && label != other ==> blob_under(
            settled(p, CmdView::Accept { label, invite }, outcome).offer_blob,
            other,
        ) is None,
{
}

/// A command keeps the panel busy from its beginning to its end, and clears what
/// went wrong with the one before. It touches nothing else until it has an
/// outcome; only opening a game puts away the game that is shown.
pub proof fn a_command_touches_only_what_it_is_about(
    p: PanelView,
    cmd: CmdView,
    why: Seq<char>,
    lost: bool,
)
    ensures
        ({
            let q = begun(p, cmd);
            &&& q.error is None
            &&& cmd !is Reconnect ==> q.busy && q.connected == p.connected
            &&& cmd is Reconnect ==> !q.connected && q.busy == p.busy
            &&& q.games == p.games && q.view == p.view && q.invite_blob == p.invite_blob
                && q.offer_blob == p.offer_blob
        }),
        ({
            let q = ready(p, cmd);
            &&& q.connected
            &&& cmd !is Open ==> q.view == p.view
            &&& q.games == p.games && q.invite_blob == p.invite_blob && q.offer_blob
                == p.offer_blob && q.error == p.error && q.busy == p.busy
        }),
        ({
            let q = failed(p, why, lost);
            q.games == p.games && q.view == p.view && q.invite_blob == p.invite_blob
                && q.offer_blob == p.offer_blob && q.busy == p.busy
        }),
        ended(p) == (PanelView { busy: false, ..p }),
        !ended(begun(p, cmd)).busy,
{
}

/// An outcome changes what it is about and nothing else: it is no error, costs
/// no connection and does not end the command.
pub proof fn an_outcome_is_shown(p: PanelView, cmd: CmdView, outcome: OutcomeView)
    ensures
        ({
            let q = settled(p, cmd, outcome);
            &&& q.error == p.error && q.busy == p.busy && q.connected == p.connected
            &&& outcome matches OutcomeView::Listed(games) ==> q.games == games
            &&& outcome !is Listed ==> q.games == p.games
            &&& outcome matches OutcomeView::Opened(scene) ==> shown_under(q, scene.label) == Some(
                scene,
            )
            &&& outcome !is Opened ==> q.view == p.view
            &&& outcome is Bound ==> q.invite_blob is None && q.offer_blob is None
        }),
{
}

/// An invite is kept under the label of the game it was made for, and an offer
/// likewise.
pub proof fn a_blob_is_kept_under_its_label(
    p: PanelView,
    label: Seq<char>,
    side: Side,
    pasted: Seq<char>,
    i: invite::InviteView,
    o: invite::OfferView,
)
    ensures
        blob_under(
            settled(p, CmdView::NewGame { label, side }, OutcomeView::Invited(i)).invite_blob,
            label,
        ) == Some(invite::wrapped(i.tree())),
        blob_under(
            settled(
                p,
                CmdView::Accept { label, invite: pasted },
                OutcomeView::Offered(o),
            ).offer_blob,
            label,
        ) == Some(invite::wrapped(o.tree())),
{
}

/// What a command on a game changed is shown: after a move, a resignation, an
/// accepted or claimed draw or a migration, the game is opened again, as if that
/// had been asked for. Nothing else is run a second time.
pub proof fn a_changed_game_is_opened_again(
    cmd: CmdView,
    outcome: OutcomeView,
    label: Seq<char>,
    uci: Seq<char>,
    entropy: Seq<u8>,
    nonce: Seq<u8>,
    wasm: Seq<u8>,
)
    requires
        outcome is Moved || outcome is Migrated,
    ensures
        ({
            let again = job_of(CmdView::Open { label }, entropy, nonce, wasm);
            &&& again matches JobView::Run(f, a) && {
                &&& next_run(CmdView::Play { label, uci }, outcome) == Some((f, a))
                &&& next_run(CmdView::Resign { label }, outcome) == Some((f, a))
                &&& next_run(CmdView::DrawAccept { label }, outcome) == Some((f, a))
                &&& next_run(CmdView::DrawClaim { label }, outcome) == Some((f, a))
                &&& next_run(CmdView::Migrate { label }, outcome) == Some((f, a))
            }
            &&& cmd !is Play && cmd !is Resign && cmd !is DrawAccept && cmd !is DrawClaim && cmd
                !is Migrate ==> next_run(cmd, outcome) is None
        }),
{
}

/// News of a game touch the game that is shown and what is said of following
/// it, and nothing of the command that may be running.
pub proof fn news_touch_no_command(
    p: PanelView,
    label: Seq<char>,
    state: Map<Seq<u8>, RecordView>,
    status: StatusView,
    why: Seq<char>,
)
    ensures
        watch_begun(p) == (PanelView { watch_error: None, skew: None, ..p }),
        watch_told(p, label, state, status) == (PanelView {
            view: watch_told(p, label, state, status).view,
            ..p
        }),
        watch_skewed(p) == (PanelView { skew: watch_skewed(p).skew, ..p }),
        watch_skewed(p).skew is Some,
        watch_failed(p, why) == (PanelView { watch_error: Some(why), ..p }),
        shown_under(p, label) matches Some(scene) ==> (shown_under(
            watch_told(p, label, state, status),
            label,
        ) matches Some(after) && after.state == state && after.status == status && after.side
            == scene.side && after.params == scene.params && after.game_id == scene.game_id
            && after.contract == scene.contract),
        p.view is None ==> watch_told(p, label, state, status).view is None,
{
}

/// To connect is all that connecting asks for, and a game to be followed is
/// handed on under its label; every other command runs a flow, unless what was
/// pasted cannot be read.
pub proof fn a_command_is_a_run(
    cmd: CmdView,
    entropy: Seq<u8>,
    nonce: Seq<u8>,
    wasm: Seq<u8>,
)
    ensures
        ({
            let job = job_of(cmd, entropy, nonce, wasm);
            &&& job is Nothing <==> cmd is Connect || cmd is Reconnect
            &&& job is Watch <==> cmd is Watch
            &&& cmd matches CmdView::Watch { label } ==> job == JobView::Watch(label)
            &&& job is Fail ==> cmd is Accept || cmd is Bind
            &&& cmd matches CmdView::Accept { invite, .. } ==> (job is Fail <==> invite::read_invite(
                invite,
            ) is Err)
            &&& cmd matches CmdView::Bind { offer, .. } ==> (job is Fail <==> invite::read_offer(
                offer,
            ) is Err)
        }),
{
}

} // verus!
