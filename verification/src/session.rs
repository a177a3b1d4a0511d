//! The session: its course from start to exit, the requests that the server makes of the client,
//! and changes of its configuration.

use vstd::prelude::*;
use vstd::string::*;

use crate::files::ReconcileMode;
use crate::lru_cache;
use crate::memory::MemoryBudget;
use crate::native::{ApiProvenance, NativeSurface};
use crate::numbers;
use crate::numbers::decimal;
use crate::path;
use crate::path::{parent, path_join};
use crate::requests;
use crate::requests::{
    InFlight, Outcome, RequestId, Response, ERR_INVALID_REQUEST,
};
use crate::text;
use crate::text_map::TextMap;
use crate::uri;
use crate::uri::{uri_to_path, Uri};
use crate::workspace;
use crate::workspace::{AnalyzerLimits, Workspace, WorkspaceView};

verus! {

// ---------------------------------------------------------------------------
// The course of a session.
// ---------------------------------------------------------------------------

/// How a session ended.
#[derive(Debug, Clone, Copy, PartialEq, Eq, Structural)]
pub enum SessionEnd {
    /// `exit` came after `shutdown`.
    CleanExit,
    /// `exit` came without it.
    ExitWithoutShutdown,
    /// The client is gone.
    TransportClosed,
}

/// The status of the process at an end of the session.
pub open spec fn status_of(end: SessionEnd) -> i32 {
    if end == SessionEnd::ExitWithoutShutdown {
        1
    } else {
        0
    }
}

impl SessionEnd {
    /// The status of the process: an error only where `exit` came without `shutdown`.
    pub fn exit_status(self) -> (r: i32)
        ensures
            r == status_of(self),
    {
        if self == SessionEnd::ExitWithoutShutdown {
            1
        } else {
            0
        }
    }
}

/// An error that the watcher reports.
#[derive(Debug, Clone, Copy, PartialEq, Eq, Structural)]
pub enum WatcherError {
    /// The system watches no more files: what comes after is lost.
    MaxFilesWatch,
    /// What is watched is gone.
    PathNotFound,
    /// One that may pass.
    Other,
}

/// Whether the watcher is of no use after an error.
pub open spec fn fatal(error: WatcherError) -> bool {
    error != WatcherError::Other
}

/// What happens to a session.
pub enum SessionEvent {
    /// A request; whether it is `shutdown`.
    Request { is_shutdown: bool },
    /// A notification; whether it is `exit`.
    Notification { is_exit: bool },
    /// An answer of the client.
    Response,
    TransportClosed,
    WatcherEvents,
    WatcherErrors(Vec<WatcherError>),
    WatcherClosed,
    /// The clock; whether the watched root is there, where that was looked up.
    Tick { root_exists: Option<bool> },
    /// The formatter is done with a request.
    FormatDone,
    /// The engine's own surface was dumped in the background, or could not be.
    DumpDone { adopted: bool },
}

/// What a session does about an event.
#[derive(Debug, Clone, Copy, PartialEq, Eq, Structural)]
pub enum SessionAction {
    /// Stop the formatter's work, and answer with nothing.
    AcknowledgeShutdown,
    /// Answer that the request came too late.
    RefuseRequest,
    DispatchRequest,
    DispatchNotification,
    HandleResponse,
    HandleWatcher,
    /// Answer a request that was formatted.
    AnswerFormat,
    /// Load the native surface anew.
    ReloadNative,
    /// Look at the memory; with `reconcile`, walk the project too.
    Tick { reconcile: bool },
    Nothing,
    Stop(SessionEnd),
}

/// How many ticks without a watcher go by before the project is walked.
pub const DISABLED_RECONCILE_TICKS: u32 = 20;

/// Where a session stands.
#[derive(Debug, Clone, Copy, PartialEq, Eq, Structural)]
pub struct Session {
    pub shutting_down: bool,
    /// Whether events of the watcher can be relied on.
    pub watcher_live: bool,
    /// Ticks since the watcher was given up or the project was walked.
    pub disabled_ticks: u32,
}

/// Whether some error of a batch is fatal.
pub open spec fn any_fatal(errors: Seq<WatcherError>) -> bool {
    exists|i: int| 0 <= i < errors.len() && fatal(#[trigger] errors[i])
}

/// Where a session stands after a tick, and whether the project is walked: every so many ticks
/// without a watcher.
pub open spec fn ticked(session: Session, root_exists: Option<bool>) -> (Session, bool) {
    let live = session.watcher_live && root_exists != Some(false);
    if live {
        (Session { watcher_live: live, disabled_ticks: 0, ..session }, false)
    } else if session.disabled_ticks + 1 >= DISABLED_RECONCILE_TICKS {
        (Session { watcher_live: live, disabled_ticks: 0, ..session }, true)
    } else {
        (
            Session {
                watcher_live: live,
                disabled_ticks: (session.disabled_ticks + 1) as u32,
                ..session
            },
            false,
        )
    }
}

/// Where a session stands after an event, and what it does about it.
pub open spec fn stepped(session: Session, event: SessionEvent) -> (Session, SessionAction) {
    match event {
        SessionEvent::Request { is_shutdown } => if is_shutdown {
            (Session { shutting_down: true, ..session }, SessionAction::AcknowledgeShutdown)
        } else if session.shutting_down {
            (session, SessionAction::RefuseRequest)
        } else {
            (session, SessionAction::DispatchRequest)
        },
        SessionEvent::Notification { is_exit } => if is_exit {
            (
                session,
                SessionAction::Stop(
                    if session.shutting_down {
                        SessionEnd::CleanExit
                    } else {
                        SessionEnd::ExitWithoutShutdown
                    },
                ),
            )
        } else {
            (session, SessionAction::DispatchNotification)
        },
        SessionEvent::Response => (session, SessionAction::HandleResponse),
        SessionEvent::TransportClosed => (
            session,
            SessionAction::Stop(SessionEnd::TransportClosed),
        ),
        SessionEvent::WatcherEvents => (
            session,
            if session.watcher_live {
                SessionAction::HandleWatcher
            } else {
                SessionAction::Nothing
            },
        ),
        SessionEvent::WatcherErrors(errors) => (
            Session { watcher_live: session.watcher_live && !any_fatal(errors@), ..session },
            SessionAction::Nothing,
        ),
        SessionEvent::WatcherClosed => (
            Session { watcher_live: false, ..session },
            SessionAction::Nothing,
        ),
        SessionEvent::Tick { root_exists } => {
            let (after, reconcile) = ticked(session, root_exists);
            (after, SessionAction::Tick { reconcile })
        },
        SessionEvent::FormatDone => (session, SessionAction::AnswerFormat),
        SessionEvent::DumpDone { adopted } => (
            session,
            if adopted {
                SessionAction::ReloadNative
            } else {
                SessionAction::Nothing
            },
        ),
    }
}

fn has_fatal(errors: &Vec<WatcherError>) -> (r: bool)
    ensures
        r == any_fatal(errors@),
{
    let mut i: usize = 0;
    while i < errors.len()
        invariant
            0 <= i <= errors@.len(),
            forall|k: int| 0 <= k < i ==> !fatal(#[trigger] errors@[k]),
        decreases errors@.len() - i,
    {
        let error: WatcherError = errors[i];
        if error != WatcherError::Other {
            proof {
                assert(fatal(errors@[i as int]));
            }
            return true;
        }
        i = i + 1;
    }
    false
}

impl Session {
    /// A session that starts; whether it has a watcher.
    pub fn start(watcher_live: bool) -> (r: Session)
        ensures
            r == (Session { shutting_down: false, watcher_live, disabled_ticks: 0 }),
    {
        Session { shutting_down: false, watcher_live, disabled_ticks: 0 }
    }

    /// Take an event, and say what is to be done.
    pub fn step(&mut self, event: &SessionEvent) -> (r: SessionAction)
        requires
            old(self).disabled_ticks < DISABLED_RECONCILE_TICKS,
        ensures
            *final(self) == stepped(*old(self), *event).0,
            r == stepped(*old(self), *event).1,
            final(self).disabled_ticks < DISABLED_RECONCILE_TICKS,
    {
        match event {
            SessionEvent::Request { is_shutdown } => {
                if *is_shutdown {
                    self.shutting_down = true;
                    SessionAction::AcknowledgeShutdown
                } else if self.shutting_down {
                    SessionAction::RefuseRequest
                } else {
                    SessionAction::DispatchRequest
                }
            },
            SessionEvent::Notification { is_exit } => {
                if *is_exit {
                    SessionAction::Stop(
                        if self.shutting_down {
                            SessionEnd::CleanExit
                        } else {
                            SessionEnd::ExitWithoutShutdown
                        },
                    )
                } else {
                    SessionAction::DispatchNotification
                }
            },
            SessionEvent::Response => SessionAction::HandleResponse,
            SessionEvent::TransportClosed => SessionAction::Stop(SessionEnd::TransportClosed),
            SessionEvent::WatcherEvents => if self.watcher_live {
                SessionAction::HandleWatcher
            } else {
                SessionAction::Nothing
            },
            SessionEvent::WatcherErrors(errors) => {
                if has_fatal(errors) {
                    self.watcher_live = false;
                }
                SessionAction::Nothing
            },
            SessionEvent::WatcherClosed => {
                self.watcher_live = false;
                SessionAction::Nothing
            },
            SessionEvent::Tick { root_exists } => {
                if self.watcher_live && *root_exists == Some(false) {
                    self.watcher_live = false;
                }
                if self.watcher_live {
                    self.disabled_ticks = 0;
                    return SessionAction::Tick { reconcile: false };
                }
                if self.disabled_ticks + 1 >= DISABLED_RECONCILE_TICKS {
                    self.disabled_ticks = 0;
                    return SessionAction::Tick { reconcile: true };
                }
                self.disabled_ticks = self.disabled_ticks + 1;
                SessionAction::Tick { reconcile: false }
            },
            SessionEvent::FormatDone => SessionAction::AnswerFormat,
            SessionEvent::DumpDone { adopted } => if *adopted {
                SessionAction::ReloadNative
            } else {
                SessionAction::Nothing
            },
        }
    }
}

/// The answer to a request that came after `shutdown`.
pub open spec fn refusal_after_shutdown(id: requests::RequestIdView) -> requests::ResponseView {
    requests::failure(id, ERR_INVALID_REQUEST, "request received after shutdown"@)
}

/// The answer to a request that came after `shutdown`; it is in flight no more.
pub fn refuse_after_shutdown(in_flight: &mut InFlight, id: &RequestId) -> (r: Response)
    ensures
        r@ == refusal_after_shutdown(id@),
        final(in_flight)@ == old(in_flight)@.remove(id@),
{
    let _ = in_flight.finish(id);
    Response {
        id: id.clone(),
        outcome: Outcome::Error {
            code: ERR_INVALID_REQUEST,
            message: "request received after shutdown".to_owned(),
        },
    }
}

/// How the files are reconciled at the start.
pub open spec fn mode_at_start(watcher_armed: bool) -> ReconcileMode {
    if watcher_armed {
        ReconcileMode::DiscoverOnly
    } else {
        ReconcileMode::FullStat
    }
}

/// How the files are reconciled at the start: with a watcher that was there before the project was
/// loaded, what changed since is an event still to come.
pub fn startup_reconcile_mode(watcher_armed: bool) -> (r: ReconcileMode)
    ensures
        r == mode_at_start(watcher_armed),
{
    if watcher_armed {
        ReconcileMode::DiscoverOnly
    } else {
        ReconcileMode::FullStat
    }
}

/// Whether the user is told that the native surface is not that of their own engine.
pub fn tells_generic_surface(native: &NativeSurface) -> (r: bool)
    ensures
        r == (native.provenance == ApiProvenance::Generic),
{
    match native.provenance {
        ApiProvenance::Generic => true,
        _ => false,
    }
}

// ---------------------------------------------------------------------------
// Requests of the server.
// ---------------------------------------------------------------------------

/// What a request of the server is for.
#[derive(Debug, Clone, Copy, PartialEq, Eq, Structural)]
pub enum OutboundKind {
    /// The client's settings for the server.
    Configuration,
    RegisterWatchedFiles,
    SemanticTokensRefresh,
    InlayHintRefresh,
    WorkspaceDiagnosticRefresh,
    ApplyEdit,
}

/// The method of a request of the server.
pub open spec fn outbound_method(kind: OutboundKind) -> Seq<char> {
    match kind {
        OutboundKind::Configuration => "workspace/configuration"@,
        OutboundKind::RegisterWatchedFiles => "client/registerCapability"@,
        OutboundKind::SemanticTokensRefresh => "workspace/semanticTokens/refresh"@,
        OutboundKind::InlayHintRefresh => "workspace/inlayHint/refresh"@,
        OutboundKind::WorkspaceDiagnosticRefresh => "workspace/diagnostic/refresh"@,
        OutboundKind::ApplyEdit => "workspace/applyEdit"@,
    }
}

impl OutboundKind {
    /// The method of the request.
    pub fn method(self) -> (r: &'static str)
        ensures
            r@ == outbound_method(self),
    {
        match self {
            OutboundKind::Configuration => "workspace/configuration",
            OutboundKind::RegisterWatchedFiles => "client/registerCapability",
            OutboundKind::SemanticTokensRefresh => "workspace/semanticTokens/refresh",
            OutboundKind::InlayHintRefresh => "workspace/inlayHint/refresh",
            OutboundKind::WorkspaceDiagnosticRefresh => "workspace/diagnostic/refresh",
            OutboundKind::ApplyEdit => "workspace/applyEdit",
        }
    }
}

/// The requests of the server that wait for an answer.
pub struct Outbound {
    next: u64,
    pending: TextMap<OutboundKind>,
}

#[verifier::ext_equal]
pub struct OutboundView {
    /// The number of the next request.
    pub next: u64,
    pub pending: Map<Seq<char>, OutboundKind>,
}

impl View for Outbound {
    type V = OutboundView;

    closed spec fn view(&self) -> OutboundView {
        OutboundView { next: self.next, pending: self.pending@ }
    }
}

/// The identity of the server's `n`th request.
pub open spec fn outgoing_id(n: u64) -> Seq<char> {
    "gdls-out-"@ + numbers::decimal_text(n as nat)
}

/// What the client answered.
#[derive(Debug, Clone, Copy, PartialEq, Eq, Structural)]
pub enum ClientReply {
    /// It refused.
    Error,
    /// Its settings for the server; whether there are any.
    Settings { present: bool },
    /// Whether it made the edit.
    Edit { applied: bool },
    Acknowledged,
}

/// What is done about an answer of the client.
#[derive(Debug, Clone, Copy, PartialEq, Eq, Structural)]
pub enum ReplyAction {
    /// No request waits for it.
    Unknown,
    ApplyConfiguration,
    KeepConfiguration,
    /// Nothing but a trace.
    Noted,
    /// The edit was not made.
    EditDeclined,
    EditApplied,
}

/// What is done about an answer to a request of some kind.
pub open spec fn reply_action(kind: OutboundKind, reply: ClientReply) -> ReplyAction {
    match kind {
        OutboundKind::Configuration => if reply == (ClientReply::Settings { present: true }) {
            ReplyAction::ApplyConfiguration
        } else {
            ReplyAction::KeepConfiguration
        },
        OutboundKind::ApplyEdit => if reply == (ClientReply::Edit { applied: true }) {
            ReplyAction::EditApplied
        } else {
            ReplyAction::EditDeclined
        },
        _ => ReplyAction::Noted,
    }
}

/// What an answer of the client leads to: nothing where no request waits for it.
pub open spec fn answer_action(
    outbound: OutboundView,
    id: Seq<char>,
    reply: ClientReply,
) -> ReplyAction {
    if outbound.pending.dom().contains(id) {
        reply_action(outbound.pending[id], reply)
    } else {
        ReplyAction::Unknown
    }
}

impl Outbound {
    /// No requests.
    pub fn new() -> (r: Outbound)
        ensures
            r@ == (OutboundView { next: 0, pending: Map::empty() }),
    {
        Outbound { next: 0, pending: TextMap::new() }
    }

    /// A request is made. Its identity is given back.
    pub fn open(&mut self, kind: OutboundKind) -> (r: String)
        requires
            old(self)@.next < u64::MAX,
        ensures
            r@ == outgoing_id(old(self)@.next),
            final(self)@ == (OutboundView {
                next: (old(self)@.next + 1) as u64,
                pending: old(self)@.pending.insert(r@, kind),
            }),
    {
        let mut id = "gdls-out-".to_owned();
        id.append(decimal(self.next).as_str());
        self.next = self.next + 1;
        let _ = self.pending.insert(id.clone(), kind);
        id
    }

    /// A request that the client can do nothing with is not made.
    pub fn open_if(&mut self, supported: bool, kind: OutboundKind) -> (r: Option<String>)
        requires
            old(self)@.next < u64::MAX,
        ensures
            r is Some == supported,
            r matches Some(id) ==> id@ == outgoing_id(old(self)@.next) && final(self)@ == (
            OutboundView {
                next: (old(self)@.next + 1) as u64,
                pending: old(self)@.pending.insert(id@, kind),
            }),
            !supported ==> final(self)@ == old(self)@,
    {
        if !supported {
            return None;
        }
        Some(self.open(kind))
    }

    /// A request could not be sent: nobody will answer it.
    pub fn abandon(&mut self, id: &str)
        ensures
            final(self)@ == (OutboundView {
                pending: old(self)@.pending.remove(id@),
                ..old(self)@
            }),
    {
        let _ = self.pending.remove(id);
    }

    /// The client answered. An answer that no request waits for changes nothing.
    pub fn handle_outbound_response(&mut self, id: &str, reply: ClientReply) -> (r: ReplyAction)
        ensures
            final(self)@ == (OutboundView {
                pending: old(self)@.pending.remove(id@),
                ..old(self)@
            }),
            r == answer_action(old(self)@, id@, reply),
    {
        let kind = match self.pending.remove(id) {
            Some(kind) => kind,
            None => return ReplyAction::Unknown,
        };
        match kind {
            OutboundKind::Configuration => match reply {
                ClientReply::Settings { present } => if present {
                    ReplyAction::ApplyConfiguration
                } else {
                    ReplyAction::KeepConfiguration
                },
                _ => ReplyAction::KeepConfiguration,
            },
            OutboundKind::ApplyEdit => match reply {
                ClientReply::Edit { applied } => if applied {
                    ReplyAction::EditApplied
                } else {
                    ReplyAction::EditDeclined
                },
                _ => ReplyAction::EditDeclined,
            },
            _ => ReplyAction::Noted,
        }
    }
}

// ---------------------------------------------------------------------------
// Configuration at run time.
// ---------------------------------------------------------------------------

/// A group of settings in a payload: whether it is there, and whether it differs from what counts.
#[derive(Debug, Clone, Copy, PartialEq, Eq, Structural)]
pub struct GroupChange {
    pub provided: bool,
    pub differs: bool,
}

/// Whether a group takes effect: what a payload leaves out stays as it is.
pub open spec fn takes_effect(group: GroupChange) -> bool {
    group.provided && group.differs
}

/// A payload of settings, held against what counts.
pub struct ConfigChange {
    pub strict: GroupChange,
    pub analyzer: GroupChange,
    pub memory: GroupChange,
    pub inlay_hint: GroupChange,
    /// The settings that only a restart can change, by their names.
    pub structural: Vec<(String, GroupChange)>,
}

/// What follows a change of settings.
pub struct ConfigEffect {
    /// The settings that would take a restart.
    pub needs_restart: Vec<String>,
    /// Publish the diagnostics of every open buffer.
    pub republish_all: bool,
    /// Work out the memory budget anew.
    pub new_budget: bool,
    /// Ask the client to fetch inlay hints anew.
    pub refresh_inlay_hints: bool,
}

/// The settings of a list that would take a restart.
pub open spec fn restart_names(structural: Seq<(String, GroupChange)>) -> Seq<Seq<char>>
    decreases structural.len(),
{
    if structural.len() == 0 {
        Seq::empty()
    } else {
        let before = restart_names(structural.drop_last());
        if takes_effect(structural.last().1) {
            before.push(structural.last().0@)
        } else {
            before
        }
    }
}

/// The workspace after a change of settings.
pub open spec fn reconfigured(
    ws: WorkspaceView,
    change: ConfigChange,
    limits: AnalyzerLimits,
    capacity: usize,
) -> WorkspaceView {
    let strict = if takes_effect(change.strict) {
        workspace::invalidated(ws)
    } else {
        ws
    };
    let analyzer = if takes_effect(change.analyzer) {
        workspace::invalidated(
            WorkspaceView {
                iter_limit: limits.iter_limit,
                checkpoint_delay_us: limits.checkpoint_delay_us,
                ..strict
            },
        )
    } else {
        strict
    };
    if takes_effect(change.memory) {
        WorkspaceView {
            parses: lru_cache::recent(analyzer.parses, capacity as nat),
            analyses: lru_cache::recent(analyzer.analyses, capacity as nat),
            capacity: capacity as nat,
            ..analyzer
        }
    } else {
        analyzer
    }
}

fn names_needing_restart(structural: &Vec<(String, GroupChange)>) -> (r: Vec<String>)
    ensures
        text::texts(r@) == restart_names(structural@),
{
    let mut r: Vec<String> = Vec::new();
    let mut i: usize = 0;
    proof {
        assert(structural@.take(0) =~= Seq::<(String, GroupChange)>::empty());
        assert(text::texts(r@) =~= Seq::<Seq<char>>::empty());
    }
    while i < structural.len()
        invariant
            0 <= i <= structural@.len(),
            text::texts(r@) == restart_names(structural@.take(i as int)),
        decreases structural@.len() - i,
    {
        let ghost before = r@;
        proof {
            assert(structural@.take(i as int + 1).drop_last() =~= structural@.take(i as int));
            assert(structural@.take(i as int + 1).last() == structural@[i as int]);
        }
        let group: GroupChange = structural[i].1;
        if group.provided && group.differs {
            r.push(structural[i].0.clone());
            proof {
                assert(text::texts(r@) =~= text::texts(before).push(structural@[i as int].0@));
            }
        }
        i = i + 1;
    }
    proof {
        assert(structural@.take(i as int) =~= structural@);
    }
    r
}

/// Whether a change of the settings changes what is said of every document.
pub open spec fn republishes(change: ConfigChange) -> bool {
    takes_effect(change.strict) || takes_effect(change.analyzer)
}

/// Apply a payload of settings: the groups that are there and differ take effect, and nothing else
/// does.
pub fn apply_runtime_config(
    ws: &mut Workspace,
    change: &ConfigChange,
    limits: AnalyzerLimits,
    capacity: usize,
) -> (r: ConfigEffect)
    requires
        old(ws).well_formed(),
        old(ws)@.generation < u64::MAX - 1,
        0 < capacity,
    ensures
        final(ws).well_formed(),
        final(ws)@ == reconfigured(old(ws)@, *change, limits, capacity),
        text::texts(r.needs_restart@) == restart_names(change.structural@),
        r.republish_all == republishes(*change),
        r.new_budget == takes_effect(change.memory),
        r.refresh_inlay_hints == takes_effect(change.inlay_hint),
{
    let strict: bool = change.strict.provided && change.strict.differs;
    let analyzer: bool = change.analyzer.provided && change.analyzer.differs;
    let memory: bool = change.memory.provided && change.memory.differs;
    if strict {
        ws.apply_strict();
    }
    if analyzer {
        ws.set_analyzer_config(limits);
    }
    if memory {
        ws.set_cache_capacity(capacity);
    }
    ConfigEffect {
        needs_restart: names_needing_restart(&change.structural),
        republish_all: strict || analyzer,
        new_budget: memory,
        refresh_inlay_hints: change.inlay_hint.provided && change.inlay_hint.differs,
    }
}

/// The settings that can change at run time. Each group goes by the number under which its owner
/// keeps it.
#[derive(Debug, Clone, Copy, PartialEq, Eq, Structural)]
pub struct Settings {
    pub strict: u64,
    pub analyzer: u64,
    pub memory: u64,
    pub inlay_hint: u64,
    pub budget: MemoryBudget,
}

/// A payload of settings that could be read: the groups that are in it, and what the analyzer, the
/// caches and the budget become by it.
pub struct ConfigPayload {
    pub strict: Option<u64>,
    pub analyzer: Option<u64>,
    pub memory: Option<u64>,
    pub inlay_hint: Option<u64>,
    /// The settings that only a restart can change, by their names.
    pub structural: Vec<(String, GroupChange)>,
    pub limits: AnalyzerLimits,
    pub capacity: usize,
    pub budget: MemoryBudget,
}

/// What follows a payload of settings.
pub struct ConfigOutcome {
    /// What a payload that could be read asks for.
    pub effect: Option<ConfigEffect>,
    /// What the user is warned of.
    pub warnings: Vec<String>,
}

/// A group of a payload, held against the one that counts.
pub open spec fn group_change(current: u64, new: Option<u64>) -> GroupChange {
    GroupChange { provided: new is Some, differs: new is Some && new->0 != current }
}

fn compare_group(current: u64, new: Option<u64>) -> (r: GroupChange)
    ensures
        r == group_change(current, new),
{
    match new {
        Some(new) => GroupChange { provided: true, differs: new != current },
        None => GroupChange { provided: false, differs: false },
    }
}

/// A payload, held against the settings that count.
pub open spec fn change_of(settings: Settings, payload: ConfigPayload) -> ConfigChange {
    ConfigChange {
        strict: group_change(settings.strict, payload.strict),
        analyzer: group_change(settings.analyzer, payload.analyzer),
        memory: group_change(settings.memory, payload.memory),
        inlay_hint: group_change(settings.inlay_hint, payload.inlay_hint),
        structural: payload.structural,
    }
}

/// A group after a payload: the payload's, where it has one.
pub open spec fn group_after(current: u64, new: Option<u64>) -> u64 {
    match new {
        Some(new) => new,
        None => current,
    }
}

/// The settings after a payload: the groups that are in it are taken over, and the budget changes
/// with the memory settings alone.
pub open spec fn merged(settings: Settings, payload: ConfigPayload) -> Settings {
    Settings {
        strict: group_after(settings.strict, payload.strict),
        analyzer: group_after(settings.analyzer, payload.analyzer),
        memory: group_after(settings.memory, payload.memory),
        inlay_hint: group_after(settings.inlay_hint, payload.inlay_hint),
        budget: if takes_effect(group_change(settings.memory, payload.memory)) {
            payload.budget
        } else {
            settings.budget
        },
    }
}

/// What the user is told of a payload that cannot be read.
pub open spec fn invalid_config_text() -> Seq<char> {
    "gdls: invalid configuration payload; keeping the previous configuration"@
}

/// Take in a payload of settings; `None` stands for one that cannot be read. Such a payload leaves
/// the settings and the workspace as they are, and the user is warned of it once.
pub fn apply_config_payload(
    settings: &mut Settings,
    ws: &mut Workspace,
    payload: Option<ConfigPayload>,
) -> (r: ConfigOutcome)
    requires
        old(ws).well_formed(),
        old(ws)@.generation < u64::MAX - 1,
        payload matches Some(payload) ==> 0 < payload.capacity,
    ensures
        final(ws).well_formed(),
        payload is None ==> {
            &&& *final(settings) == *old(settings)
            &&& final(ws)@ == old(ws)@
            &&& r.effect is None
            &&& text::texts(r.warnings@) == seq![invalid_config_text()]
        },
        payload matches Some(payload) ==> {
            let change = change_of(*old(settings), payload);
            &&& *final(settings) == merged(*old(settings), payload)
            &&& final(ws)@ == reconfigured(old(ws)@, change, payload.limits, payload.capacity)
            &&& r.warnings@.len() == 0
            &&& r.effect is Some
            &&& text::texts(r.effect->0.needs_restart@) == restart_names(change.structural@)
            &&& r.effect->0.republish_all == republishes(change)
            &&& r.effect->0.new_budget == takes_effect(change.memory)
            &&& r.effect->0.refresh_inlay_hints == takes_effect(change.inlay_hint)
        },
{
    let payload = match payload {
        Some(payload) => payload,
        None => {
            let mut warnings: Vec<String> = Vec::new();
            warnings.push(
                "gdls: invalid configuration payload; keeping the previous configuration".to_owned(),
            );
            proof {
                assert(text::texts(warnings@) =~= seq![invalid_config_text()]);
            }
            return ConfigOutcome { effect: None, warnings };
        },
    };
    let change = ConfigChange {
        strict: compare_group(settings.strict, payload.strict),
        analyzer: compare_group(settings.analyzer, payload.analyzer),
        memory: compare_group(settings.memory, payload.memory),
        inlay_hint: compare_group(settings.inlay_hint, payload.inlay_hint),
        structural: payload.structural,
    };
    let effect = apply_runtime_config(ws, &change, payload.limits, payload.capacity);
    if let Some(strict) = payload.strict {
        settings.strict = strict;
    }
    if let Some(analyzer) = payload.analyzer {
        settings.analyzer = analyzer;
    }
    if let Some(memory) = payload.memory {
        settings.memory = memory;
    }
    if let Some(inlay_hint) = payload.inlay_hint {
        settings.inlay_hint = inlay_hint;
    }
    if effect.new_budget {
        settings.budget = payload.budget;
    }
    ConfigOutcome { effect: Some(effect), warnings: Vec::new() }
}

// ---------------------------------------------------------------------------
// The root of the project.
// ---------------------------------------------------------------------------

/// The path of the first workspace folder, else that of the root URI.
pub open spec fn folder_root(
    folders: Option<Vec<Uri>>,
    root_uri: Option<Uri>,
    windows: bool,
) -> Option<Seq<char>> {
    let first = match folders {
        Some(folders) => if folders@.len() > 0 {
            uri::uri_path(folders@[0]@, windows)
        } else {
            None
        },
        None => None,
    };
    if first is Some {
        first
    } else {
        match root_uri {
            Some(uri) => uri::uri_path(uri@, windows),
            None => None,
        }
    }
}

/// The path of the first workspace folder, else that of the root URI.
pub fn workspace_folder_root(folders: &Option<Vec<Uri>>, root_uri: &Option<Uri>, windows: bool) -> (r:
    Option<String>)
    ensures
        text::opt_string(r) == folder_root(*folders, *root_uri, windows),
{
    if let Some(folders) = folders {
        if folders.len() > 0 {
            let path = uri_to_path(&folders[0], windows);
            if path.is_some() {
                return path;
            }
        }
    }
    match root_uri {
        Some(uri) => uri_to_path(uri, windows),
        None => None,
    }
}

/// The first directory of a list that holds a project.
pub open spec fn first_project(dirs: Seq<(String, bool)>) -> Option<Seq<char>>
    decreases dirs.len(),
{
    if dirs.len() == 0 {
        None
    } else if dirs[0].1 {
        Some(dirs[0].0@)
    } else {
        first_project(dirs.skip(1))
    }
}

/// The nearest directory that holds a project. `dirs` are the directories upwards from some place,
/// with whether each holds a project file.
pub fn nearest_project_godot(dirs: &Vec<(String, bool)>) -> (r: Option<String>)
    ensures
        text::opt_string(r) == first_project(dirs@),
{
    let mut i: usize = 0;
    proof {
        assert(dirs@.skip(0) =~= dirs@);
    }
    while i < dirs.len()
        invariant
            0 <= i <= dirs@.len(),
            first_project(dirs@) == first_project(dirs@.skip(i as int)),
        decreases dirs@.len() - i,
    {
        proof {
            assert(dirs@.skip(i as int)[0] == dirs@[i as int]);
            assert(dirs@.skip(i as int).skip(1) =~= dirs@.skip(i as int + 1));
        }
        if dirs[i].1 {
            return Some(dirs[i].0.clone());
        }
        i = i + 1;
    }
    None
}

/// The directories upwards from a path, by the names that each is made of.
pub open spec fn upwards(names: Seq<Seq<char>>) -> Seq<Seq<Seq<char>>>
    decreases names.len(),
{
    if names.len() == 0 {
        seq![names]
    } else {
        seq![names] + upwards(names.drop_last())
    }
}

/// The names of each path of a list.
pub open spec fn names_of_all(dirs: Seq<String>) -> Seq<Seq<Seq<char>>> {
    dirs.map_values(|dir: String| path::names(dir@))
}

/// Whether the next directory of a list is the one that holds the directory before it.
pub open spec fn steps_up(dirs: Seq<String>, i: int) -> bool {
    path::reads_parent(dirs[i]@, Some(dirs[i + 1]@))
}

/// The directory itself and those above it, the nearest first. At most `limit` are given.
pub fn ancestors(start: &str, limit: usize) -> (r: Vec<String>)
    ensures
        r@.len() <= limit,
        limit > 0 ==> r@.len() > 0 && r@[0]@ == start@,
        forall|i: int| 0 <= i < r@.len() - 1 ==> #[trigger] steps_up(r@, i),
        r@.len() < limit ==> path::reads_parent(r@.last()@, None),
        path::portable(start@) && path::slash_rooted(start@) ==> names_of_all(r@) == (if path::names(
            start@,
        ).len() + 1 <= limit {
            upwards(path::names(start@))
        } else {
            upwards(path::names(start@)).take(limit as int)
        }),
{
    let mut r: Vec<String> = Vec::new();
    if limit == 0 {
        proof {
            lemma_upwards_len(path::names(start@));
            assert(names_of_all(r@) =~= upwards(path::names(start@)).take(0));
        }
        return r;
    }
    let ghost all = upwards(path::names(start@));
    let mut dir = start.to_owned();
    let mut more = true;
    proof {
        lemma_upwards_len(path::names(start@));
        assert(names_of_all(r@) =~= all.take(0));
        assert(all.skip(0) =~= all);
    }
    while more && r.len() < limit
        invariant
            r@.len() <= limit,
            limit > 0,
            all == upwards(path::names(start@)),
            all.len() == path::names(start@).len() + 1,
            r@.len() > 0 ==> r@[0]@ == start@,
            r@.len() == 0 ==> dir@ == start@ && more,
            forall|i: int| 0 <= i < r@.len() - 1 ==> #[trigger] steps_up(r@, i),
            r@.len() > 0 && more ==> path::reads_parent(r@.last()@, Some(dir@)),
            !more ==> r@.len() > 0 && path::reads_parent(r@.last()@, None),
            path::portable(start@) && path::slash_rooted(start@) ==> {
                &&& r@.len() <= all.len()
                &&& names_of_all(r@) == all.take(r@.len() as int)
                &&& more ==> path::portable(dir@) && path::slash_rooted(dir@) && all.skip(
                    r@.len() as int,
                ) == upwards(path::names(dir@))
                &&& !more ==> r@.len() == all.len()
            },
        decreases limit - r@.len(),
    {
        let ghost before = r@;
        proof {
            lemma_upwards_len(path::names(dir@));
        }
        r.push(dir.clone());
        proof {
            assert forall|i: int| 0 <= i < r@.len() - 1 implies #[trigger] steps_up(r@, i) by {
                if i < before.len() - 1 {
                    assert(steps_up(before, i));
                }
            }
            if path::portable(start@) && path::slash_rooted(start@) {
                assert(all[before.len() as int] == all.skip(before.len() as int)[0]);
                assert(names_of_all(r@) =~= all.take(r@.len() as int));
                assert(all.skip(before.len() as int).skip(1) =~= all.skip(r@.len() as int));
                if path::names(dir@).len() > 0 {
                    assert(upwards(path::names(dir@)).skip(1) =~= upwards(
                        path::names(dir@).drop_last(),
                    ));
                }
            }
        }
        match parent(dir.as_str()) {
            Some(up) => {
                dir = up;
            },
            None => {
                more = false;
            },
        }
    }
    proof {
        if path::portable(start@) && path::slash_rooted(start@) {
            assert(all.take(all.len() as int) =~= all);
        }
    }
    r
}

proof fn lemma_upwards_len(names: Seq<Seq<char>>)
    ensures
        upwards(names).len() == names.len() + 1,
        upwards(names)[0] == names,
    decreases names.len(),
{
    if names.len() > 0 {
        lemma_upwards_len(names.drop_last());
    }
}

/// The root of the project: the one that was asked for, else that of the workspace, else the
/// nearest project above the working directory, else that directory, else `.`.
pub open spec fn root_of(
    asked: Option<Seq<char>>,
    folder: Option<Seq<char>>,
    cwd: Option<Seq<char>>,
    project: Option<Seq<char>>,
) -> Seq<char> {
    if asked is Some {
        asked->0
    } else if folder is Some {
        folder->0
    } else if cwd is None {
        "."@
    } else if project is Some {
        project->0
    } else {
        cwd->0
    }
}

/// The root of the project. `cwd` is the working directory, where it is known, and `project` the
/// nearest directory from there that holds a project.
pub fn resolve_root(
    asked: Option<String>,
    folder: Option<String>,
    cwd: Option<String>,
    project: Option<String>,
) -> (r: String)
    ensures
        r@ == root_of(
            text::opt_string(asked),
            text::opt_string(folder),
            text::opt_string(cwd),
            text::opt_string(project),
        ),
{
    if let Some(root) = asked {
        return root;
    }
    if let Some(root) = folder {
        return root;
    }
    match cwd {
        None => ".".to_owned(),
        Some(cwd) => match project {
            Some(project) => project,
            None => cwd,
        },
    }
}

/// The file with the memory budget: the one that was asked for, else the one under the working
/// directory.
pub fn bench_budget_path(asked: Option<String>, cwd: Option<&str>) -> (r: Option<String>)
    ensures
        asked matches Some(asked) ==> r is Some && (r->0)@ == asked@,
        asked is None ==> r is Some == cwd is Some,
        asked is None && cwd is Some ==> exists|bench: Seq<char>| #[trigger]
            path::reads_join(cwd->0@, "bench"@, bench) && path::reads_join(
                bench,
                "budget.toml"@,
                r->0@,
            ),
        asked is None && cwd is Some && !path::drive_alone(cwd->0@) ==> path::parts((r->0)@)
            == path::parts(cwd->0@).push("bench"@).push("budget.toml"@),
{
    if let Some(asked) = asked {
        return Some(asked);
    }
    match cwd {
        Some(cwd) => {
            proof {
                reveal_strlit("bench");
                reveal_strlit("budget.toml");
                reveal_strlit(".");
                reveal_strlit("..");
                assert("bench"@ != "."@ && "bench"@ != ".."@) by {
                    assert("bench"@.len() == 5);
                }
                assert("budget.toml"@ != "."@ && "budget.toml"@ != ".."@) by {
                    assert("budget.toml"@.len() == 11);
                }
                assert(path::plain_name("bench"@));
                assert(path::plain_name("budget.toml"@));
            }
            let bench = path_join(cwd, "bench");
            proof {
                assert(path::reads_join(cwd@, "bench"@, bench@));
            }
            Some(path_join(bench.as_str(), "budget.toml"))
        },
        None => None,
    }
}

// ---------------------------------------------------------------------------
// Laws.
// ---------------------------------------------------------------------------

/// After `shutdown` no request comes to a handler, whatever else happens.
pub proof fn lemma_nothing_is_served_after_shutdown(session: Session, event: SessionEvent)
    requires
        session.shutting_down,
    ensures
        stepped(session, event).0.shutting_down,
        stepped(session, event).1 != SessionAction::DispatchRequest,
{
}

/// A session ends on `exit` and on a closed transport, and on nothing else; cleanly only after
/// `shutdown`.
pub proof fn lemma_session_ends_as_it_should(session: Session, event: SessionEvent)
    ensures
        stepped(session, event).1 is Stop <==> (event is TransportClosed || event == (
        SessionEvent::Notification { is_exit: true })),
        stepped(session, event).1 == SessionAction::Stop(SessionEnd::CleanExit)
            ==> session.shutting_down,
        stepped(session, event).1 == SessionAction::Stop(SessionEnd::ExitWithoutShutdown)
            ==> !session.shutting_down,
{
}

/// A watcher that was given up is never relied on again.
pub proof fn lemma_watcher_stays_down(session: Session, event: SessionEvent)
    requires
        !session.watcher_live,
    ensures
        !stepped(session, event).0.watcher_live,
        stepped(session, event).1 != SessionAction::HandleWatcher,
{
}

/// A session after several ticks, with how often the project was walked.
pub open spec fn ticks(session: Session, n: nat) -> (Session, nat)
    decreases n,
{
    if n == 0 {
        (session, 0)
    } else {
        let (before, walks) = ticks(session, (n - 1) as nat);
        let (after, reconcile) = ticked(before, None);
        (after, walks + if reconcile {
            1nat
        } else {
            0nat
        })
    }
}

/// Without a watcher the project is walked once in every `DISABLED_RECONCILE_TICKS` ticks.
pub proof fn lemma_disabled_watcher_reconciles(session: Session, n: nat)
    requires
        !session.watcher_live,
        session.disabled_ticks < DISABLED_RECONCILE_TICKS,
    ensures
        ({
            let total = session.disabled_ticks + n;
            let (after, walks) = ticks(session, n);
            &&& !after.watcher_live
            &&& after.disabled_ticks == total % (DISABLED_RECONCILE_TICKS as int)
            &&& walks == total / (DISABLED_RECONCILE_TICKS as int)
        }),
    decreases n,
{
    if n > 0 {
        lemma_disabled_watcher_reconciles(session, (n - 1) as nat);
    }
}

/// With a watcher that is there the project is never walked for want of one.
pub proof fn lemma_live_watcher_never_reconciles(session: Session)
    requires
        session.watcher_live,
    ensures
        ticked(session, None) == (Session { disabled_ticks: 0, ..session }, false),
        ticked(session, Some(true)) == (Session { disabled_ticks: 0, ..session }, false),
{
}

/// A payload that changes nothing leaves the workspace as it is: no cache is dropped.
pub proof fn lemma_empty_payload_changes_nothing(
    ws: WorkspaceView,
    change: ConfigChange,
    limits: AnalyzerLimits,
    capacity: usize,
)
    requires
        !takes_effect(change.strict),
        !takes_effect(change.analyzer),
        !takes_effect(change.memory),
    ensures
        reconfigured(ws, change, limits, capacity) == ws,
{
}

/// A payload that says what counts already changes nothing, and nothing follows from it.
pub proof fn lemma_known_payload_changes_nothing(
    settings: Settings,
    ws: WorkspaceView,
    payload: ConfigPayload,
)
    requires
        payload.strict matches Some(strict) ==> strict == settings.strict,
        payload.analyzer matches Some(analyzer) ==> analyzer == settings.analyzer,
        payload.memory matches Some(memory) ==> memory == settings.memory,
        payload.inlay_hint matches Some(inlay_hint) ==> inlay_hint == settings.inlay_hint,
    ensures
        merged(settings, payload) == settings,
        ({
            let change = change_of(settings, payload);
            &&& reconfigured(ws, change, payload.limits, payload.capacity) == ws
            &&& !takes_effect(change.strict) && !takes_effect(change.analyzer)
            &&& !takes_effect(change.memory) && !takes_effect(change.inlay_hint)
        }),
{
}

/// No two requests of the server have one identity.
pub proof fn lemma_outgoing_ids_differ(a: u64, b: u64)
    requires
        a != b,
    ensures
        outgoing_id(a) != outgoing_id(b),
{
    numbers::lemma_decimal_round_trip(a as nat);
    numbers::lemma_decimal_round_trip(b as nat);
    let prefix = "gdls-out-"@;
    assert(outgoing_id(a).skip(prefix.len() as int) =~= numbers::decimal_text(a as nat));
    assert(outgoing_id(b).skip(prefix.len() as int) =~= numbers::decimal_text(b as nat));
}

/// Until `shutdown` every request comes to its handler; the first `shutdown` and any later one are
/// acknowledged, and after it every other request is refused.
pub proof fn lemma_requests_until_shutdown(session: Session, is_shutdown: bool)
    ensures
        ({
            let (after, action) = stepped(session, SessionEvent::Request { is_shutdown });
            &&& is_shutdown ==> after.shutting_down && action is AcknowledgeShutdown
            &&& !is_shutdown ==> after == session
            &&& !is_shutdown && session.shutting_down ==> action is RefuseRequest
            &&& !is_shutdown && !session.shutting_down ==> action is DispatchRequest
            &&& after.watcher_live == session.watcher_live
            &&& after.disabled_ticks == session.disabled_ticks
        }),
{
}

/// `exit` ends the session, cleanly after `shutdown` and else as an error, and a closed transport
/// ends it at once; every other notification and every answer of the client is handled, also after
/// `shutdown`. None of them changes where the session stands.
pub proof fn lemma_messages_are_handled(session: Session)
    ensures
        stepped(session, SessionEvent::Notification { is_exit: true }) == (
            session,
            SessionAction::Stop(
                if session.shutting_down {
                    SessionEnd::CleanExit
                } else {
                    SessionEnd::ExitWithoutShutdown
                },
            ),
        ),
        stepped(session, SessionEvent::Notification { is_exit: false }) == (
            session,
            SessionAction::DispatchNotification,
        ),
        stepped(session, SessionEvent::Response) == (session, SessionAction::HandleResponse),
        stepped(session, SessionEvent::TransportClosed) == (
            session,
            SessionAction::Stop(SessionEnd::TransportClosed),
        ),
        stepped(session, SessionEvent::FormatDone) == (session, SessionAction::AnswerFormat),
{
}

/// The native surface is loaded anew exactly where a dump was adopted.
pub proof fn lemma_adopted_dump_is_loaded(session: Session, event: SessionEvent)
    ensures
        stepped(session, event).1 is ReloadNative <==> event == (SessionEvent::DumpDone {
            adopted: true,
        }),
        event is DumpDone ==> stepped(session, event).0 == session,
{
}

/// Events of the watcher are handled as long as it can be relied on, and never else.
pub proof fn lemma_watcher_events_while_live(session: Session, event: SessionEvent)
    ensures
        stepped(session, event).1 is HandleWatcher <==> event is WatcherEvents
            && session.watcher_live,
        event is WatcherEvents ==> stepped(session, event).0 == session,
{
}

/// The watcher is given up exactly where it reports that the system watches no more files or that
/// what it watched is gone, where it closes, and where a tick finds the root gone. Any other error
/// may pass.
pub proof fn lemma_when_the_watcher_is_given_up(session: Session, event: SessionEvent)
    requires
        session.watcher_live,
    ensures
        !stepped(session, event).0.watcher_live <==> {
            ||| event is WatcherClosed
            ||| event == (SessionEvent::Tick { root_exists: Some(false) })
            ||| event matches SessionEvent::WatcherErrors(errors) && exists|i: int|
                0 <= i < errors@.len() && ((#[trigger] errors@[i]) is MaxFilesWatch || errors@[i]
                    is PathNotFound)
        },
        stepped(session, event).0.shutting_down == (session.shutting_down || event == (
        SessionEvent::Request { is_shutdown: true })),
{
    if event is WatcherErrors {
        let errors = event->WatcherErrors_0@;
        if any_fatal(errors) {
            let i = choose|i: int| 0 <= i < errors.len() && fatal(#[trigger] errors[i]);
            assert(errors[i] is MaxFilesWatch || errors[i] is PathNotFound);
        }
        if exists|i: int|
            0 <= i < errors.len() && ((#[trigger] errors[i]) is MaxFilesWatch || errors[i]
                is PathNotFound) {
            let i = choose|i: int|
                0 <= i < errors.len() && ((#[trigger] errors[i]) is MaxFilesWatch || errors[i]
                    is PathNotFound);
            assert(fatal(errors[i]));
        }
    }
}

/// Every tick looks at the memory. The project is walked on the twentieth tick in a row without a
/// watcher, and never while there is one.
pub proof fn lemma_what_a_tick_does(session: Session, root_exists: Option<bool>)
    requires
        session.disabled_ticks < 20,
    ensures
        ({
            let (after, action) = stepped(session, SessionEvent::Tick { root_exists });
            let live = session.watcher_live && root_exists != Some(false);
            &&& action is Tick
            &&& after.watcher_live == live
            &&& after.shutting_down == session.shutting_down
            &&& action == (SessionAction::Tick { reconcile: true }) <==> !live
                && session.disabled_ticks == 19
            &&& live || session.disabled_ticks == 19 ==> after.disabled_ticks == 0
            &&& !live && session.disabled_ticks < 19 ==> after.disabled_ticks
                == session.disabled_ticks + 1
        }),
{
}

/// Each request of the server goes by the method that the protocol has for it.
pub proof fn lemma_outbound_methods()
    ensures
        outbound_method(OutboundKind::Configuration) == "workspace/configuration"@,
        outbound_method(OutboundKind::RegisterWatchedFiles) == "client/registerCapability"@,
        outbound_method(OutboundKind::SemanticTokensRefresh) == "workspace/semanticTokens/refresh"@,
        outbound_method(OutboundKind::InlayHintRefresh) == "workspace/inlayHint/refresh"@,
        outbound_method(OutboundKind::WorkspaceDiagnosticRefresh)
            == "workspace/diagnostic/refresh"@,
        outbound_method(OutboundKind::ApplyEdit) == "workspace/applyEdit"@,
{
}

/// The configuration changes only by settings that the client gave, an edit counts as made only
/// where the client made it, and every other answer is only noted.
pub proof fn lemma_what_an_answer_does(kind: OutboundKind, reply: ClientReply)
    ensures
        ({
            let action = reply_action(kind, reply);
            &&& action is ApplyConfiguration <==> kind is Configuration && reply == (
            ClientReply::Settings { present: true })
            &&& action is KeepConfiguration <==> kind is Configuration && reply != (
            ClientReply::Settings { present: true })
            &&& action is EditApplied <==> kind is ApplyEdit && reply == (ClientReply::Edit {
                applied: true,
            })
            &&& action is EditDeclined <==> kind is ApplyEdit && reply != (ClientReply::Edit {
                applied: true,
            })
            &&& action is Noted <==> !(kind is Configuration) && !(kind is ApplyEdit)
        }),
{
}

/// The settings that take a restart are those of a payload that are there and differ, all of them
/// and in their order.
pub proof fn lemma_restart_names(structural: Seq<(String, GroupChange)>)
    ensures
        ({
            let changed = structural.filter(
                |setting: (String, GroupChange)| setting.1.provided && setting.1.differs,
            );
            let names = restart_names(structural);
            &&& names.len() == changed.len()
            &&& forall|i: int| 0 <= i < names.len() ==> #[trigger] names[i] == changed[i].0@
        }),
    decreases structural.len(),
{
    reveal(Seq::filter);
    if structural.len() > 0 {
        lemma_restart_names(structural.drop_last());
    }
}

/// A group takes effect exactly where the payload has it and it is another than the one that counts,
/// and what a payload has counts from then on; what it leaves out stays. The budget changes only
/// with the memory settings.
pub proof fn lemma_payload_is_taken_over(settings: Settings, payload: ConfigPayload)
    ensures
        ({
            let change = change_of(settings, payload);
            let after = merged(settings, payload);
            &&& takes_effect(change.strict) <==> after.strict != settings.strict
            &&& takes_effect(change.analyzer) <==> after.analyzer != settings.analyzer
            &&& takes_effect(change.memory) <==> after.memory != settings.memory
            &&& takes_effect(change.inlay_hint) <==> after.inlay_hint != settings.inlay_hint
            &&& change.structural == payload.structural
            &&& payload.strict matches Some(strict) ==> after.strict == strict
            &&& payload.analyzer matches Some(analyzer) ==> after.analyzer == analyzer
            &&& payload.memory matches Some(memory) ==> after.memory == memory
            &&& payload.inlay_hint matches Some(inlay_hint) ==> after.inlay_hint == inlay_hint
            &&& payload.strict is None ==> after.strict == settings.strict
            &&& payload.analyzer is None ==> after.analyzer == settings.analyzer
            &&& payload.memory is None ==> after.memory == settings.memory
            &&& payload.inlay_hint is None ==> after.inlay_hint == settings.inlay_hint
            &&& after.memory == settings.memory ==> after.budget == settings.budget
            &&& after.memory != settings.memory ==> after.budget == payload.budget
        }),
{
}

/// A change of what the analyzer may report, or of how it works, makes every analysis and every
/// report invalid; a change of the memory settings changes how much is kept, of the most recent; and
/// each changes nothing else.
pub proof fn lemma_what_settings_change(
    ws: WorkspaceView,
    change: ConfigChange,
    limits: AnalyzerLimits,
    capacity: usize,
)
    requires
        ws.generation < u64::MAX - 1,
    ensures
        ({
            let after = reconfigured(ws, change, limits, capacity);
            let strict = change.strict.provided && change.strict.differs;
            let analyzer = change.analyzer.provided && change.analyzer.differs;
            let memory = change.memory.provided && change.memory.differs;
            &&& strict || analyzer ==> after.generation > ws.generation && after.analyses.len() == 0
            &&& !strict && !analyzer ==> after.generation == ws.generation
            &&& analyzer ==> after.iter_limit == limits.iter_limit && after.checkpoint_delay_us
                == limits.checkpoint_delay_us
            &&& !analyzer ==> after.iter_limit == ws.iter_limit && after.checkpoint_delay_us
                == ws.checkpoint_delay_us
            &&& memory ==> after.capacity == capacity && after.parses.len() <= capacity
            &&& !memory ==> after.capacity == ws.capacity
            &&& !memory && !strict && !analyzer ==> after.analyses == ws.analyses
            &&& after.files == ws.files && after.native == ws.native && after.dialect == ws.dialect
                && after.uids == ws.uids && after.applied == ws.applied
        }),
{
}

/// The root of a workspace is that of its first folder, where that is a path, else that of the root
/// URI; other folders do not count.
pub proof fn lemma_workspace_root(
    folders: Option<Vec<Uri>>,
    root_uri: Option<Uri>,
    windows: bool,
)
    ensures
        ({
            let root = folder_root(folders, root_uri, windows);
            let first = match folders {
                Some(folders) => if folders@.len() > 0 {
                    uri::uri_path(folders@[0]@, windows)
                } else {
                    None
                },
                None => None,
            };
            &&& first is Some ==> root == first
            &&& first is None ==> (root_uri matches Some(uri) ==> root == uri::uri_path(
                uri@,
                windows,
            ))
            &&& first is None && root_uri is None ==> root is None
        }),
{
}

/// The nearest project is the first directory upwards that holds one.
pub proof fn lemma_nearest_project(dirs: Seq<(String, bool)>, k: int)
    requires
        0 <= k < dirs.len(),
        dirs[k].1,
        forall|j: int| 0 <= j < k ==> !(#[trigger] dirs[j]).1,
    ensures
        first_project(dirs) == Some(dirs[k].0@),
    decreases k,
{
    if k > 0 {
        assert(!dirs[0].1);
        let rest = dirs.skip(1);
        assert forall|j: int| 0 <= j < k - 1 implies !(#[trigger] rest[j]).1 by {
            assert(!dirs[j + 1].1);
        }
        lemma_nearest_project(rest, k - 1);
    }
}

/// Without a directory that holds a project there is none.
pub proof fn lemma_no_project(dirs: Seq<(String, bool)>)
    requires
        forall|j: int| 0 <= j < dirs.len() ==> !(#[trigger] dirs[j]).1,
    ensures
        first_project(dirs) is None,
    decreases dirs.len(),
{
    if dirs.len() > 0 {
        assert(!dirs[0].1);
        let rest = dirs.skip(1);
        assert forall|j: int| 0 <= j < rest.len() implies !(#[trigger] rest[j]).1 by {
            assert(!dirs[j + 1].1);
        }
        lemma_no_project(rest);
    }
}

/// The directories upwards from a path are it and each beginning of it, one name shorter each time.
pub proof fn lemma_directories_upwards(names: Seq<Seq<char>>)
    ensures
        upwards(names).len() == names.len() + 1,
        forall|i: int|
            0 <= i <= names.len() ==> #[trigger] upwards(names)[i] == names.take(names.len() - i),
    decreases names.len(),
{
    assert(names.take(names.len() as int) =~= names);
    if names.len() > 0 {
        let rest = names.drop_last();
        lemma_directories_upwards(rest);
        assert forall|i: int| 0 <= i <= names.len() implies #[trigger] upwards(names)[i]
            == names.take(names.len() - i) by {
            if i > 0 {
                assert(upwards(names)[i] == upwards(rest)[i - 1]);
                assert(rest.take(rest.len() - (i - 1)) =~= names.take(names.len() - i));
            }
        }
    }
}

/// The root of the project is what the client's options ask for before anything else, then that of
/// the workspace, then the nearest project above the working directory, then that directory.
pub proof fn lemma_root_precedence(
    asked: Option<Seq<char>>,
    folder: Option<Seq<char>>,
    cwd: Option<Seq<char>>,
    project: Option<Seq<char>>,
)
    ensures
        asked matches Some(root) ==> root_of(asked, folder, cwd, project) == root,
        asked is None ==> (folder matches Some(root) ==> root_of(asked, folder, cwd, project)
            == root),
        asked is None && folder is None && cwd is Some ==> (project matches Some(root) ==> root_of(
            asked,
            folder,
            cwd,
            project,
        ) == root),
        asked is None && folder is None && project is None ==> (cwd matches Some(root) ==> root_of(
            asked,
            folder,
            cwd,
            project,
        ) == root),
        asked is None && folder is None && cwd is None ==> root_of(asked, folder, cwd, project)
            == "."@,
{
}

/// The process ends with an error exactly where `exit` came without `shutdown`.
pub proof fn lemma_status_of_the_process(end: SessionEnd)
    ensures
        end is ExitWithoutShutdown <==> status_of(end) == 1,
        !(end is ExitWithoutShutdown) <==> status_of(end) == 0,
{
}

/// At the start every file is looked at, unless a watcher tells of what changed.
pub proof fn lemma_files_at_the_start()
    ensures
        mode_at_start(true) is DiscoverOnly,
        mode_at_start(false) is FullStat,
{
}

/// An answer counts once, and only for the request that it answers.
pub proof fn lemma_answer_counts_once(
    outbound: OutboundView,
    id: Seq<char>,
    reply: ClientReply,
    kind: OutboundKind,
)
    ensures
        !outbound.pending.dom().contains(id) ==> answer_action(outbound, id, reply) is Unknown,
        outbound.pending.dom().contains(id) && outbound.pending[id] == kind ==> answer_action(
            outbound,
            id,
            reply,
        ) == reply_action(kind, reply),
        answer_action(
            OutboundView { pending: outbound.pending.remove(id), ..outbound },
            id,
            reply,
        ) is Unknown,
{
}

/// What is said of every document changes exactly where strictness or the analyzer's limits were
/// given and are others than before.
pub proof fn lemma_when_everything_is_published_again(change: ConfigChange)
    ensures
        republishes(change) <==> (change.strict.provided && change.strict.differs) || (
        change.analyzer.provided && change.analyzer.differs),
{
}

/// A request after `shutdown` is answered as invalid, under its own identity.
pub proof fn lemma_refused_after_shutdown(id: requests::RequestIdView)
    ensures
        refusal_after_shutdown(id).id == id,
        refusal_after_shutdown(id).outcome == (requests::OutcomeView::Error {
            code: (-32600) as i32,
            message: "request received after shutdown"@,
        }),
{
}

/// Each directory upwards is the one around the directory before it: it has the same names but the
/// last.
pub proof fn lemma_each_step_goes_up(dirs: Seq<String>, i: int)
    requires
        0 <= i < dirs.len() - 1,
        steps_up(dirs, i),
        path::portable(dirs[i]@),
    ensures
        path::names(dirs[i]@).len() > 0,
        path::names(dirs[i + 1]@) == path::names(dirs[i]@).drop_last(),
{
}

} // verus!
