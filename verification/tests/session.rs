use gd_server::files::{ProjectFiles, ReconcileMode};
use gd_server::memory::MemoryBudget;
use gd_server::native::{ApiProvenance, Dialect, DialectOrigin, LoadedNative, NativeSurface};
use gd_server::requests::{InFlight, Outcome, RequestId, ERR_INVALID_REQUEST};
use gd_server::session::{
    ancestors, apply_config_payload, apply_runtime_config, bench_budget_path,
    nearest_project_godot, refuse_after_shutdown, resolve_root, startup_reconcile_mode,
    tells_generic_surface, workspace_folder_root, ClientReply, ConfigChange, ConfigPayload,
    GroupChange, Outbound, OutboundKind, ReplyAction, Session, SessionAction, SessionEnd,
    SessionEvent, Settings, WatcherError, DISABLED_RECONCILE_TICKS,
};
use gd_server::text_map::TextMap;
use gd_server::uri::Uri;
use gd_server::workspace::{AnalyzerLimits, Workspace};

fn surface(provenance: ApiProvenance) -> NativeSurface {
    NativeSurface {
        version_major: 4,
        version_minor: 7,
        provenance,
        content_hash: 1,
        class_count: 1,
        empty: false,
    }
}

fn workspace() -> Workspace {
    let native = LoadedNative {
        surface: surface(ApiProvenance::Exact),
        release_notice: None,
        extension_notices: vec![],
    };
    Workspace::load(
        ProjectFiles::new(),
        TextMap::new(),
        native,
        Dialect { major: 4, minor: 7 },
        DialectOrigin::Declared,
        8,
        AnalyzerLimits { iter_limit: None, checkpoint_delay_us: None },
    )
}

#[test]
fn after_shutdown_every_request_is_refused() {
    let mut session = Session::start(true);
    let request = SessionEvent::Request { is_shutdown: false };
    assert_eq!(session.step(&request), SessionAction::DispatchRequest);
    let shutdown = SessionEvent::Request { is_shutdown: true };
    assert_eq!(session.step(&shutdown), SessionAction::AcknowledgeShutdown);
    assert_eq!(session.step(&request), SessionAction::RefuseRequest);
    let exit = SessionEvent::Notification { is_exit: true };
    assert_eq!(session.step(&exit), SessionAction::Stop(SessionEnd::CleanExit));
    let mut in_flight = InFlight::new();
    let id = RequestId::Number(1);
    let _ = in_flight.lifecycle(&id);
    let refused = refuse_after_shutdown(&mut in_flight, &id);
    match refused.outcome {
        Outcome::Error { code, message } => {
            assert_eq!(code, ERR_INVALID_REQUEST);
            assert_eq!(message, "request received after shutdown");
        }
        Outcome::Value(_) => panic!("a request after shutdown is refused"),
    }
    assert!(!in_flight.contains(&id));
}

#[test]
fn the_exit_status_tells_how_a_session_ended() {
    let exit = SessionEvent::Notification { is_exit: true };
    let end = Session::start(true).step(&exit);
    assert_eq!(end, SessionAction::Stop(SessionEnd::ExitWithoutShutdown));
    assert_eq!(SessionEnd::CleanExit.exit_status(), 0);
    assert_eq!(SessionEnd::ExitWithoutShutdown.exit_status(), 1);
    let closed = Session::start(true).step(&SessionEvent::TransportClosed);
    assert_eq!(closed, SessionAction::Stop(SessionEnd::TransportClosed));
}

#[test]
fn a_dead_watcher_is_replaced_by_walks() {
    let mut session = Session::start(true);
    let tick = SessionEvent::Tick { root_exists: Some(true) };
    for _ in 0..2 * DISABLED_RECONCILE_TICKS {
        assert_eq!(session.step(&tick), SessionAction::Tick { reconcile: false });
    }
    assert_eq!(session.step(&SessionEvent::WatcherEvents), SessionAction::HandleWatcher);
    session.step(&SessionEvent::WatcherErrors(vec![WatcherError::Other]));
    assert!(session.watcher_live);
    session.step(&SessionEvent::WatcherErrors(vec![
        WatcherError::Other,
        WatcherError::MaxFilesWatch,
    ]));
    assert!(!session.watcher_live);
    assert_eq!(session.step(&SessionEvent::WatcherEvents), SessionAction::Nothing);
    for _ in 0..DISABLED_RECONCILE_TICKS - 1 {
        assert_eq!(session.step(&tick), SessionAction::Tick { reconcile: false });
    }
    assert_eq!(session.step(&tick), SessionAction::Tick { reconcile: true });
    assert_eq!(session.step(&tick), SessionAction::Tick { reconcile: false });
    assert!(!session.watcher_live);
}

#[test]
fn a_lost_root_takes_the_watcher_down() {
    let mut session = Session::start(true);
    session.step(&SessionEvent::Tick { root_exists: Some(false) });
    assert!(!session.watcher_live);
    let mut session = Session::start(true);
    session.step(&SessionEvent::WatcherClosed);
    assert!(!session.watcher_live);
}

#[test]
fn other_events_are_passed_on() {
    let mut session = Session::start(false);
    assert_eq!(session.step(&SessionEvent::Response), SessionAction::HandleResponse);
    assert_eq!(session.step(&SessionEvent::FormatDone), SessionAction::AnswerFormat);
    let note = SessionEvent::Notification { is_exit: false };
    assert_eq!(session.step(&note), SessionAction::DispatchNotification);
    assert_eq!(
        session.step(&SessionEvent::DumpDone { adopted: true }),
        SessionAction::ReloadNative
    );
    assert_eq!(
        session.step(&SessionEvent::DumpDone { adopted: false }),
        SessionAction::Nothing
    );
}

#[test]
fn the_start_depends_on_the_watcher_and_the_surface() {
    assert_eq!(startup_reconcile_mode(true), ReconcileMode::DiscoverOnly);
    assert_eq!(startup_reconcile_mode(false), ReconcileMode::FullStat);
    assert!(tells_generic_surface(&surface(ApiProvenance::Generic)));
    assert!(!tells_generic_surface(&surface(ApiProvenance::Exact)));
}

#[test]
fn each_request_of_the_server_waits_under_its_own_name() {
    let mut outbound = Outbound::new();
    let first = outbound.open(OutboundKind::Configuration);
    let second = outbound.open(OutboundKind::ApplyEdit);
    assert_ne!(first, second);
    assert!(first.starts_with("gdls-out-"));
    assert!(outbound.open_if(false, OutboundKind::InlayHintRefresh).is_none());
    let third = outbound.open_if(true, OutboundKind::InlayHintRefresh).unwrap();
    let settings = ClientReply::Settings { present: true };
    assert_eq!(
        outbound.handle_outbound_response(&first, settings),
        ReplyAction::ApplyConfiguration
    );
    assert_eq!(outbound.handle_outbound_response(&first, settings), ReplyAction::Unknown);
    assert_eq!(
        outbound.handle_outbound_response(&second, ClientReply::Edit { applied: false }),
        ReplyAction::EditDeclined
    );
    assert_eq!(
        outbound.handle_outbound_response(&third, ClientReply::Acknowledged),
        ReplyAction::Noted
    );
    let fourth = outbound.open(OutboundKind::Configuration);
    outbound.abandon(&fourth);
    assert_eq!(outbound.handle_outbound_response(&fourth, settings), ReplyAction::Unknown);
    assert_eq!(OutboundKind::Configuration.method(), "workspace/configuration");
}

const LEFT_OUT: GroupChange = GroupChange { provided: false, differs: true };
const NEW: GroupChange = GroupChange { provided: true, differs: true };
const SAME: GroupChange = GroupChange { provided: true, differs: false };

#[test]
fn settings_that_are_left_out_stay() {
    let mut ws = workspace();
    let generation = ws.analysis_generation();
    let limits = AnalyzerLimits { iter_limit: Some(1), checkpoint_delay_us: None };
    let change = ConfigChange {
        strict: LEFT_OUT,
        analyzer: LEFT_OUT,
        memory: SAME,
        inlay_hint: LEFT_OUT,
        structural: vec![("dialect".to_string(), LEFT_OUT)],
    };
    let effect = apply_runtime_config(&mut ws, &change, limits, 4);
    assert!(effect.needs_restart.is_empty());
    assert!(!effect.republish_all && !effect.new_budget && !effect.refresh_inlay_hints);
    assert_eq!(ws.analysis_generation(), generation);
}

#[test]
fn settings_that_differ_take_effect() {
    let mut ws = workspace();
    let generation = ws.analysis_generation();
    let limits = AnalyzerLimits { iter_limit: Some(1), checkpoint_delay_us: None };
    let change = ConfigChange {
        strict: NEW,
        analyzer: NEW,
        memory: NEW,
        inlay_hint: NEW,
        structural: vec![("dialect".to_string(), NEW), ("projectRoot".to_string(), SAME)],
    };
    let effect = apply_runtime_config(&mut ws, &change, limits, 4);
    assert_eq!(effect.needs_restart, ["dialect"]);
    assert!(effect.republish_all && effect.new_budget && effect.refresh_inlay_hints);
    assert!(ws.analysis_generation() > generation);
    let none = AnalyzerLimits { iter_limit: None, checkpoint_delay_us: None };
    assert_eq!(ws.effective_limits(none).iter_limit, Some(1));
}

#[test]
fn the_root_is_the_first_that_is_known() {
    let some = |s: &str| Some(s.to_string());
    assert_eq!(resolve_root(some("/a"), some("/b"), some("/c"), some("/d")), "/a");
    assert_eq!(resolve_root(None, some("/b"), some("/c"), some("/d")), "/b");
    assert_eq!(resolve_root(None, None, some("/c"), some("/d")), "/d");
    assert_eq!(resolve_root(None, None, some("/c"), None), "/c");
    assert_eq!(resolve_root(None, None, None, some("/d")), ".");
}

#[test]
fn a_folder_comes_before_the_root_uri() {
    let uri = |s: &str| Uri::parse(s).unwrap();
    let folders = Some(vec![uri("file:///w/My%20Game"), uri("file:///x")]);
    let root = Some(uri("file:///r"));
    assert_eq!(
        workspace_folder_root(&folders, &root, false),
        Some("/w/My Game".to_string())
    );
    assert_eq!(workspace_folder_root(&Some(vec![]), &root, false), Some("/r".to_string()));
    let remote = Some(vec![uri("vscode-vfs://github/x")]);
    assert_eq!(workspace_folder_root(&remote, &root, false), Some("/r".to_string()));
    assert_eq!(workspace_folder_root(&None, &None, false), None);
}

#[test]
fn the_nearest_project_above_is_found() {
    assert_eq!(ancestors("/a/b/c", 16), ["/a/b/c", "/a/b", "/a", "/"]);
    assert_eq!(ancestors("/a/b/c", 2), ["/a/b/c", "/a/b"]);
    let dirs = vec![
        ("/a/b/c".to_string(), false),
        ("/a/b".to_string(), true),
        ("/a".to_string(), true),
    ];
    assert_eq!(nearest_project_godot(&dirs), Some("/a/b".to_string()));
    assert_eq!(nearest_project_godot(&vec![]), None);
}

#[test]
fn the_budget_lies_under_the_working_directory() {
    assert_eq!(
        bench_budget_path(None, Some("/w")),
        Some("/w/bench/budget.toml".to_string())
    );
    assert_eq!(
        bench_budget_path(Some("/x.toml".to_string()), Some("/w")),
        Some("/x.toml".to_string())
    );
    assert_eq!(bench_budget_path(None, None), None);
}

fn settings_in_use() -> Settings {
    Settings {
        strict: 1,
        analyzer: 2,
        memory: 3,
        inlay_hint: 4,
        budget: MemoryBudget::from_caps_mb(10, 20),
    }
}

#[test]
fn a_payload_that_cannot_be_read_changes_nothing_and_is_warned_of_once() {
    let mut ws = workspace();
    let generation = ws.analysis_generation();
    let mut settings = settings_in_use();
    let outcome = apply_config_payload(&mut settings, &mut ws, None);
    assert!(outcome.effect.is_none());
    assert_eq!(
        outcome.warnings,
        ["gdls: invalid configuration payload; keeping the previous configuration"]
    );
    assert_eq!(settings, settings_in_use());
    assert_eq!(ws.analysis_generation(), generation);
}

#[test]
fn a_payload_changes_the_groups_that_are_in_it() {
    let mut ws = workspace();
    let mut settings = settings_in_use();
    let payload = ConfigPayload {
        strict: Some(1),
        analyzer: None,
        memory: Some(30),
        inlay_hint: Some(40),
        structural: vec![("formatter".to_string(), NEW)],
        limits: AnalyzerLimits { iter_limit: Some(1), checkpoint_delay_us: None },
        capacity: 4,
        budget: MemoryBudget::from_caps_mb(1, 2),
    };
    let outcome = apply_config_payload(&mut settings, &mut ws, Some(payload));
    assert!(outcome.warnings.is_empty());
    let effect = outcome.effect.expect("it could be read");
    assert_eq!(effect.needs_restart, ["formatter"]);
    assert!(!effect.republish_all && effect.new_budget && effect.refresh_inlay_hints);
    let expected = Settings {
        memory: 30,
        inlay_hint: 40,
        budget: MemoryBudget::from_caps_mb(1, 2),
        ..settings_in_use()
    };
    assert_eq!(settings, expected);
    let none = AnalyzerLimits { iter_limit: None, checkpoint_delay_us: None };
    assert_eq!(ws.effective_limits(none).iter_limit, None);
}
