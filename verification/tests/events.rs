use gd_server::events::{
    apply_reaction, apply_reaction_batch, classify_open_buffer_disk_change, event_path, follow_up,
    handle_client_file_events, handle_watcher, open_buffer_paths, open_buffer_uris, open_buffers,
    path_is_within, place,
    reaction_kind, register_watched_files, republish_dirty_open_buffers_except, script_read,
    ClientChange, ClientFileEvent, DiskFacts, Found, OpenBuffer, OpenFileChange, Reload,
    ScriptRead, WatcherEvent, WatcherPlan,
};
use gd_server::files::{
    FileKind, FileProbe, FileRead, FileStat, PathSet, ProjectFiles, WalkItem, WalkedFile,
};
use gd_server::native::{ApiProvenance, Dialect, DialectOrigin, LoadedNative, NativeSurface};
use gd_server::text_map::TextMap;
use gd_server::uri::{CanonicalKey, Uri};
use gd_server::watcher::{EventKind, EventPath, FileChange, Reaction, SkipReason};
use gd_server::workspace::{AnalyzerLimits, Workspace};

fn workspace() -> Workspace {
    let surface = NativeSurface {
        version_major: 4,
        version_minor: 7,
        provenance: ApiProvenance::Exact,
        content_hash: 1,
        class_count: 1,
        empty: false,
    };
    Workspace::load(
        ProjectFiles::new(),
        TextMap::new(),
        LoadedNative { surface, release_notice: None, extension_notices: vec![] },
        Dialect { major: 4, minor: 7 },
        DialectOrigin::Declared,
        8,
        AnalyzerLimits { iter_limit: None, checkpoint_delay_us: None },
    )
}

fn stat(size: u64) -> Option<FileStat> {
    Some(FileStat { size, mtime_ns: 0 })
}

fn on_disk(script: ScriptRead) -> DiskFacts {
    DiskFacts {
        script,
        scene: FileRead::NotFound,
        stat: stat(1),
        key: None,
        from_key: None,
        res: None,
        from_res: None,
    }
}

fn text(hash: u64, interface: u64) -> ScriptRead {
    ScriptRead::Text { hash, interface, stat: stat(1) }
}

fn script(path: &str, change: FileChange) -> Reaction {
    Reaction::GdSource { path: path.to_string(), change }
}

fn none_open() -> PathSet {
    TextMap::new()
}

#[test]
fn need_rescan_event_runs_reconcile_that_recovers_undelivered_drift() {
    let mut ws = workspace();
    ws.reindex("/proj/hero.gd", 1);
    ws.update_stat_from_disk("/proj/hero.gd", stat(1));
    let events = vec![WatcherEvent { need_rescan: true, kind: EventKind::Any, paths: vec![] }];
    assert!(matches!(handle_watcher(&events, "/proj"), WatcherPlan::Reconcile));
    let walked = |path: &str, interface: u64| {
        let file =
            WalkedFile { path: path.to_string(), kind: FileKind::Script, stat: stat(1) };
        let probe =
            FileProbe { res: None, read: FileRead::Text(interface), stat_now: stat(1) };
        (WalkItem::File(file), probe)
    };
    let items = vec![walked("/proj/hero.gd", 1), walked("/proj/late.gd", 2)];
    ws.reconcile(&items, &none_open());
    assert_eq!(ws.files().interface_of("/proj/late.gd"), Some(2));
}

#[test]
fn events_become_reactions_in_their_order() {
    let event = |kind: EventKind, path: &str| WatcherEvent {
        need_rescan: false,
        kind,
        paths: vec![EventPath { path: Some(path.to_string()), excluded: false }],
    };
    let events = vec![
        event(EventKind::Create, "/proj/a.gd"),
        event(EventKind::Remove, "/proj/m.tscn"),
    ];
    match handle_watcher(&events, "/proj") {
        WatcherPlan::Apply(reactions) => {
            assert_eq!(reactions.len(), 2);
            assert_eq!(reaction_kind(&reactions[0]), "gd_source");
            assert_eq!(reaction_kind(&reactions[1]), "scene");
            assert_eq!(event_path(&reactions[1]), Some("/proj/m.tscn".to_string()));
        }
        WatcherPlan::Reconcile => panic!("no event was lost"),
    }
    assert_eq!(reaction_kind(&Reaction::Other(SkipReason::Excluded)), "skip_excluded");
    assert_eq!(event_path(&Reaction::ProjectGodot), None);
}

#[test]
fn a_written_script_is_indexed_once() {
    let mut ws = workspace();
    let reaction = script("/proj/a.gd", FileChange::Modified);
    apply_reaction(&mut ws, &reaction, &on_disk(text(5, 10)), "/proj", &none_open());
    assert_eq!(ws.files().interface_of("/proj/a.gd"), Some(10));
    apply_reaction(&mut ws, &reaction, &on_disk(text(5, 99)), "/proj", &none_open());
    assert_eq!(ws.files().interface_of("/proj/a.gd"), Some(10), "the same text is not taken twice");
    apply_reaction(&mut ws, &reaction, &on_disk(text(6, 11)), "/proj", &none_open());
    assert_eq!(ws.files().interface_of("/proj/a.gd"), Some(11));
}

#[test]
fn the_fingerprint_of_a_read_follows_its_text() {
    let read = |text: &str| match script_read(text, 3, stat(1)) {
        ScriptRead::Text { hash, interface, stat: found } => {
            assert_eq!((interface, found), (3, stat(1)));
            hash
        }
        _ => panic!("a text was read"),
    };
    assert_eq!(read("extends Node\n"), read("extends Node\n"));
    assert_ne!(read("extends Node\n"), read("extends Node2D\n"));
}

#[test]
fn an_open_buffer_is_not_overwritten() {
    let mut ws = workspace();
    ws.reindex("/proj/a.gd", 1);
    let mut open = none_open();
    open.insert("/proj/a.gd".to_string(), ());
    for change in [FileChange::Modified, FileChange::Deleted] {
        apply_reaction(&mut ws, &script("/proj/a.gd", change), &on_disk(text(5, 10)), "/proj", &open);
        assert_eq!(ws.files().interface_of("/proj/a.gd"), Some(1));
    }
}

#[test]
fn a_deleted_script_is_forgotten() {
    let mut ws = workspace();
    ws.reindex("/proj/a.gd", 1);
    let reaction = script("/proj/a.gd", FileChange::Deleted);
    apply_reaction(&mut ws, &reaction, &on_disk(ScriptRead::NotFound), "/proj", &none_open());
    assert_eq!(ws.files().interface_of("/proj/a.gd"), None);
}

#[test]
fn a_rename_moves_what_is_known() {
    let mut ws = workspace();
    ws.reindex("/proj/old.gd", 1);
    let reaction = script(
        "/proj/new.gd",
        FileChange::Renamed { from: "/proj/old.gd".to_string(), to: "/proj/new.gd".to_string() },
    );
    let mut disk = on_disk(text(5, 10));
    disk.from_key = CanonicalKey::for_path("/proj/old.gd", None);
    apply_reaction(&mut ws, &reaction, &disk, "/proj", &none_open());
    assert_eq!(ws.files().interface_of("/proj/old.gd"), None);
    assert_eq!(ws.files().interface_of("/proj/new.gd"), Some(10));
}

#[test]
fn a_change_outside_the_root_is_ignored() {
    let mut ws = workspace();
    ws.reindex("/else/b.gd", 1);
    let disk = on_disk(text(5, 10));
    let created = script("/else/a.gd", FileChange::Created);
    let deleted = script("/else/b.gd", FileChange::Deleted);
    apply_reaction(&mut ws, &created, &disk, "/proj", &none_open());
    assert_eq!(ws.files().interface_of("/else/a.gd"), None);
    apply_reaction(&mut ws, &deleted, &disk, "/proj", &none_open());
    assert_eq!(ws.files().interface_of("/else/b.gd"), Some(1));
    let found = |reaction: Reaction| Found { reaction, disk: on_disk(text(5, 10)) };
    let again = script("/else/a.gd", FileChange::Created);
    let batch = vec![found(again), found(deleted)];
    assert_eq!(apply_reaction_batch(&mut ws, &batch, "/proj", &none_open()), Reload::Nothing);
    assert_eq!(ws.files().interface_of("/else/a.gd"), None);
    assert_eq!(ws.files().interface_of("/else/b.gd"), Some(1));
    apply_reaction(&mut ws, &created, &disk, "/else", &none_open());
    assert_eq!(ws.files().interface_of("/else/a.gd"), Some(10));
    assert_eq!(place(&script("/else/a.gd", FileChange::Created), "/proj").0, false);
    assert_eq!(place(&script("/proj/a.gd", FileChange::Created), "/proj").0, true);
    assert!(path_is_within("/proj/a.gd", "/proj"));
    assert!(!path_is_within("/project/a.gd", "/proj"));
}

#[test]
fn a_drive_is_part_of_the_place() {
    assert!(path_is_within("C:/proj/a.gd", "C:/proj"));
    assert!(!path_is_within("D:/proj/a.gd", "C:/proj"));
    assert!(!path_is_within("/proj/a.gd", "C:/proj"));
    assert!(!path_is_within("C:/project/a.gd", "C:/proj"));
    assert_eq!(place(&script("C:/proj/a.gd", FileChange::Created), "C:/proj"), (true, false));
    assert_eq!(place(&Reaction::ProjectGodot, "C:/proj"), (false, false));
}

#[test]
fn a_scene_and_an_asset_follow_their_files() {
    let mut ws = workspace();
    let mut disk = on_disk(ScriptRead::NotFound);
    disk.scene = FileRead::Text(1);
    disk.res = Some("res://m.tscn".to_string());
    let created = Reaction::Scene {
        path: "/proj/m.tscn".to_string(),
        change: FileChange::Created,
    };
    apply_reaction(&mut ws, &created, &disk, "/proj", &none_open());
    assert!(ws.files().has_scene("res://m.tscn"));
    disk.res = Some("res://i.png".to_string());
    let asset = |change: FileChange| Reaction::Asset { path: "/proj/i.png".to_string(), change };
    apply_reaction(&mut ws, &asset(FileChange::Created), &disk, "/proj", &none_open());
    assert!(ws.files().has_asset("res://i.png"));
    apply_reaction(&mut ws, &asset(FileChange::Deleted), &disk, "/proj", &none_open());
    assert!(!ws.files().has_asset("res://i.png"));
}

#[test]
fn a_batch_asks_for_one_reload() {
    let mut ws = workspace();
    let found = |reaction: Reaction| Found { reaction, disk: on_disk(text(5, 10)) };
    let batch = vec![
        found(Reaction::ExtensionApiJson),
        found(script("/proj/a.gd", FileChange::Created)),
        found(Reaction::ProjectGodot),
    ];
    assert_eq!(apply_reaction_batch(&mut ws, &batch, "/proj", &none_open()), Reload::Project);
    assert_eq!(ws.files().interface_of("/proj/a.gd"), Some(10));
    let batch = vec![found(Reaction::ExtensionApiJson), found(Reaction::ExtensionApiJson)];
    assert_eq!(apply_reaction_batch(&mut ws, &batch, "/proj", &none_open()), Reload::Native);
    assert_eq!(apply_reaction_batch(&mut ws, &vec![], "/proj", &none_open()), Reload::Nothing);
}

#[test]
fn a_reload_is_followed_up() {
    assert!(follow_up(Reload::Project, true).rebuild);
    assert!(!follow_up(Reload::Project, false).rebuild);
    assert!(follow_up(Reload::Project, false).republish_all);
    assert!(follow_up(Reload::Native, true).save_cache);
    assert!(!follow_up(Reload::Native, false).republish_all);
    assert!(!follow_up(Reload::Nothing, true).refresh_tokens);
}

#[test]
fn what_the_client_saw_is_classified_alike() {
    let event = |uri: &str, change: ClientChange, excluded: bool| ClientFileEvent {
        uri: Uri::parse(uri).unwrap(),
        change,
        excluded,
    };
    let events = vec![
        event("file:///proj/My%20Game/a.gd", ClientChange::Created, false),
        event("untitled:x", ClientChange::Created, false),
        event("file:///proj/b.gd", ClientChange::Deleted, true),
        event("file:///proj/c.gd", ClientChange::Deleted, false),
    ];
    let reactions = handle_client_file_events(&events, "/proj", false);
    let kinds: Vec<&str> = reactions.iter().map(reaction_kind).collect();
    assert_eq!(kinds, ["gd_source", "skip_excluded", "gd_source"]);
    assert_eq!(event_path(&reactions[0]), Some("/proj/My Game/a.gd".to_string()));
    assert!(matches!(
        &reactions[2],
        Reaction::GdSource { change: FileChange::Deleted, .. }
    ));
}

#[test]
fn the_client_watches_everything_where_the_server_does_not() {
    assert!(register_watched_files(false, true).is_none());
    let globs = register_watched_files(true, true).unwrap();
    assert!(globs.contains(&"**/*.gd".to_string()) && !globs.contains(&"**/*".to_string()));
    assert_eq!(globs.len(), 6);
    let globs = register_watched_files(true, false).unwrap();
    assert_eq!(globs.last().unwrap(), "**/*");
}

#[test]
fn stale_buffers_are_published_again() {
    let buffer = |uri: &str, path: Option<&str>| OpenBuffer {
        uri: uri.to_string(),
        path: path.map(|p| p.to_string()),
    };
    let buffers =
        vec![buffer("u:a", Some("/a.gd")), buffer("u:b", Some("/b.gd")), buffer("u:c", None)];
    let paths = open_buffer_paths(&buffers);
    assert!(paths.contains_key("/a.gd") && paths.contains_key("/b.gd"));
    assert_eq!(paths.keys().len(), 2);
    let mut dirty = none_open();
    dirty.insert("/a.gd".to_string(), ());
    dirty.insert("/b.gd".to_string(), ());
    dirty.insert("/closed.gd".to_string(), ());
    let again = republish_dirty_open_buffers_except(&buffers, &dirty, None, None);
    assert_eq!(again.uris, ["u:a", "u:b"]);
    assert!(again.refresh);
    let others =
        republish_dirty_open_buffers_except(&buffers, &dirty, Some("u:a"), Some("/a.gd"));
    assert_eq!(others.uris, ["u:b"]);
    let none = republish_dirty_open_buffers_except(&buffers, &none_open(), None, None);
    assert!(none.uris.is_empty() && !none.refresh);
}

#[test]
fn a_change_under_an_open_buffer_is_named() {
    assert_eq!(
        classify_open_buffer_disk_change(Some(1), FileRead::Text(1)),
        OpenFileChange::SameInterface
    );
    assert_eq!(
        classify_open_buffer_disk_change(Some(1), FileRead::Text(2)),
        OpenFileChange::ExternalEdit
    );
    assert_eq!(
        classify_open_buffer_disk_change(None, FileRead::NotFound),
        OpenFileChange::Vanished
    );
    assert_eq!(
        classify_open_buffer_disk_change(None, FileRead::Unreadable),
        OpenFileChange::Unreadable
    );
}

#[test]
fn open_texts_that_are_no_uri_have_no_path() {
    let open = vec![
        "file:///proj/a.gd".to_string(),
        "a b".to_string(),
        "untitled:b".to_string(),
        "file:///C%3A/proj/c.gd".to_string(),
    ];
    let uris = open_buffer_uris(&open);
    let texts: Vec<&str> = uris.iter().map(|uri| uri.as_str()).collect();
    assert_eq!(texts, ["file:///proj/a.gd", "untitled:b", "file:///C%3A/proj/c.gd"]);
    let buffers = open_buffers(&open, true);
    assert_eq!(buffers.len(), 4);
    assert_eq!(buffers[0].path.as_deref(), Some("/proj/a.gd"));
    assert_eq!(buffers[1].uri, "a b");
    assert_eq!(buffers[1].path, None);
    assert_eq!(buffers[2].path, None);
    assert_eq!(buffers[3].path.as_deref(), Some("C:/proj/c.gd"));
    let paths = open_buffer_paths(&buffers);
    assert!(paths.contains_key("C:/proj/c.gd"));
    assert!(!paths.contains_key("a b"));
}

#[test]
fn one_file_has_one_path_however_it_is_spelled() {
    let open = vec!["file:///c:/proj/a.gd".to_string()];
    let buffers = open_buffers(&open, true);
    assert_eq!(buffers[0].path.as_deref(), Some("C:/proj/a.gd"));
    let paths = open_buffer_paths(&buffers);
    assert!(paths.contains_key("C:/proj/a.gd"));

    let mut ws = workspace();
    ws.reindex("c:/proj/a.gd", 1);
    assert_eq!(ws.files().interface_of("C:/proj/a.gd"), Some(1));
    let changed = script("C:\\proj\\a.gd", FileChange::Modified);
    apply_reaction(&mut ws, &changed, &on_disk(text(5, 10)), "C:/proj", &paths);
    assert_eq!(ws.files().interface_of("C:/proj/a.gd"), Some(1), "the open buffer wins");

    let none = open_buffer_paths(&vec![]);
    apply_reaction(&mut ws, &changed, &on_disk(text(5, 10)), "C:/proj", &none);
    assert_eq!(ws.files().interface_of("C:/proj/a.gd"), Some(10));
    assert_eq!(ws.files().interface_of("C:\\proj\\a.gd"), None, "it is indexed once");
    assert!(ws.is_last_applied("c:/proj/a.gd", 5), "the other channel knows of it");
    let again = script("c:/proj/a.gd", FileChange::Modified);
    apply_reaction(&mut ws, &again, &on_disk(text(5, 11)), "C:/proj", &none);
    assert_eq!(ws.files().interface_of("C:/proj/a.gd"), Some(10), "it is delivered twice");

    assert!(path_is_within("c:\\proj\\a.gd", "C:/proj"));
    assert_eq!(place(&changed, "c:/proj"), (true, false));
}

#[test]
fn a_client_event_has_a_normalized_path() {
    let events = vec![ClientFileEvent {
        uri: Uri::parse("file:///c:/proj/a.gd").unwrap(),
        change: ClientChange::Changed,
        excluded: false,
    }];
    let reactions = handle_client_file_events(&events, "C:/proj", true);
    match &reactions[0] {
        Reaction::GdSource { path, .. } => assert_eq!(path, "C:/proj/a.gd"),
        _ => panic!("a script"),
    }
}

#[test]
fn a_dirty_path_is_found_however_it_is_spelled() {
    let buffers = open_buffers(&vec!["file:///c:/proj/a.gd".to_string()], true);
    let mut dirty = TextMap::new();
    dirty.insert("C:\\proj\\a.gd".to_string(), ());
    let again = republish_dirty_open_buffers_except(&buffers, &dirty, None, Some("c:/proj/a.gd"));
    assert_eq!(again.uris, ["file:///c:/proj/a.gd"]);
    assert!(!again.refresh, "no other file is dirty");
    let other = republish_dirty_open_buffers_except(&buffers, &dirty, None, Some("c:/proj/b.gd"));
    assert!(other.refresh);
}
