use gd_server::documents::{
    did_change, did_close, did_open, did_rename_files, is_script, notification_kind, publishing,
    reindex_from_disk, reindex_open_buffer, settings_source, DocumentFacts, NotificationKind,
    SettingsSource,
};
use gd_server::events::{ClientChange, ScriptRead};
use gd_server::files::{FileStat, ProjectFiles};
use gd_server::native::{ApiProvenance, Dialect, DialectOrigin, LoadedNative, NativeSurface};
use gd_server::text_map::TextMap;
use gd_server::uri::{CanonicalKey, Uri};
use gd_server::vfs::{ContentChange, Vfs};
use gd_server::workspace::{AnalyzerLimits, Workspace};

fn workspace() -> Workspace {
    let surface = NativeSurface {
        version_major: 4,
        version_minor: 7,
        provenance: ApiProvenance::Exact,
        content_hash: 1,
        class_count: 1,
        empty: false,
    };
    Workspace::load(
        ProjectFiles::new(),
        TextMap::new(),
        LoadedNative { surface, release_notice: None, extension_notices: vec![] },
        Dialect { major: 4, minor: 7 },
        DialectOrigin::Declared,
        8,
        AnalyzerLimits { iter_limit: None, checkpoint_delay_us: None },
    )
}

fn facts() -> DocumentFacts {
    DocumentFacts {
        path: "/proj/a.gd".to_string(),
        is_script: is_script(Some("/proj/a.gd")),
        key: CanonicalKey::for_path("/proj/a.gd", None).unwrap(),
        path_key: CanonicalKey::for_path("/proj/a.gd", None),
    }
}

const URI: &str = "file:///proj/a.gd";

#[test]
fn the_buffer_counts_until_it_is_closed() {
    let mut vfs = Vfs::default();
    let mut ws = workspace();
    let doc = facts();
    let stat = Some(FileStat { size: 3, mtime_ns: 9 });
    ws.reindex("/proj/a.gd", 1);
    ws.update_stat_from_disk("/proj/a.gd", stat);
    did_open(&mut vfs, &mut ws, URI, "extends Node\n".to_string(), 1, &doc, 2);
    assert_eq!(ws.files().interface_of("/proj/a.gd"), Some(2));
    assert_eq!(ws.files().stat_of("/proj/a.gd"), stat, "a buffer has no stat");
    let change = ContentChange { range: Some((8, 12)), text: "Node2D".to_string() };
    did_change(&mut vfs, &mut ws, URI, vec![change], 2, &doc, 3);
    assert_eq!(vfs.get(URI).unwrap().text(), "extends Node2D\n");
    assert_eq!(ws.files().interface_of("/proj/a.gd"), Some(3));
    let read = ScriptRead::Text { hash: 7, interface: 1, stat };
    did_close(&mut vfs, &mut ws, URI, &doc, read);
    assert!(vfs.get(URI).is_none());
    assert_eq!(ws.files().interface_of("/proj/a.gd"), Some(1), "what is on disk counts again");
}

#[test]
fn a_closed_file_that_is_gone_is_removed() {
    let mut vfs = Vfs::default();
    let mut ws = workspace();
    let doc = facts();
    did_open(&mut vfs, &mut ws, URI, String::new(), 1, &doc, 2);
    did_close(&mut vfs, &mut ws, URI, &doc, ScriptRead::NotFound);
    assert_eq!(ws.files().interface_of("/proj/a.gd"), None);
}

#[test]
fn an_unreadable_file_stays_as_it_was_known() {
    let mut ws = workspace();
    reindex_open_buffer(&mut ws, "/proj/a.gd", true, true, 5);
    reindex_open_buffer(&mut ws, "/proj/a.txt", false, true, 6);
    reindex_open_buffer(&mut ws, "/proj/b.gd", true, false, 6);
    reindex_from_disk(&mut ws, "/proj/a.gd", true, ScriptRead::Unreadable, None);
    assert_eq!(ws.files().interface_of("/proj/a.gd"), Some(5));
    assert_eq!(ws.files().interface_of("/proj/a.txt"), None);
    assert_eq!(ws.files().interface_of("/proj/b.gd"), None);
}

#[test]
fn scripts_are_told_by_their_extension() {
    assert!(is_script(Some("/a.gd")));
    assert!(!is_script(Some("/a.tscn")));
    assert!(!is_script(Some("/gd")));
    assert!(!is_script(None));
}

#[test]
fn notifications_have_names() {
    assert_eq!(notification_kind("textDocument/didOpen"), NotificationKind::DidOpen);
    assert_eq!(notification_kind("$/cancelRequest"), NotificationKind::CancelRequest);
    assert_eq!(notification_kind("exit"), NotificationKind::Exit);
    assert_eq!(notification_kind("initialized"), NotificationKind::Ignored);
}

#[test]
fn edits_are_published_with_a_version() {
    let change = publishing(NotificationKind::DidChange);
    assert!(change.document && change.with_version && change.dirty_others);
    let save = publishing(NotificationKind::DidSave);
    assert!(save.document && !save.with_version && !save.dirty_others);
    let close = publishing(NotificationKind::DidClose);
    assert!(close.document && !close.with_version && close.dirty_others);
    assert!(!publishing(NotificationKind::Exit).document);
}

#[test]
fn a_rename_is_a_deletion_and_a_creation() {
    let uri = |s: &str| Uri::parse(s).unwrap();
    let events = did_rename_files(&vec![(uri("file:///a.gd"), uri("file:///b.gd"))]);
    let seen: Vec<(&str, ClientChange)> =
        events.iter().map(|e| (e.0.as_str(), e.1)).collect();
    assert_eq!(
        seen,
        [("file:///a.gd", ClientChange::Deleted), ("file:///b.gd", ClientChange::Created)]
    );
}

#[test]
fn settings_are_fetched_where_the_client_can_be_asked() {
    assert_eq!(settings_source(true, true), SettingsSource::Pull);
    assert_eq!(settings_source(false, true), SettingsSource::Section);
    assert_eq!(settings_source(false, false), SettingsSource::Whole);
}
