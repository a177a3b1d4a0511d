use gd_server::files::{
    FileKind, FileProbe, FileRead, FileStat, PathSet, ProjectFiles, ReconcileMode, Reconciliation,
    WalkItem, WalkedFile,
};
use gd_server::native::{ApiProvenance, Dialect, DialectOrigin, LoadedNative, NativeSurface};
use gd_server::text_map::TextMap;
use gd_server::uri::CanonicalKey;
use gd_server::workspace::{
    sidecar_resource, uid_scene_targets, Analysis, AnalyzerLimits, ProjectReload, Workspace,
};

const NEWEST: Dialect = Dialect { major: 4, minor: 7 };
const NO_LIMITS: AnalyzerLimits = AnalyzerLimits { iter_limit: None, checkpoint_delay_us: None };

fn surface(content_hash: u64) -> NativeSurface {
    NativeSurface {
        version_major: 4,
        version_minor: 7,
        provenance: ApiProvenance::Exact,
        content_hash,
        class_count: 1,
        empty: false,
    }
}

fn loaded(content_hash: u64) -> LoadedNative {
    LoadedNative {
        surface: surface(content_hash),
        release_notice: None,
        extension_notices: vec![],
    }
}

fn workspace(capacity: usize) -> Workspace {
    Workspace::load(
        ProjectFiles::new(),
        TextMap::new(),
        loaded(1),
        NEWEST,
        DialectOrigin::Declared,
        capacity,
        NO_LIMITS,
    )
}

fn key(path: &str) -> CanonicalKey {
    CanonicalKey::for_path(path, None).unwrap()
}

fn stat(size: u64) -> Option<FileStat> {
    Some(FileStat { size, mtime_ns: 1 })
}

const COMPLETE: bool = false;
const BAILED: bool = true;

#[test]
fn bailed_reanalyze_serves_cached_complete_for_identical_bytes() {
    let mut ws = workspace(32);
    let src = "extends Node\nfunc go() -> void:\n\tvar a := 1\n\tvar b := a + 1\n\tprint(b)\n";
    let key = key("/proj/main.gd");
    let seeding = ws.cached_analysis(&key, src, 0);
    assert!(seeding.hit.is_none());
    let complete =
        ws.analyzed(&key, seeding.hash, 0, Analysis { value: 7, bailed: COMPLETE });
    assert!(!complete.bailed, "the seeding analyze must complete, not bail");

    let tiny = AnalyzerLimits { iter_limit: Some(1), checkpoint_delay_us: None };
    let plan = ws.analyze_with_options(&key, src, 1, tiny);
    assert!(plan.lookup.hit.is_none(), "the epoch moved on");
    assert_eq!(plan.lookup.hash, seeding.hash, "the bytes are the same");
    assert_eq!(plan.limits.iter_limit, Some(1));
    assert_eq!(plan.dialect, NEWEST);
    let served =
        ws.analyzed(&key, plan.lookup.hash, 1, Analysis { value: 8, bailed: BAILED });
    assert!(!served.bailed, "the complete result of the same bytes is served");
    assert_eq!(served.value, complete.value);
}

#[test]
fn a_parse_is_found_again_for_the_same_text() {
    let mut ws = workspace(4);
    let key = key("/proj/a.gd");
    let lookup = ws.parse(&key, "extends Node\n");
    assert_eq!(lookup.hit, None);
    ws.parsed(&key, lookup.hash, 42);
    assert_eq!(ws.parse(&key, "extends Node\n").hit, Some(42));
    assert_eq!(ws.parse(&key, "extends Node2D\n").hit, None);
    assert_eq!(ws.cached_parse(&key, lookup.hash), Some(42));
    assert_eq!(ws.cached_parse(&key, lookup.hash.wrapping_add(1)), None);
}

#[test]
fn a_complete_analysis_is_served_at_its_epoch() {
    let mut ws = workspace(4);
    let key = key("/proj/a.gd");
    let done = ws.analyzed(&key, 5, 3, Analysis { value: 9, bailed: COMPLETE });
    assert_eq!(done, Analysis { value: 9, bailed: COMPLETE });
    assert_eq!(ws.valid_analysis(&key, 5, 3), Some(9));
    assert_eq!(ws.valid_analysis(&key, 5, 4), None);
    assert_eq!(ws.valid_analysis(&key, 6, 3), None);
    assert_eq!(ws.peek_analysis(&key, 3), Some(9));
    assert_eq!(ws.peek_analysis(&key, 4), None);
}

#[test]
fn a_valid_analysis_is_served_whatever_the_analyzer_says() {
    let mut ws = workspace(4);
    let key = key("/proj/a.gd");
    let first = ws.analyze(&key, 5, 3, Analysis { value: 9, bailed: COMPLETE });
    assert_eq!(first.value, 9);
    let again = ws.analyze(&key, 5, 3, Analysis { value: 10, bailed: BAILED });
    assert_eq!(again, Analysis { value: 9, bailed: COMPLETE });
    let edited = ws.analyze(&key, 6, 3, Analysis { value: 11, bailed: COMPLETE });
    assert_eq!(edited.value, 11);
}

#[test]
fn a_partial_analysis_is_served_but_not_kept() {
    let mut ws = workspace(4);
    let key = key("/proj/a.gd");
    let done = ws.analyzed(&key, 5, 3, Analysis { value: 9, bailed: BAILED });
    assert_eq!(done, Analysis { value: 9, bailed: BAILED });
    assert_eq!(ws.valid_analysis(&key, 5, 3), None);
}

#[test]
fn forgetting_drops_parse_and_analysis() {
    let mut ws = workspace(4);
    let key = key("/proj/a.gd");
    ws.parsed(&key, 5, 1);
    ws.analyzed(&key, 5, 0, Analysis { value: 2, bailed: COMPLETE });
    assert_eq!(ws.cache_lens(), (1, 1));
    ws.forget(&key);
    assert_eq!(ws.cache_lens(), (0, 0));
}

#[test]
fn half_of_the_caches_is_shed_oldest_first() {
    let mut ws = workspace(8);
    for i in 0..5u64 {
        ws.debug_insert_parse_entry(key(&format!("/p{i}")), i, i);
        ws.debug_insert_analysis_entry(key(&format!("/p{i}")), i, i);
    }
    assert_eq!(ws.evict_half(), 4);
    assert_eq!(ws.cache_lens(), (3, 3));
    assert_eq!(ws.cached_parse(&key("/p1"), 1), None);
    assert_eq!(ws.cached_parse(&key("/p2"), 2), Some(2));
}

#[test]
fn a_smaller_capacity_drops_the_oldest() {
    let mut ws = workspace(8);
    for i in 0..5u64 {
        ws.parsed(&key(&format!("/p{i}")), i, i);
    }
    assert_eq!(ws.cached_parse(&key("/p0"), 0), Some(0));
    ws.set_cache_capacity(2);
    assert_eq!(ws.cache_lens().0, 2);
    assert_eq!(ws.cached_parse(&key("/p0"), 0), Some(0), "the last one used stays");
    assert_eq!(ws.cached_parse(&key("/p3"), 3), None);
}

#[test]
fn new_rules_start_a_new_generation() {
    let mut ws = workspace(4);
    let generation = ws.analysis_generation();
    let key = key("/a.gd");
    ws.analyzed(&key, 5, 0, Analysis { value: 2, bailed: COMPLETE });
    ws.apply_strict();
    assert_eq!(ws.analysis_generation(), generation + 1);
    assert_eq!(ws.valid_analysis(&key, 5, 0), None);
    ws.set_analyzer_config(AnalyzerLimits { iter_limit: Some(3), checkpoint_delay_us: None });
    assert_eq!(ws.analysis_generation(), generation + 2);
    let limits = AnalyzerLimits { iter_limit: None, checkpoint_delay_us: Some(8) };
    let effective = ws.effective_limits(limits);
    assert_eq!(effective, AnalyzerLimits { iter_limit: Some(3), checkpoint_delay_us: Some(8) });
}

#[test]
fn a_surface_of_the_same_content_changes_nothing() {
    let mut ws = workspace(4);
    let generation = ws.analysis_generation();
    assert!(!ws.adopt_native(surface(1), true));
    assert_eq!(ws.analysis_generation(), generation);
    assert!(ws.adopt_native(surface(2), true));
    assert_eq!(ws.native().content_hash, 2);
    assert!(ws.analysis_generation() > generation);
    assert!(!ws.reload_native(loaded(2)));
    assert!(ws.reload_native(loaded(3)));
}

fn project(preserve_prior: bool, minor: u32) -> ProjectReload {
    let mut uids = TextMap::new();
    uids.insert("uid://b".to_string(), "res://b.gd".to_string());
    let dialect = Dialect { major: 4, minor };
    ProjectReload { preserve_prior, dialect, origin: DialectOrigin::Override, uids }
}

#[test]
fn another_dialect_asks_for_a_rebuild() {
    let mut ws = workspace(4);
    assert!(ws.reload_project_and_native(project(false, 6), loaded(2)));
    let older = Dialect { major: 4, minor: 6 };
    assert_eq!(ws.dialect(), (older, DialectOrigin::Override));
    assert_eq!(ws.native().content_hash, 1, "the surface is left to the rebuild");
}

#[test]
fn the_same_dialect_is_reloaded_in_place() {
    let mut ws = workspace(4);
    let generation = ws.analysis_generation();
    assert!(!ws.reload_project_and_native(project(false, 7), loaded(2)));
    assert_eq!(ws.dialect(), (NEWEST, DialectOrigin::Override));
    assert_eq!(ws.native().content_hash, 2);
    assert_eq!(ws.resource_of_uid("uid://b"), Some("res://b.gd"));
    assert!(ws.native_release_notice().is_none());
    assert!(ws.analysis_generation() > generation);
}

#[test]
fn an_unreadable_project_file_changes_nothing() {
    let mut ws = workspace(4);
    assert!(!ws.reload_project_and_native(project(true, 6), loaded(2)));
    assert_eq!(ws.dialect(), (NEWEST, DialectOrigin::Declared));
    assert_eq!(ws.native().content_hash, 1);
    assert_eq!(ws.resource_of_uid("uid://b"), None);
}

#[test]
fn the_second_delivery_of_a_text_is_a_duplicate() {
    let mut ws = workspace(4);
    assert!(!ws.disk_apply_is_duplicate("/a.gd", "x"));
    ws.record_disk_apply("/a.gd", "x");
    assert!(ws.disk_apply_is_duplicate("/a.gd", "x"));
    assert!(!ws.disk_apply_is_duplicate("/a.gd", "y"));
    assert!(!ws.disk_apply_is_duplicate("/b.gd", "x"));
    ws.record_applied("/b.gd", 77);
    assert!(ws.is_last_applied("/b.gd", 77));
    assert!(!ws.is_last_applied("/b.gd", 78));
    ws.reindex("/a.gd", 1);
    ws.remove("/a.gd", Some(key("/a.gd")));
    assert!(!ws.disk_apply_is_duplicate("/a.gd", "x"), "a file that was removed is new again");
    assert_eq!(ws.files().interface_of("/a.gd"), None);
}

#[test]
fn a_uid_follows_its_sidecar() {
    let mut ws = workspace(4);
    let change = ws.sync_uid_sidecar(Some("res://a.gd"), Some("  uid://abc\n"));
    assert_eq!((change.previous, change.current), (None, Some("uid://abc".to_string())));
    assert_eq!(ws.resource_of_uid("uid://abc"), Some("res://a.gd"));
    let change = ws.sync_uid_sidecar(Some("res://a.gd"), Some("uid://def"));
    assert_eq!(change.previous, Some("uid://abc".to_string()));
    assert_eq!(ws.resource_of_uid("uid://abc"), None);
    let change = ws.drop_uid_sidecar(Some("res://a.gd"));
    assert_eq!((change.previous, change.current), (Some("uid://def".to_string()), None));
    assert_eq!(ws.resource_of_uid("uid://def"), None);
}

#[test]
fn a_sidecar_names_its_resource() {
    assert_eq!(sidecar_resource("res://a.gd.uid"), Some("res://a.gd".to_string()));
    assert_eq!(sidecar_resource("res://a.gd"), None);
}

#[test]
fn scenes_of_both_uids_are_visited_once() {
    let list = |items: &[&str]| items.iter().map(|s| s.to_string()).collect::<Vec<String>>();
    let targets = uid_scene_targets(&list(&["b", "a"]), &list(&["c", "a"]));
    assert_eq!(targets, ["a", "b", "c"]);
}

#[test]
fn the_cache_key_tells_surfaces_apart() {
    let mut ws = workspace(4);
    let before = ws.cache_key(3, "1.0".to_string(), 5);
    assert_eq!(before.native_db_content_hash, 1);
    assert_eq!((before.cache_format_version, before.project_fingerprint), (3, 5));
    assert_eq!(before.server_version, "1.0");
    assert_eq!(before.dialect, NEWEST);
    ws.adopt_native(surface(2), true);
    assert_eq!(ws.cache_key(3, "1.0".to_string(), 5).native_db_content_hash, 2);
}

#[test]
fn stats_of_open_files_are_not_saved() {
    let mut ws = workspace(4);
    for path in ["/a.gd", "/b.gd"] {
        ws.reindex(path, 1);
        ws.update_stat_from_disk(path, stat(1));
    }
    let mut open: PathSet = TextMap::new();
    open.insert("/a.gd".to_string(), ());
    let saved = ws.save_cache_excluding_open(&open);
    assert_eq!(saved.len(), 1);
    assert_eq!(saved[0].0, "/b.gd");
    assert_eq!(ws.save_cache().len(), 2);
}

#[test]
fn scenes_and_assets_come_and_go() {
    let mut ws = workspace(4);
    ws.reindex_scene("/m.tscn", Some("res://m.tscn"), FileRead::Text(1), stat(1));
    assert!(ws.files().has_scene("res://m.tscn"));
    assert_eq!(ws.files().stat_of("/m.tscn"), stat(1));
    ws.reindex_scene("/m.tscn", Some("res://m.tscn"), FileRead::NotFound, None);
    assert!(!ws.files().has_scene("res://m.tscn"));
    ws.reindex_asset("/i.png", Some("res://i.png"), stat(2));
    assert!(ws.files().has_asset("res://i.png"));
    ws.remove_asset("/i.png", Some("res://i.png"));
    assert!(!ws.files().has_asset("res://i.png"));
    ws.reindex_scene("/m.tscn", Some("res://m.tscn"), FileRead::Text(1), stat(1));
    ws.remove_scene("/m.tscn", Some("res://m.tscn"));
    assert!(!ws.files().has_scene("res://m.tscn"));
}

fn walked(path: &str, size: u64, interface: u64) -> (WalkItem, FileProbe) {
    let file = WalkedFile { path: path.to_string(), kind: FileKind::Script, stat: stat(size) };
    let probe =
        FileProbe { res: None, read: FileRead::Text(interface), stat_now: stat(size) };
    (WalkItem::File(file), probe)
}

#[test]
fn reconciling_follows_the_disk() {
    let mut ws = workspace(4);
    let open: PathSet = TextMap::new();
    let report = ws.reconcile(&vec![walked("/a.gd", 1, 10), walked("/b.gd", 1, 20)], &open);
    assert_eq!((report.added, report.walked), (2, 2));
    let report = ws.reconcile(&vec![walked("/a.gd", 2, 11)], &open);
    assert_eq!((report.added, report.modified, report.removed), (0, 1, 1));
    assert_eq!(ws.files().interface_of("/a.gd"), Some(11));
    assert_eq!(ws.files().interface_of("/b.gd"), None);
    let items = vec![walked("/a.gd", 3, 12), walked("/c.gd", 1, 30)];
    let report = ws.reconcile_with(&items, &open, ReconcileMode::DiscoverOnly);
    assert_eq!((report.added, report.modified, report.removed), (1, 0, 0));
    assert_eq!(ws.files().interface_of("/a.gd"), Some(11));
}

#[test]
fn a_walk_can_be_taken_step_by_step() {
    let mut ws = workspace(4);
    let open: PathSet = TextMap::new();
    let mut walk = Reconciliation::start(ReconcileMode::FullStat);
    let (item, probe) = walked("/a.gd", 1, 10);
    if walk.visit(ws.files(), &item, &open) {
        match &item {
            WalkItem::File(file) => ws.take_in(&mut walk, file, &probe),
            _ => unreachable!(),
        }
    }
    let report = ws.finish_reconcile(walk, &open);
    assert_eq!(report.added, 1);
    assert_eq!(ws.files().interface_of("/a.gd"), Some(10));
}
