use gd_server::files::{
    file_kind, is_stat_changed, reconcile, walked_file, FileKind, FileProbe, FileRead, FileStat,
    PathSet, ProjectFiles, ReconcileMode, Reconciliation, ReconciliationReport, WalkItem,
    WalkedFile,
};
use gd_server::startup::{
    cold_index, warm_index_from_cache, IndexedResource, IndexedScene, IndexedScript, WarmWalk,
};
use gd_server::text_map::TextMap;

fn stat(size: u64) -> Option<FileStat> {
    Some(FileStat { size, mtime_ns: -5 })
}

fn probe(res: Option<&str>, read: FileRead, size: u64) -> FileProbe {
    FileProbe { res: res.map(|r| r.to_string()), read, stat_now: stat(size) }
}

fn walked(path: &str, kind: FileKind, size: u64) -> WalkItem {
    WalkItem::File(WalkedFile { path: path.to_string(), kind, stat: stat(size) })
}

fn none_open() -> PathSet {
    TextMap::new()
}

#[test]
fn kinds_come_from_extensions() {
    assert_eq!(file_kind("/a.gd", false), FileKind::Script);
    assert_eq!(file_kind("/a.tscn", true), FileKind::Scene);
    assert_eq!(file_kind("/a.png", false), FileKind::Asset);
}

#[test]
fn a_stat_tells_a_changed_file() {
    let mut files = ProjectFiles::new();
    assert!(is_stat_changed(&files, "/a.gd", stat(1)));
    files.update_stat("/a.gd", stat(1));
    assert!(!is_stat_changed(&files, "/a.gd", stat(1)));
    assert!(is_stat_changed(&files, "/a.gd", stat(2)));
    files.update_stat("/a.gd", None);
    assert_eq!(files.stat_of("/a.gd"), None);
}

#[test]
fn a_walk_adds_changes_and_drops() {
    let mut files = ProjectFiles::new();
    let items = vec![
        (walked("/a.gd", FileKind::Script, 1), probe(None, FileRead::Text(1), 1)),
        (walked("/m.tscn", FileKind::Scene, 1), probe(Some("res://m.tscn"), FileRead::Text(2), 1)),
        (walked("/i.png", FileKind::Asset, 1), probe(Some("res://i.png"), FileRead::Text(3), 1)),
        (walked("/gone.gd", FileKind::Script, 1), probe(None, FileRead::Unreadable, 1)),
        (WalkItem::NotUtf8, probe(None, FileRead::NotFound, 0)),
        (WalkItem::NotFile, probe(None, FileRead::NotFound, 0)),
    ];
    let report = reconcile(&mut files, &items, &none_open(), ReconcileMode::FullStat);
    assert_eq!((report.added, report.walked), (1, 4), "scripts are counted as added");
    assert_eq!(report.skipped_unreadable, 1);
    assert_eq!(report.skipped_non_utf8, 1);
    assert!(report.had_errors());
    assert_eq!(files.interface_of("/a.gd"), Some(1));
    assert!(files.has_scene("res://m.tscn") && files.has_asset("res://i.png"));

    let report = reconcile(&mut files, &items[..1].iter().map(copy).collect(), &none_open(),
        ReconcileMode::FullStat);
    assert_eq!((report.added, report.modified, report.removed), (0, 0, 0));
    assert!(!report.had_errors());
    assert!(!files.has_scene("res://m.tscn") && !files.has_asset("res://i.png"));
}

fn copy(item: &(WalkItem, FileProbe)) -> (WalkItem, FileProbe) {
    let walk = match &item.0 {
        WalkItem::File(f) => WalkItem::File(WalkedFile {
            path: f.path.clone(),
            kind: f.kind,
            stat: f.stat,
        }),
        WalkItem::Error => WalkItem::Error,
        WalkItem::NotFile => WalkItem::NotFile,
        WalkItem::NotUtf8 => WalkItem::NotUtf8,
    };
    let p = &item.1;
    (walk, FileProbe { res: p.res.clone(), read: p.read, stat_now: p.stat_now })
}

#[test]
fn an_open_buffer_is_neither_read_nor_dropped() {
    let mut files = ProjectFiles::new();
    files.set_script("/a.gd", 1);
    let mut open = none_open();
    open.insert("/a.gd".to_string(), ());
    let report = reconcile(&mut files, &vec![], &open, ReconcileMode::FullStat);
    assert_eq!(report.removed, 0);
    let mut walk = Reconciliation::start(ReconcileMode::FullStat);
    assert!(!walk.visit(&files, &walked("/a.gd", FileKind::Script, 9), &open));
    let report = walk.finish(&mut files, &open);
    assert_eq!(files.interface_of("/a.gd"), Some(1));
    assert_eq!(report.walked, 1);
}

#[test]
fn a_walk_with_errors_drops_nothing() {
    let mut files = ProjectFiles::new();
    files.set_script("/a.gd", 1);
    let items = vec![(WalkItem::Error, probe(None, FileRead::NotFound, 0))];
    let report = reconcile(&mut files, &items, &none_open(), ReconcileMode::FullStat);
    assert_eq!((report.walk_errors, report.removed), (1, 0));
    assert_eq!(files.interface_of("/a.gd"), Some(1));
}

#[test]
fn an_empty_report_has_no_errors() {
    let report = ReconciliationReport::default();
    assert!(!report.had_errors());
    assert_eq!(report.walked, 0);
}

#[test]
fn scripts_scenes_and_assets_are_taken_out_again() {
    let mut files = ProjectFiles::new();
    files.set_script("/a.gd", 4);
    files.remove_script("/a.gd");
    assert_eq!(files.interface_of("/a.gd"), None);
    files.set_scene("res://m.tscn", Some("/m.tscn"), 6);
    assert_eq!(files.scene_of("res://m.tscn"), Some(6));
    files.remove_scene("/m.tscn", Some("res://m.tscn"));
    assert!(!files.has_scene("res://m.tscn"));
    files.set_asset("res://i.png", None);
    assert!(files.has_asset("res://i.png"));
    files.remove_asset("/i.png", Some("res://i.png"));
    assert!(!files.has_asset("res://i.png"));
    files.reindex_asset("/i.png", Some("res://i.png"), stat(1));
    assert_eq!(files.stat_of("/i.png"), stat(1));
    files.reindex_scene("/m.tscn", Some("res://m.tscn"), FileRead::Unreadable, stat(1));
    assert!(!files.has_scene("res://m.tscn"));
}

#[test]
fn a_cold_index_holds_what_was_found() {
    let files = cold_index(
        &vec![IndexedScript { path: "/a.gd".to_string(), interface: 5, stat: stat(1) }],
        &vec![IndexedScene {
            res: "res://m.tscn".to_string(),
            path: Some("/m.tscn".to_string()),
            parse: 9,
            stat: stat(2),
        }],
        &vec![IndexedResource { res: "res://i.png".to_string(), path: None, stat: None }],
    );
    assert_eq!(files.interface_of("/a.gd"), Some(5));
    assert_eq!(files.stat_of("/m.tscn"), stat(2));
    assert_eq!(files.scene_of("res://m.tscn"), Some(9));
    let script = IndexedScript { path: "c:\\b.gd".to_string(), interface: 6, stat: stat(3) };
    let spelled = cold_index(&vec![script], &vec![], &vec![]);
    assert_eq!(spelled.interface_of("C:/b.gd"), Some(6));
    assert_eq!(spelled.stat_of("C:/b.gd"), stat(3));
    assert!(files.has_scene("res://m.tscn") && files.has_asset("res://i.png"));
    let saved = files.stats_without(&none_open());
    assert_eq!(saved.len(), 2);
}

#[test]
fn a_warm_start_reads_only_what_changed() {
    let mut files = ProjectFiles::new();
    for path in ["/same.gd", "/new_stat.gd", "/deleted.gd"] {
        files.set_script(path, 1);
        files.update_stat(path, stat(1));
    }
    let items = vec![
        (walked("/same.gd", FileKind::Script, 1), probe(None, FileRead::Text(9), 1)),
        (walked("/new_stat.gd", FileKind::Script, 2), probe(None, FileRead::Text(2), 2)),
        (walked("/added.gd", FileKind::Script, 1), probe(None, FileRead::Text(3), 1)),
    ];
    let report = warm_index_from_cache(&mut files, &items);
    assert_eq!((report.added, report.reparsed, report.removed), (1, 1, 1));
    assert_eq!(files.interface_of("/same.gd"), Some(1));
    assert_eq!(files.interface_of("/new_stat.gd"), Some(2));
    assert_eq!(files.interface_of("/added.gd"), Some(3));
    assert_eq!(files.interface_of("/deleted.gd"), None);
}

#[test]
fn a_warm_walk_with_errors_drops_nothing() {
    let mut files = ProjectFiles::new();
    files.set_script("/a.gd", 1);
    let mut walk = WarmWalk::start();
    assert!(!walk.visit(&files, &WalkItem::Error));
    let report = walk.finish(&mut files);
    assert_eq!((report.walk_errors, report.removed), (1, 0));
    assert_eq!(files.interface_of("/a.gd"), Some(1));
}

#[test]
fn a_second_walk_of_the_same_tree_changes_nothing() {
    let mut files = ProjectFiles::new();
    let items = vec![
        (walked("/a.gd", FileKind::Script, 1), probe(None, FileRead::Text(1), 1)),
        (walked("/m.tscn", FileKind::Scene, 1), probe(Some("res://m.tscn"), FileRead::Text(2), 1)),
    ];
    reconcile(&mut files, &items, &none_open(), ReconcileMode::FullStat);
    let report = reconcile(&mut files, &items, &none_open(), ReconcileMode::FullStat);
    assert_eq!((report.added, report.modified, report.removed), (0, 0, 0));
    assert_eq!(report.walked, 2);
    assert_eq!(files.interface_of("/a.gd"), Some(1));
    assert!(files.has_scene("res://m.tscn"));
}

#[test]
fn a_file_without_a_stat_is_read_again() {
    let mut files = ProjectFiles::new();
    files.set_script("/a.gd", 1);
    let items = vec![(walked("/a.gd", FileKind::Script, 1), probe(None, FileRead::Text(2), 1))];
    let report = warm_index_from_cache(&mut files, &items);
    assert_eq!((report.reparsed, report.added), (1, 0));
    assert_eq!(files.interface_of("/a.gd"), Some(2));
    assert_eq!(files.stat_of("/a.gd"), stat(1));
}

#[test]
fn discovery_passes_over_every_known_file() {
    let mut files = ProjectFiles::new();
    files.set_script("/a.gd", 1);
    files.update_stat("/a.gd", stat(1));
    files.set_scene("res://m.tscn", Some("/m.tscn"), 2);
    files.update_stat("/m.tscn", stat(1));
    files.set_asset("res://i.png", Some("/i.png"));
    files.update_stat("/i.png", stat(1));
    let items = vec![
        (walked("/a.gd", FileKind::Script, 7), probe(None, FileRead::Text(8), 7)),
        (walked("/m.tscn", FileKind::Scene, 7), probe(Some("res://m.tscn"), FileRead::Text(8), 7)),
        (walked("/i.png", FileKind::Asset, 7), probe(Some("res://i.png"), FileRead::NotFound, 7)),
        (walked("/n.tscn", FileKind::Scene, 7), probe(Some("res://n.tscn"), FileRead::Text(9), 7)),
    ];
    let report = reconcile(&mut files, &items, &none_open(), ReconcileMode::DiscoverOnly);
    assert_eq!((report.added, report.modified, report.removed), (0, 0, 0));
    assert_eq!(files.interface_of("/a.gd"), Some(1));
    assert_eq!(files.scene_of("res://m.tscn"), Some(2));
    assert_eq!(files.scene_of("res://n.tscn"), Some(9));
    for path in ["/a.gd", "/m.tscn", "/i.png"] {
        assert_eq!(files.stat_of(path), stat(1));
    }
    reconcile(&mut files, &items, &none_open(), ReconcileMode::FullStat);
    assert_eq!(files.interface_of("/a.gd"), Some(8));
    assert_eq!(files.scene_of("res://m.tscn"), Some(8));
    assert_eq!(files.stat_of("/i.png"), stat(7));
}

#[test]
fn a_second_walk_changes_nothing_though_files_cannot_be_read() {
    let mut files = ProjectFiles::new();
    files.set_script("/open.gd", 1);
    files.set_script("/locked.gd", 2);
    files.update_stat("/locked.gd", stat(1));
    let mut open = none_open();
    open.insert("/open.gd".to_string(), ());
    let unreadable = FileRead::Unreadable;
    let items = vec![
        (walked("/open.gd", FileKind::Script, 1), probe(None, unreadable, 1)),
        (walked("/locked.gd", FileKind::Script, 1), probe(None, unreadable, 1)),
        (walked("/m.tscn", FileKind::Scene, 1), probe(Some("res://m.tscn"), unreadable, 1)),
        (walked("/n.tscn", FileKind::Scene, 1), probe(Some("res://n.tscn"), FileRead::Text(3), 1)),
    ];
    let first = reconcile(&mut files, &items, &open, ReconcileMode::FullStat);
    assert!(!first.had_errors());
    let second = reconcile(&mut files, &items, &open, ReconcileMode::FullStat);
    assert_eq!((second.added, second.modified, second.removed), (0, 0, 0));
    assert_eq!(second.walked, first.walked);
    assert_eq!(files.interface_of("/open.gd"), Some(1));
    assert_eq!(files.interface_of("/locked.gd"), Some(2));
    assert_eq!(files.scene_of("res://m.tscn"), None);
    assert_eq!(files.scene_of("res://n.tscn"), Some(3));
}

#[test]
fn a_walked_file_has_a_normalized_path() {
    let file = walked_file("c:\\proj\\a.gd", false, stat(1));
    assert_eq!(file.path, "C:/proj/a.gd");
    assert_eq!(file.stat, stat(1));
    assert_eq!(walked_file("/m.tscn", true, None).kind, FileKind::Scene);
    assert_eq!(walked_file("/a.gd", false, None).kind, FileKind::Script);
}
