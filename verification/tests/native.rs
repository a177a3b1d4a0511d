use gd_server::native::{
    adopts_native, extension_class_notice, load_native, reconcile_release, release,
    version_mismatch_notice, ApiProvenance, ClassHint, Dialect, DialectOrigin, DocXml, Extension,
    NativeSource, NativeSurface,
};

const GODOT_4_6: Dialect = Dialect { major: 4, minor: 6 };
const GODOT_4_7: Dialect = Dialect { major: 4, minor: 7 };

fn ext(hints: &[&str], known: &[&str]) -> Vec<ClassHint> {
    hints
        .iter()
        .map(|h| ClassHint { name: h.to_string(), known: known.contains(h) })
        .collect()
}

fn db_at(major: u32, minor: u32) -> NativeSurface {
    NativeSurface {
        version_major: major,
        version_minor: minor,
        provenance: ApiProvenance::Exact,
        content_hash: 11,
        class_count: 1,
        empty: false,
    }
}

fn empty_db() -> NativeSurface {
    NativeSurface {
        version_major: 0,
        version_minor: 0,
        provenance: ApiProvenance::Exact,
        content_hash: 0,
        class_count: 0,
        empty: true,
    }
}

fn stock(embedded_fallback: bool) -> Option<NativeSurface> {
    if embedded_fallback {
        Some(NativeSurface {
            version_major: 4,
            version_minor: 7,
            provenance: ApiProvenance::Generic,
            content_hash: 99,
            class_count: 1000,
            empty: false,
        })
    } else {
        None
    }
}

#[test]
fn hints_absent_everywhere_warn_with_the_remediation() {
    let notice = extension_class_notice(&ext(&["BTPlayer", "BTTask"], &["Node"]), 0)
        .expect("hints the session cannot see must be called out");
    assert!(notice.contains("degrade to dynamic"), "{notice}");
    assert!(notice.contains("extension_list.cfg"), "{notice}");
    assert!(notice.contains("restart gdls"), "{notice}");
    assert!(notice.contains("BTPlayer, BTTask"), "{notice}");
}

#[test]
fn hints_already_in_the_dump_mean_no_degradation() {
    assert!(extension_class_notice(&ext(&["BTPlayer"], &["BTPlayer"]), 0).is_none());
}

#[test]
fn merged_doc_xml_or_no_hints_stay_silent() {
    assert!(extension_class_notice(&ext(&["BTPlayer"], &["Node"]), 1).is_none());
    assert!(extension_class_notice(&ext(&[], &["Node"]), 0).is_none());
}

#[test]
fn a_matching_dump_says_nothing() {
    assert!(version_mismatch_notice(&db_at(4, 7), GODOT_4_7).is_none());
    assert!(version_mismatch_notice(&db_at(4, 6), GODOT_4_6).is_none());
}

#[test]
fn a_dump_from_another_release_names_both_versions() {
    let notice = version_mismatch_notice(&db_at(4, 6), GODOT_4_7)
        .expect("a 4.6 dump under a 4.7 project must be called out");
    assert!(notice.contains("Godot 4.6"), "{notice}");
    assert!(notice.contains("Godot 4.7"), "{notice}");
}

#[test]
fn a_versionless_dump_says_nothing() {
    assert!(version_mismatch_notice(&empty_db(), GODOT_4_7).is_none());
}

#[test]
fn an_older_dump_is_replaced_by_the_declared_releases_stock_surface() {
    let mut db = db_at(4, 6);
    let notice = reconcile_release(&mut db, stock(true), GODOT_4_7, DialectOrigin::Declared)
        .expect("the user must hear about a rejected dump");
    assert_eq!(
        (db.version_major, db.version_minor),
        (4, 7),
        "the surface in use must be the declared release's"
    );
    assert!(db.class_count > 100);
    assert!(notice.contains("4.6") && notice.contains("4.7"), "{notice}");
    assert!(
        notice.contains("godotBinaryPath") && notice.contains("config/features"),
        "the notice must name both fixes: {notice}"
    );
}

#[test]
fn an_older_dump_without_a_fallback_is_kept_but_demoted() {
    let mut db = db_at(4, 6);
    let notice = reconcile_release(&mut db, stock(false), GODOT_4_7, DialectOrigin::Declared)
        .expect("a demoted surface is still worth telling the user about");
    assert_eq!((db.version_major, db.version_minor), (4, 6), "the dump itself must be kept");
    assert_eq!(db.provenance, ApiProvenance::Generic);
    assert!(notice.contains("4.6") && notice.contains("4.7"), "{notice}");
}

#[test]
fn a_newer_dump_is_left_alone() {
    let mut db = db_at(4, 7);
    let notice = reconcile_release(&mut db, stock(true), GODOT_4_6, DialectOrigin::Declared);
    assert!(notice.is_none(), "{notice:?}");
    assert_eq!((db.version_major, db.version_minor), (4, 7));
    assert_eq!(db.provenance, ApiProvenance::Exact);
}

#[test]
fn an_unevidenced_dialect_never_overrides_the_dump() {
    for origin in [DialectOrigin::DefaultedNewest, DialectOrigin::NoProject] {
        let mut db = db_at(4, 6);
        let notice = reconcile_release(&mut db, stock(true), GODOT_4_7, origin);
        assert!(notice.is_none(), "at {origin:?}: {notice:?}");
        assert_eq!((db.version_major, db.version_minor), (4, 6), "at {origin:?}");
        assert_eq!(db.provenance, ApiProvenance::Exact, "at {origin:?}");
    }
}

#[test]
fn a_matching_dump_is_untouched() {
    for origin in [
        DialectOrigin::Override,
        DialectOrigin::Declared,
        DialectOrigin::ClampedNewer,
        DialectOrigin::ClampedOlder,
    ] {
        let mut db = db_at(4, 7);
        let notice = reconcile_release(&mut db, stock(true), GODOT_4_7, origin);
        assert!(notice.is_none(), "at {origin:?}: {notice:?}");
        assert_eq!(db.provenance, ApiProvenance::Exact, "at {origin:?}");
    }
}

#[test]
fn a_versionless_dump_is_never_reconciled() {
    let mut db = empty_db();
    assert!(
        reconcile_release(&mut db, stock(true), GODOT_4_7, DialectOrigin::Declared).is_none()
    );
}

#[test]
fn a_release_is_written_with_a_dot() {
    assert_eq!(release(4, 7), "4.7");
    assert_eq!(release(10, 0), "10.0");
}

#[test]
fn an_unreadable_dump_falls_back_to_the_stock_surface() {
    let none = empty_db();
    let loaded = load_native(
        NativeSource::Unreadable,
        stock(true),
        none,
        &vec![],
        GODOT_4_7,
        DialectOrigin::Declared,
    );
    assert_eq!(loaded.surface, stock(true).unwrap());
    assert!(loaded.release_notice.is_none());
    let loaded = load_native(
        NativeSource::Unreadable,
        None,
        none,
        &vec![],
        GODOT_4_7,
        DialectOrigin::Declared,
    );
    assert_eq!(loaded.surface, none);
}

#[test]
fn each_extension_gets_its_own_notice() {
    let extensions = vec![
        Extension { docs: vec![DocXml::Merged], hints: ext(&["A"], &[]) },
        Extension { docs: vec![DocXml::Known, DocXml::Failed], hints: ext(&["B"], &[]) },
        Extension { docs: vec![DocXml::NotAClass], hints: ext(&["C"], &["C"]) },
    ];
    let loaded = load_native(
        NativeSource::Configured(db_at(4, 6)),
        None,
        empty_db(),
        &extensions,
        GODOT_4_7,
        DialectOrigin::Declared,
    );
    assert_eq!(loaded.surface.provenance, ApiProvenance::Generic);
    assert_eq!(loaded.surface.class_count, db_at(4, 6).class_count + 1);
    assert!(loaded.release_notice.is_some());
    assert!(loaded.extension_notices[0].is_none());
    assert!(loaded.extension_notices[1].as_ref().unwrap().starts_with("1 declared class(es)"));
    assert!(loaded.extension_notices[2].is_none());
}

#[test]
fn a_merged_class_fills_an_empty_surface() {
    let load = |docs: Vec<DocXml>| {
        load_native(
            NativeSource::Unreadable,
            None,
            empty_db(),
            &vec![Extension { docs, hints: ext(&["A"], &[]) }],
            GODOT_4_7,
            DialectOrigin::Declared,
        )
        .surface
    };
    let empty = load(vec![DocXml::Failed]);
    assert_eq!((empty.class_count, empty.empty), (empty_db().class_count, true));
    let filled = load(vec![DocXml::Merged, DocXml::Known, DocXml::Merged]);
    assert_eq!((filled.class_count, filled.empty), (empty_db().class_count + 2, false));
    assert!(!adopts_native(&db_at(4, 7), &empty, false));
    assert!(adopts_native(&db_at(4, 7), &filled, false));
}

#[test]
fn a_surface_is_adopted_when_it_differs() {
    let live = db_at(4, 7);
    assert!(!adopts_native(&live, &live, true));
    assert!(adopts_native(&live, &live, false));
    assert!(adopts_native(&live, &NativeSurface { content_hash: 12, ..live }, true));
    assert!(!adopts_native(&live, &empty_db(), false));
}

#[test]
fn a_release_is_reconciled_once() {
    for fallback in [true, false] {
        let mut db = db_at(4, 6);
        assert!(
            reconcile_release(&mut db, stock(fallback), GODOT_4_7, DialectOrigin::Declared)
                .is_some()
        );
        let once = db;
        reconcile_release(&mut db, stock(fallback), GODOT_4_7, DialectOrigin::Declared);
        assert_eq!(db, once);
        assert!(
            !(db.provenance == ApiProvenance::Exact && db.version_minor < 7),
            "an older surface is not taken for exact"
        );
    }
}

#[test]
fn an_exact_surface_is_not_given_up() {
    let live = db_at(4, 7);
    let generic = NativeSurface { provenance: ApiProvenance::Generic, content_hash: 2, ..live };
    assert!(!adopts_native(&live, &generic, true));
    assert!(adopts_native(&generic, &live, true));
}
