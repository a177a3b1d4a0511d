use gd_server::watcher::{
    classify_client_event, classify_event, classify_known, path_facts, reaction_for_path,
    root_exists, EventKind, EventPath, FileChange, KnownPath, Reaction, RootProbe, SkipReason,
};

fn event(paths: &[&str]) -> Vec<EventPath> {
    paths
        .iter()
        .map(|p| EventPath { path: Some(p.to_string()), excluded: false })
        .collect()
}

#[test]
fn classify_gd_create_returns_gdsource() {
    let r = classify_event(EventKind::Create, &event(&["/proj/src/foo.gd"]), "/proj");
    assert!(matches!(
        r.as_slice(),
        [Reaction::GdSource { change: FileChange::Created, .. }]
    ));
}

#[test]
fn classify_tscn_returns_scene() {
    let r = classify_event(EventKind::Modify, &event(&["/proj/src/Main.tscn"]), "/proj");
    assert!(matches!(
        r.as_slice(),
        [Reaction::Scene { change: FileChange::Modified, .. }]
    ));
}

#[test]
fn classify_client_tscn_returns_scene() {
    let r = classify_client_event("/proj/ui/Panel.tscn", FileChange::Created, "/proj", false);
    assert!(matches!(r, Reaction::Scene { change: FileChange::Created, .. }));
}

#[test]
fn classify_scn_binary_is_not_a_scene_reaction() {
    let r = classify_client_event("/proj/ui/Panel.scn", FileChange::Modified, "/proj", false);
    assert!(matches!(r, Reaction::Other(SkipReason::UnknownExtension)));
}

#[test]
fn classify_extension_api_json_at_root() {
    let r = classify_event(EventKind::Modify, &event(&["/proj/extension_api.json"]), "/proj");
    assert!(matches!(r.as_slice(), [Reaction::ExtensionApiJson]));
}

#[test]
fn classify_extension_api_json_under_addon_is_ignored() {
    let paths = event(&["/proj/addons/cool/extension_api.json"]);
    let r = classify_event(EventKind::Modify, &paths, "/proj");
    assert!(matches!(r.as_slice(), [Reaction::Other(_)]));
}

#[test]
fn classify_project_godot() {
    let r = classify_event(EventKind::Modify, &event(&["/proj/project.godot"]), "/proj");
    assert!(matches!(r.as_slice(), [Reaction::ProjectGodot]));
}

#[test]
fn classify_excluded_path_returns_other() {
    let paths = vec![EventPath {
        path: Some("/proj/.godot/uid_cache.bin".to_string()),
        excluded: true,
    }];
    let result = classify_event(EventKind::Modify, &paths, "/proj");
    assert!(result.is_empty() || matches!(result.as_slice(), [Reaction::Other(_)]));
}

#[test]
fn classify_rename_both_ends_gd_merges_to_single_renamed() {
    let paths = event(&["/proj/src/old.gd", "/proj/src/new.gd"]);
    let result = classify_event(EventKind::RenameBoth, &paths, "/proj");
    match result.as_slice() {
        [Reaction::GdSource { change: FileChange::Renamed { from, to }, .. }] => {
            assert!(from.as_str().ends_with("old.gd"));
            assert!(to.as_str().ends_with("new.gd"));
        }
        _ => panic!("expected a single renamed source"),
    }
}

#[test]
fn classify_doc_classes_xml() {
    let paths = event(&["/proj/addons/cool/doc_classes/MyClass.xml"]);
    let r = classify_event(EventKind::Modify, &paths, "/proj");
    assert!(matches!(r.as_slice(), [Reaction::DocClassesXml { .. }]));
}

#[test]
fn classify_unrelated_xml_is_other() {
    let r = classify_event(EventKind::Modify, &event(&["/proj/scenes/main.xml"]), "/proj");
    assert!(matches!(r.as_slice(), [Reaction::Other(_)]));
}

#[test]
fn facts_come_from_the_path() {
    let facts = path_facts("/proj/addons/cool/doc_classes/MyClass.XML", "/proj");
    assert_eq!(facts.file_name.as_deref(), Some("MyClass.XML"));
    assert_eq!(facts.extension.as_deref(), Some("XML"));
    assert_eq!(facts.folder.as_deref(), Some("doc_classes"));
    assert!(!facts.at_root);
    assert!(path_facts("/proj/project.godot", "/proj").at_root);
}

#[test]
fn case_matters_in_an_extension_but_not_in_a_name() {
    let r = reaction_for_path("/proj/A.GD", FileChange::Modified, "/proj");
    assert!(matches!(r, Reaction::Other(SkipReason::UnknownExtension)));
    let r = reaction_for_path("/proj/DOC_CLASSES/A.xml", FileChange::Modified, "/proj");
    assert!(matches!(r, Reaction::DocClassesXml { .. }));
    let r = reaction_for_path("/proj/Project.Godot", FileChange::Modified, "/proj");
    assert!(matches!(r, Reaction::ProjectGodot));
}

#[test]
fn a_file_without_extension_is_skipped() {
    let r = reaction_for_path("/proj/LICENSE", FileChange::Modified, "/proj");
    assert!(matches!(r, Reaction::Other(SkipReason::NoExtension)));
}

#[test]
fn an_excluded_client_path_is_skipped() {
    let r = classify_client_event("/proj/.godot/a.gd", FileChange::Modified, "/proj", true);
    assert!(matches!(r, Reaction::Other(SkipReason::Excluded)));
}

#[test]
fn an_access_is_skipped() {
    let r = classify_event(EventKind::Access, &event(&["/proj/a.gd"]), "/proj");
    assert!(matches!(r.as_slice(), [Reaction::Other(SkipReason::AccessOnly)]));
}

#[test]
fn an_event_without_a_path_is_skipped() {
    let r = classify_event(EventKind::Modify, &Vec::new(), "/proj");
    assert!(matches!(r.as_slice(), [Reaction::Other(SkipReason::NoPath)]));
}

#[test]
fn a_rename_out_of_the_scripts_is_two_changes() {
    let paths = event(&["/proj/src/old.gd", "/proj/src/new.tscn"]);
    let r = classify_event(EventKind::RenameBoth, &paths, "/proj");
    assert!(matches!(
        r.as_slice(),
        [
            Reaction::GdSource { change: FileChange::Deleted, .. },
            Reaction::Scene { change: FileChange::Created, .. }
        ]
    ));
}

#[test]
fn what_is_known_of_paths_decides() {
    let paths = vec![KnownPath {
        path: "/proj/a.gdextension".to_string(),
        excluded: false,
        facts: path_facts("/proj/a.gdextension", "/proj"),
    }];
    let r = classify_known(EventKind::Remove, &paths);
    assert!(matches!(
        r.as_slice(),
        [Reaction::Gdextension { change: FileChange::Deleted, .. }]
    ));
}

#[test]
fn a_root_is_lost_when_it_is_gone_or_another() {
    assert!(root_exists(RootProbe::Opened { same_identity: Some(true) }));
    assert!(root_exists(RootProbe::Opened { same_identity: None }));
    assert!(!root_exists(RootProbe::Opened { same_identity: Some(false) }));
    assert!(!root_exists(RootProbe::NotFound));
}

#[test]
fn skip_reasons_have_names() {
    let all = [
        SkipReason::NoPath,
        SkipReason::Excluded,
        SkipReason::AccessOnly,
        SkipReason::UnknownExtension,
        SkipReason::NoExtension,
        SkipReason::NotDocClasses,
    ];
    let mut names: Vec<&str> = Vec::new();
    for reason in all {
        let name = reason.as_str();
        assert!(!name.is_empty() && !names.contains(&name));
        names.push(name);
    }
}

#[test]
fn client_and_watcher_go_through_one_funnel() {
    for path in ["/proj/a.gd", "/proj/m.tscn", "/proj/x.bin", "/proj/project.godot"] {
        let client = classify_client_event(path, FileChange::Created, "/proj", false);
        let native = classify_event(EventKind::Create, &event(&[path]), "/proj");
        assert_eq!(native.len(), 1);
        assert_eq!(format!("{client:?}"), format!("{:?}", native[0]), "{path}");
    }
}

#[test]
fn a_renamed_source_is_where_it_went() {
    let paths = event(&["/proj/src/old.gd", "/proj/src/new.gd"]);
    let result = classify_event(EventKind::RenameBoth, &paths, "/proj");
    match result.as_slice() {
        [Reaction::GdSource { path, change: FileChange::Renamed { to, .. } }] => {
            assert_eq!(path, to);
        }
        _ => panic!("a single renamed source"),
    }
}

#[test]
fn a_rename_into_an_excluded_directory_is_a_deletion() {
    let excluded = |from: bool, to: bool| {
        vec![
            EventPath { path: Some("/proj/a.gd".to_string()), excluded: from },
            EventPath { path: Some("/proj/.godot/a.gd".to_string()), excluded: to },
        ]
    };
    let r = classify_event(EventKind::RenameBoth, &excluded(false, true), "/proj");
    assert!(matches!(
        r.as_slice(),
        [Reaction::GdSource { change: FileChange::Deleted, .. }]
    ));
    let r = classify_event(EventKind::RenameBoth, &excluded(true, false), "/proj");
    assert!(matches!(
        r.as_slice(),
        [Reaction::GdSource { change: FileChange::Created, .. }]
    ));
    let r = classify_event(EventKind::RenameBoth, &excluded(true, true), "/proj");
    assert!(matches!(r.as_slice(), [Reaction::Other(SkipReason::Excluded)]));
}
