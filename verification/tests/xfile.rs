use gd_server::files::ProjectFiles;
use gd_server::native::{ApiProvenance, Dialect, DialectOrigin, LoadedNative, NativeSurface};
use gd_server::text_map::TextMap;
use gd_server::uri::{CanonicalKey, Uri};
use gd_server::workspace::{Analysis, AnalyzerLimits, Workspace};
use gd_server::xfile::{
    attachment_node, build_autoload_maps, AttachingScene, Autoload, AutoloadEnv, AutoloadTyping,
    FileId, MemberXref, MemberXrefs, ResolvedRoot, SceneNode, SceneNodeFacts, ScriptFile,
    ScriptIndex, WorkspaceXFileQuery,
};

fn workspace() -> Workspace {
    let surface = NativeSurface {
        version_major: 4,
        version_minor: 7,
        provenance: ApiProvenance::Exact,
        content_hash: 1,
        class_count: 1,
        empty: false,
    };
    Workspace::load(
        ProjectFiles::new(),
        TextMap::new(),
        LoadedNative { surface, release_notice: None, extension_notices: vec![] },
        Dialect { major: 4, minor: 7 },
        DialectOrigin::Declared,
        32,
        AnalyzerLimits { iter_limit: None, checkpoint_delay_us: None },
    )
}

fn index(files: &[(&str, u64)]) -> ScriptIndex {
    ScriptIndex {
        files: files
            .iter()
            .map(|(path, epoch)| ScriptFile {
                path: path.to_string(),
                resolved: None,
                epoch: *epoch,
            })
            .collect(),
        classes: TextMap::new(),
        resources: TextMap::new(),
    }
}

fn xrefs(member: &str, targets: &[(u32, &str)]) -> MemberXrefs {
    let mut map: MemberXrefs = TextMap::new();
    let list = targets
        .iter()
        .map(|(file, name)| MemberXref {
            target_file: FileId(*file),
            target_member: name.to_string(),
        })
        .collect();
    map.insert(member.to_string(), list);
    map
}

fn wire_key(uri: &str) -> CanonicalKey {
    CanonicalKey::for_uri(&Uri::parse(uri).unwrap(), None, false)
}

fn cache(ws: &mut Workspace, uri: &str, value: u64) {
    ws.analyzed(&wire_key(uri), 0, 0, Analysis { value, bailed: false });
}

fn no_autoloads() -> AutoloadEnv {
    build_autoload_maps(&vec![], &index(&[]))
}

#[test]
fn returns_xrefs_when_cache_hit_by_uri() {
    let idx = index(&[("/proj/b.gd", 0)]);
    let results = vec![xrefs("V", &[(7, "X")])];
    let mut ws = workspace();
    cache(&mut ws, "file:///proj/b.gd", 0);
    let xfile = WorkspaceXFileQuery::new(&idx, &ws, &results, no_autoloads());
    assert_eq!(
        xfile.member_initializer_xrefs(FileId(1), "V"),
        vec![MemberXref { target_file: FileId(7), target_member: "X".into() }]
    );
    assert!(xfile.member_initializer_xrefs(FileId(1), "Other").is_empty());
}

#[test]
fn returns_empty_when_cache_miss() {
    let idx = index(&[("/proj/c.gd", 0)]);
    let results = vec![];
    let ws = workspace();
    let xfile = WorkspaceXFileQuery::new(&idx, &ws, &results, no_autoloads());
    assert!(xfile.member_initializer_xrefs(FileId(1), "anything").is_empty());
}

#[test]
fn returns_empty_when_dependency_is_dirty() {
    let results = vec![xrefs("V", &[(7, "X")])];
    let mut ws = workspace();
    cache(&mut ws, "file:///proj/b.gd", 0);
    let idx = index(&[("/proj/b.gd", 1)]);
    let xfile = WorkspaceXFileQuery::new(&idx, &ws, &results, no_autoloads());
    assert!(
        xfile.member_initializer_xrefs(FileId(1), "V").is_empty(),
        "a dirty (stale) dependency must degrade to no-xrefs, not serve the cached entry"
    );
}

#[test]
fn returns_xrefs_when_project_path_contains_a_space() {
    let idx = index(&[("/proj/My Game/b.gd", 0)]);
    let results = vec![xrefs("V", &[(7, "X")])];
    let mut ws = workspace();
    cache(&mut ws, "file:///proj/My%20Game/b.gd", 0);
    let xfile = WorkspaceXFileQuery::new(&idx, &ws, &results, no_autoloads());
    assert_eq!(
        xfile.member_initializer_xrefs(FileId(1), "V"),
        vec![MemberXref { target_file: FileId(7), target_member: "X".into() }],
        "for_path must produce the percent-encoded URI so space-containing paths hit the cache"
    );
}

#[test]
fn delegates_non_xref_methods_to_syntactic_query() {
    let mut idx = index(&[("/proj/hero.gd", 0)]);
    idx.classes.insert("Hero".to_string(), FileId(1));
    idx.resources.insert("res://hero.gd".to_string(), FileId(1));
    let results = vec![];
    let ws = workspace();
    let xfile = WorkspaceXFileQuery::new(&idx, &ws, &results, no_autoloads());
    assert!(xfile.global_class_file("Hero").is_some());
    assert!(xfile.global_class_file("Nonexistent").is_none());
    assert_eq!(xfile.resolve_res_path("res://hero.gd"), Some(FileId(1)));
    assert_eq!(xfile.resolve_res_path("res://other.gd"), None);
    assert_eq!(xfile.file_path(FileId(1)), Some("/proj/hero.gd"));
    assert_eq!(xfile.file_path(FileId(9)), None);
}

#[test]
fn xref_lookup_does_not_promote_lru_recency() {
    let idx = index(&[("/proj/older.gd", 0), ("/proj/newer.gd", 0)]);
    let results = vec![xrefs("V", &[(99, "T")]), TextMap::new()];
    let mut ws = workspace();
    cache(&mut ws, "file:///proj/older.gd", 0);
    cache(&mut ws, "file:///proj/newer.gd", 1);
    let xfile = WorkspaceXFileQuery::new(&idx, &ws, &results, no_autoloads());
    assert_eq!(
        xfile.member_initializer_xrefs(FileId(1), "V"),
        vec![MemberXref { target_file: FileId(99), target_member: "T".into() }]
    );
    ws.evict_half();
    assert_eq!(ws.cache_lens().1, 1);
    assert_eq!(
        ws.peek_analysis(&wire_key("file:///proj/older.gd"), 0),
        None,
        "the older entry stayed the first to go"
    );
    assert_eq!(ws.peek_analysis(&wire_key("file:///proj/newer.gd"), 0), Some(1));
}

fn autoload(name: &str, is_singleton: bool, typing: Option<AutoloadTyping>) -> Autoload {
    Autoload { name: name.to_string(), is_singleton, typing }
}

#[test]
fn autoloads_are_scripts_or_nodes() {
    let mut idx = index(&[("/proj/game.gd", 0)]);
    idx.resources.insert("res://game.gd".to_string(), FileId(1));
    let autoloads = vec![
        autoload("Game", true, Some(AutoloadTyping::Script("res://game.gd".to_string()))),
        autoload("Gone", true, Some(AutoloadTyping::Script("res://gone.gd".to_string()))),
        autoload("Ui", true, Some(AutoloadTyping::NativeNode)),
        autoload("Hidden", false, Some(AutoloadTyping::NativeNode)),
        autoload("Odd", true, None),
    ];
    let results = vec![];
    let ws = workspace();
    let env = build_autoload_maps(&autoloads, &idx);
    let xfile = WorkspaceXFileQuery::new(&idx, &ws, &results, env);
    assert_eq!(xfile.autoload_file("Game"), Some(FileId(1)));
    assert_eq!(xfile.autoload_file("Gone"), None);
    assert_eq!(xfile.autoload_native_type("Ui"), Some("Node"));
    assert_eq!(xfile.autoload_native_type("Hidden"), None);
    for name in ["Game", "Gone", "Ui", "Odd"] {
        assert!(xfile.is_autoload(name), "{name}");
    }
    assert!(!xfile.is_autoload("Hidden"));
}

fn scene(nodes: &[(&str, Option<&str>)], native: Option<&str>) -> AttachingScene {
    AttachingScene {
        nodes: nodes
            .iter()
            .map(|(path, script)| SceneNode {
                path: path.to_string(),
                script: script.map(|s| s.to_string()),
            })
            .collect(),
        resolved: native.map(|n| ResolvedRoot {
            script: None,
            native_type: Some(n.to_string()),
        }),
    }
}

#[test]
fn a_script_attached_twice_in_a_scene_is_ambiguous() {
    let once = scene(&[(".", Some("res://a.gd")), ("Child", None)], None);
    assert_eq!(attachment_node(&once.nodes, "res://a.gd"), Some(".".to_string()));
    let twice = scene(&[(".", Some("res://a.gd")), ("Child", Some("res://a.gd"))], None);
    assert_eq!(attachment_node(&twice.nodes, "res://a.gd"), None);
}

#[test]
fn facts_hold_only_where_all_scenes_agree() {
    let mut idx = index(&[("/proj/a.gd", 0)]);
    idx.resources.insert("res://child.gd".to_string(), FileId(1));
    let results = vec![];
    let ws = workspace();
    let xfile = WorkspaceXFileQuery::new(&idx, &ws, &results, no_autoloads());
    let nodes: &[(&str, Option<&str>)] = &[(".", Some("res://a.gd"))];
    let button = || scene(nodes, Some("Button"));
    let facts = |scenes: Vec<AttachingScene>| xfile.scene_node_facts(Some("res://a.gd"), &scenes);
    assert_eq!(
        facts(vec![button(), button()]),
        Some(SceneNodeFacts::Native("Button".to_string()))
    );
    assert_eq!(facts(vec![button(), scene(nodes, Some("Label"))]), None);
    assert_eq!(facts(vec![button(), scene(nodes, None)]), None);
    assert_eq!(facts(vec![]), None);
    assert_eq!(xfile.scene_node_facts(None, &vec![button()]), None);
    let scripted = ResolvedRoot {
        script: Some("res://child.gd".to_string()),
        native_type: Some("Button".to_string()),
    };
    assert_eq!(
        xfile.resolved_root_to_facts(&scripted),
        Some(SceneNodeFacts::Script(FileId(1)))
    );
    assert_eq!(
        xfile.resolve_one_scene(&button(), "res://a.gd"),
        Some(SceneNodeFacts::Native("Button".to_string()))
    );
    assert_eq!(xfile.resolve_one_scene(&button(), "res://b.gd"), None);
}
