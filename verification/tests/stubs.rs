use gd_server::stubs::{
    collects, is_identifier_shaped, is_stub_uri, page_served, render, render_builtin, stub_dir,
    stub_location, stubs_base_dir, text_to_write, user_cache_root, BuiltinDoc, ClassDoc, CollectOnce, EnumDoc,
    EnumValueDoc, MemberDoc, PageWrite, StubCache, StubSource, STALE_AFTER_NANOS,
    STUB_FORMAT_VERSION,
};
use gd_server::uri::{path_to_file_uri, Uri};
use std::rc::Rc;

fn member(name: &str, doc: &str, decl: &str) -> MemberDoc {
    MemberDoc { name: name.to_string(), doc: doc.to_string(), decl: decl.to_string() }
}

fn value(name: &str, value: i64) -> EnumValueDoc {
    EnumValueDoc { name: name.to_string(), doc: String::new(), value }
}

fn widget() -> ClassDoc {
    ClassDoc {
        name: "Widget".to_string(),
        parent: Some("Object".to_string()),
        brief_description: "A clickable thing.".to_string(),
        description: String::new(),
        constants: vec![member("MAX_DEPTH", "", "const MAX_DEPTH = 8")],
        enums: vec![EnumDoc {
            name: "Mode".to_string(),
            values: vec![value("MODE_A", 0), value("MODE_B", 1)],
        }],
        properties: vec![
            member("width", "Pixel width.", "var width: int"),
            member("v", "", "var v: int"),
        ],
        signals: vec![member("resized", "", "signal resized()")],
        methods: vec![member("grow", "", "func grow(by: int = 1) -> void")],
    }
}

#[test]
fn render_is_deterministic_and_lines_point_at_their_declarations() {
    let class = widget();
    let a = render(&class);
    let b = render(&class);
    assert_eq!(a.text, b.text, "two renders are byte-identical");

    let lines: Vec<&str> = a.text.lines().collect();
    assert_eq!(lines[a.class_line as usize], "class_name Widget");
    assert_eq!(lines[a.class_line as usize + 1], "extends Object");
    assert_eq!(
        &lines[a.class_line as usize][a.class_name_col as usize..],
        "Widget",
        "class_name_col anchors the class name token"
    );
    let anchor = |name: &str| *a.member_lines.get(name).unwrap();
    let at = |name: &str| lines[anchor(name).line as usize];
    assert_eq!(at("MAX_DEPTH"), "const MAX_DEPTH = 8");
    assert_eq!(at("Mode"), "enum Mode {");
    assert_eq!(at("MODE_B"), "\tMODE_B = 1,");
    assert_eq!(at("width"), "var width: int");
    assert!(
        lines[anchor("width").line as usize - 1].contains("## Pixel width."),
        "member doc precedes the declaration"
    );
    assert_eq!(at("resized"), "signal resized()");
    assert_eq!(at("grow"), "func grow(by: int = 1) -> void");
    for name in ["MAX_DEPTH", "Mode", "MODE_B", "width", "v", "resized", "grow"] {
        let m = anchor(name);
        assert_eq!(
            &lines[m.line as usize][m.name_col as usize..(m.name_col + m.name_len) as usize],
            name,
            "anchor of `{name}` must slice exactly its name token"
        );
    }
    assert_eq!(at("v"), "var v: int");
    assert_eq!(anchor("v").name_col, 4);
    assert!(
        a.text.starts_with("## A clickable thing.\n"),
        "class docs head the page: {:?}",
        &a.text[..40]
    );
}

#[test]
fn hostile_class_name_never_becomes_a_path() {
    assert!(
        stub_location("../escape", true, 7, Some("/cache/stubs")).is_none(),
        "non-identifier class names are refused"
    );
}

#[test]
fn ensure_writes_once_and_reuses_the_existing_file() {
    let mut cache = StubCache::new();
    let source = StubSource::Class(widget());
    let location = stub_location("Widget", true, 7, Some("/cache/stubs")).expect("a place");
    let stub = cache.page("Widget", 7, &source);
    let on_disk = text_to_write(false, &stub).expect("no page is there yet").to_string();
    assert!(page_served(PageWrite::Moved));
    let location2 = stub_location("Widget", true, 7, Some("/cache/stubs")).expect("a place");
    let stub2 = cache.page("Widget", 7, &source);
    assert_eq!(location.page, location2.page);
    assert!(Rc::ptr_eq(&stub, &stub2), "the second page is the first");
    assert_eq!(text_to_write(true, &stub2), None, "a page on disk is not written again");
    assert!(page_served(PageWrite::Present));
    assert_eq!(on_disk, stub2.text, "the page on disk is the page in memory");
    assert!(location.page.contains(&format!("v{STUB_FORMAT_VERSION}-")));
}

#[test]
fn ensure_serves_a_file_another_session_already_wrote() {
    let source = StubSource::Class(widget());
    let first = StubCache::new().page("Widget", 7, &source);
    let second = StubCache::new().page("Widget", 7, &source);
    assert_eq!(first.text, second.text);
    assert_eq!(text_to_write(false, &first), Some(first.text.as_str()));
    assert_eq!(text_to_write(true, &second), None, "the page that is there stays as it is");
    assert!(page_served(PageWrite::Present));
    assert!(page_served(PageWrite::MoveFailed { present_now: true }));
    assert!(!page_served(PageWrite::MoveFailed { present_now: false }));
    assert!(!page_served(PageWrite::WriteFailed));
}

#[test]
fn gc_freshness_prefers_the_touch_sentinel_over_dir_mtime() {
    let now: i128 = 100 * 24 * 3600 * 1_000_000_000;
    let old: i128 = now - 40 * 24 * 3600 * 1_000_000_000;
    let name = |n: u64| format!("v{STUB_FORMAT_VERSION}-{n:016x}");
    assert!(!collects(&name(1), true, true, Some(old), Some(old), now));
    assert!(
        !collects(&name(2), true, false, Some(old), Some(now), now),
        "a fresh sentinel keeps the directory alive past a stale dir mtime"
    );
    assert!(
        collects(&name(3), true, false, Some(old), Some(old), now),
        "stale by both signals is collected"
    );
}

#[test]
fn gc_removes_old_versions_keeps_fresh_foreign_hashes() {
    let now: i128 = STALE_AFTER_NANOS;
    let name = |version: u32, n: u64| format!("v{version}-{n:016x}");
    assert!(!collects(&name(STUB_FORMAT_VERSION, 1), true, true, Some(now), None, now));
    assert!(
        collects(&name(STUB_FORMAT_VERSION - 1, 2), true, false, Some(now), None, now),
        "older renderer version is collected unconditionally"
    );
    assert!(
        !collects(&name(STUB_FORMAT_VERSION, 3), true, false, Some(now), None, now),
        "fresh same-version foreign hash survives"
    );
}

#[test]
fn age_is_counted_to_the_nanosecond() {
    let at = |age: i128| collects("x", true, false, Some(0), None, age);
    assert!(!at(STALE_AFTER_NANOS));
    assert!(at(STALE_AFTER_NANOS + 1));
    assert!(!collects("x", true, false, None, None, STALE_AFTER_NANOS + 1));
    assert!(!collects("v0-1", false, false, None, None, 0), "a file is never collected");
    assert!(!collects("v9-1", true, false, None, None, 0));
    assert!(!collects("vx-1", true, false, None, None, 0));
}

#[test]
fn a_builtin_page_has_no_parent() {
    let page = render_builtin(&BuiltinDoc {
        name: "Vector2".to_string(),
        brief_description: String::new(),
        description: "Two\nnumbers.".to_string(),
        constants: vec![],
        enums: vec![],
        members: vec![member("x", "", "var x: float")],
        methods: vec![member("abs", "Made positive.", "func abs() -> Vector2")],
    });
    let lines: Vec<&str> = page.text.lines().collect();
    assert_eq!(lines[page.class_line as usize], "class_name Vector2");
    assert!(!page.text.contains("extends"));
    assert!(page.text.contains("## Two\n## numbers.\n"));
    assert_eq!(lines[page.member_lines.get("abs").unwrap().line as usize], "func abs() -> Vector2");
}

#[test]
fn another_dump_drops_the_pages() {
    let mut cache = StubCache::new();
    let source = StubSource::Class(widget());
    let first = cache.page("Widget", 1, &source);
    let second = cache.page("Widget", 2, &source);
    assert!(!Rc::ptr_eq(&first, &second));
    assert!(Rc::ptr_eq(&second, &cache.page("Widget", 2, &source)));
}

#[test]
fn identifiers_are_letters_digits_and_underscores() {
    for name in ["Widget", "_x9", "V2"] {
        assert!(is_identifier_shaped(name), "{name}");
    }
    for name in ["", "9x", "../escape", "a b", "a-b"] {
        assert!(!is_identifier_shaped(name), "{name}");
    }
}

#[test]
fn pages_lie_under_the_cache_directory() {
    let root = user_cache_root(false, None, None, Some("/home/x")).unwrap();
    assert_eq!(root, "/home/x/.cache/gdls");
    assert_eq!(user_cache_root(false, None, Some("/c"), Some("/home/x")).unwrap(), "/c/gdls");
    assert_eq!(user_cache_root(true, Some("/l"), Some("/c"), None).unwrap(), "/l/gdls");
    assert!(user_cache_root(false, Some("/l"), Some(""), None).is_none());
    let base = stubs_base_dir(None, Some(&root)).unwrap();
    assert_eq!(base, "/home/x/.cache/gdls/stubs");
    assert_eq!(stubs_base_dir(Some("/o"), Some(&root)).unwrap(), "/o/stubs");
    assert!(stubs_base_dir(None, None).is_none());
    assert_eq!(stub_dir("/b", 255), "/b/v1-00000000000000ff");
    let location = stub_location("Widget", true, 255, Some("/b")).unwrap();
    assert_eq!(location.page, "/b/v1-00000000000000ff/Widget.gd");
    assert_eq!(location.temporary, "/b/v1-00000000000000ff/.Widget.gd.tmp");
    assert!(stub_location("Widget", false, 255, Some("/b")).is_none());
    assert!(stub_location("Widget", true, 255, None).is_none());
}

#[test]
fn a_page_is_known_by_its_directory() {
    let page = path_to_file_uri("/Cache/stubs/v1-1/A.gd").unwrap();
    assert!(is_stub_uri(&page, Some("/Cache/stubs"), false));
    assert!(!is_stub_uri(&page, Some("/cache/stubs"), false));
    assert!(is_stub_uri(&page, Some("/cache/stubs"), true));
    assert!(!is_stub_uri(&page, Some("/Cache/stub"), false));
    assert!(!is_stub_uri(&page, None, false));
    assert!(!is_stub_uri(&Uri::parse("untitled:a").unwrap(), Some("/Cache/stubs"), false));
    let page = Uri::parse("file:///C:/Cache/stubs/v1-1/A.gd").unwrap();
    assert!(is_stub_uri(&page, Some("C:/Cache/stubs"), true));
    assert!(is_stub_uri(&page, Some("c:/cache/stubs"), true));
    assert!(!is_stub_uri(&page, Some("D:/Cache/stubs"), true));
}

#[test]
fn old_pages_are_collected_once() {
    let mut once = CollectOnce { done: false };
    assert!(once.take());
    assert!(!once.take());
}

#[test]
fn a_page_has_anchors_for_its_members_alone() {
    let page = render(&widget());
    let names = page.member_lines.keys();
    let expected = ["MAX_DEPTH", "MODE_A", "MODE_B", "Mode", "grow", "resized", "v", "width"];
    let mut found: Vec<&str> = names.iter().map(|name| name.as_str()).collect();
    found.sort();
    assert_eq!(found, expected);
    assert!(!page.member_lines.contains_key("Widget"), "the class has its own line");
}

#[test]
fn an_anchor_counts_bytes() {
    let mut class = widget();
    class.properties = vec![member("größe", "", "var größe: int")];
    let page = render(&class);
    let anchor = page.member_lines.get("größe").expect("an anchor");
    let line = page.text.lines().nth(anchor.line as usize).expect("a line");
    let from = anchor.name_col as usize;
    assert_eq!(&line[from..from + anchor.name_len as usize], "größe");
}
