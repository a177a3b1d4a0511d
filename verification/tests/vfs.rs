use gd_server::vfs::{ContentChange, Vfs};

fn change(range: Option<(usize, usize)>, text: &str) -> ContentChange {
    ContentChange { range, text: text.to_string() }
}

#[test]
fn incremental_edit_applies() {
    let mut vfs = Vfs::default();
    vfs.open("res://a.gd".into(), "extends Node\n".into(), 1);
    vfs.apply_changes("res://a.gd", vec![change(Some((8, 12)), "Node2D")], 2);
    assert_eq!(vfs.get("res://a.gd").unwrap().text(), "extends Node2D\n");
    assert_eq!(vfs.get("res://a.gd").unwrap().version, 2);
}

#[test]
fn full_replace_and_close() {
    let mut vfs = Vfs::default();
    vfs.open("res://a.gd".into(), "old".into(), 1);
    vfs.apply_changes("res://a.gd", vec![change(None, "new")], 2);
    assert_eq!(vfs.get("res://a.gd").unwrap().text(), "new");
    vfs.close("res://a.gd");
    assert!(vfs.get("res://a.gd").is_none());
}

#[test]
fn changes_apply_one_after_another() {
    let mut vfs = Vfs::default();
    vfs.open("u".into(), "abc".into(), 1);
    let changes = vec![
        change(Some((1, 2)), "XY"),
        change(Some((0, 1)), ""),
        change(Some((3, 3)), "\u{e9}!"),
    ];
    vfs.apply_changes("u", changes, 5);
    assert_eq!(vfs.get("u").unwrap().text(), "XYc\u{e9}!");
    assert_eq!(vfs.get("u").unwrap().version, 5);
    assert!(vfs.get("u").unwrap().open);
}

#[test]
fn a_change_to_an_unknown_document_is_dropped() {
    let mut vfs = Vfs::default();
    vfs.apply_changes("u", vec![change(None, "x")], 1);
    assert!(vfs.get("u").is_none());
}

#[test]
fn open_documents_are_listed() {
    let mut vfs = Vfs::default();
    vfs.open("b".into(), "".into(), 1);
    vfs.open("a".into(), "".into(), 1);
    vfs.open("b".into(), "again".into(), 2);
    let mut uris = vfs.open_uris();
    uris.sort();
    assert_eq!(uris, ["a", "b"]);
    assert_eq!(vfs.get("b").unwrap().text(), "again");
}

#[test]
fn ranges_are_bytes_and_cover_whole_characters() {
    let mut vfs = Vfs::default();
    vfs.open("u".into(), "\u{e9}a\u{1f600}b".into(), 1);
    vfs.apply_changes("u", vec![change(Some((3, 7)), "-")], 2);
    assert_eq!(vfs.get("u").unwrap().text(), "\u{e9}a-b");
    vfs.apply_changes("u", vec![change(Some((1, 2)), "x")], 3);
    assert_eq!(vfs.get("u").unwrap().text(), "xa-b");
}

#[test]
fn a_range_never_ends_before_it_starts() {
    let mut vfs = Vfs::default();
    vfs.open("u".into(), "abc".into(), 1);
    vfs.apply_changes("u", vec![change(Some((2, 1)), "-")], 2);
    assert_eq!(vfs.get("u").unwrap().text(), "ab-c");
}

#[test]
fn changes_in_one_notification_or_two_are_the_same() {
    let edits = || vec![change(Some((0, 1)), "xy"), change(Some((1, 3)), "")];
    let mut one = Vfs::default();
    one.open("u".into(), "abc".into(), 1);
    one.apply_changes("u", edits(), 2);
    let mut two = Vfs::default();
    two.open("u".into(), "abc".into(), 1);
    for edit in edits() {
        two.apply_changes("u", vec![edit], 2);
    }
    assert_eq!(one.get("u").unwrap().text(), two.get("u").unwrap().text());
    one.apply_changes("u", vec![change(None, "new")], 3);
    assert_eq!(one.get("u").unwrap().text(), "new");
}
