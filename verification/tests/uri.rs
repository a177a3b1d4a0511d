use gd_server::uri::{
    canonical_key, fold_uri_drive, path_to_file_uri, percent_decode, percent_encode_path,
    uri_to_path, CanonicalKey, CanonicalizeMemo, Uri, CANONICALIZE_MEMO_CAPACITY,
};

fn uri(s: &str) -> Uri {
    Uri::parse(s).expect("a URI")
}

#[test]
fn decodes_spaces() {
    let p = uri_to_path(&uri("file:///tmp/my%20project/a.gd"), false).unwrap();
    assert!(p.as_str().contains("my project/a.gd"));
}

#[test]
fn non_file_scheme_is_none() {
    assert!(uri_to_path(&uri("untitled:Untitled-1"), false).is_none());
    assert!(uri_to_path(&uri("https://example.com/x"), false).is_none());
}

#[test]
fn path_to_file_uri_encodes_spaces() {
    let u = path_to_file_uri("/tmp/My Game/foo bar.gd")
        .expect("space-containing path should produce a valid URI");
    assert!(!u.as_str().contains(' '), "spaces must be percent-encoded");
    let back = uri_to_path(&u, false).unwrap();
    assert!(back.as_str().contains("My Game/foo bar.gd"));
}

#[test]
fn canonical_key_matches_path_to_file_uri_to_string() {
    let p = "/tmp/My Game/sub/foo.gd";
    let u = path_to_file_uri(p).unwrap();
    let k = canonical_key(p).unwrap();
    assert_eq!(k, u.as_str());
    assert!(k.contains("%20"), "canonical_key must percent-encode spaces");
    assert!(!k.contains(' '), "canonical_key must not contain raw spaces");
}

#[test]
fn for_path_memoizes_canonicalize_without_changing_the_key() {
    let p = "/tmp/game/../game/hero.gd";
    let mut memo = CanonicalizeMemo::new();
    assert!(memo.lookup(p).is_none());
    memo.record(p, Some("/tmp/game/hero.gd"));
    let first = CanonicalKey::for_path(p, Some("/tmp/game/hero.gd"))
        .expect("existing file canonicalizes");
    let remembered = memo.lookup(p).expect("the second call must hit the memo");
    let second =
        CanonicalKey::for_path(p, Some(remembered.as_str())).expect("existing file canonicalizes");
    assert_eq!(
        first, second,
        "the canonicalize memo must not change the key across calls"
    );
    let from_uri = CanonicalKey::for_uri(
        &path_to_file_uri(p).unwrap(),
        Some(remembered.as_str()),
        false,
    );
    assert_eq!(from_uri, first);
}

#[test]
fn canonical_key_for_uri_and_for_path_agree() {
    let path = "/proj/My Game/sub/foo.gd";
    let wire = path_to_file_uri(path).unwrap();
    let from_uri = CanonicalKey::for_uri(&wire, None, false);
    let from_path = CanonicalKey::for_path(path, None).unwrap();
    assert_eq!(from_uri, from_path);
    assert!(from_uri.as_str().contains("%20"));
    assert!(!from_uri.as_str().contains(' '));
}

#[test]
fn canonical_key_folds_drive_case_so_client_and_disk_agree() {
    for windows in [false, true] {
        let from_uri = CanonicalKey::for_uri(&uri("file:///c:/proj/b.gd"), None, windows);
        let from_path = CanonicalKey::for_path("C:/proj/b.gd", None).unwrap();
        assert_eq!(from_uri, from_path);
        assert!(
            from_uri.as_str().starts_with("file:///C:/"),
            "drive must be folded to upper, got {}",
            from_uri.as_str()
        );
    }
}

#[test]
fn for_uri_reencodes_raw_subdelims_to_match_for_path() {
    for c in ['(', ')', '!', '$', '&', '\'', '+', ',', ';', '='] {
        let path_str = format!("/proj/a{c}b.gd");
        let raw_wire: Uri = Uri::parse(&format!("file://{path_str}")).unwrap_or_else(|| {
            panic!("a client may legally send a raw '{c}' in a file URI path")
        });
        let from_uri = CanonicalKey::for_uri(&raw_wire, None, false);
        let from_path = CanonicalKey::for_path(&path_str, None).unwrap();
        assert_eq!(
            from_uri, from_path,
            "a raw '{c}' in the wire URI must canonicalize to the same key as the disk path"
        );
        assert!(
            !from_uri.as_str().contains(c),
            "the key must percent-encode a raw '{c}', got {}",
            from_uri.as_str()
        );
    }
}

#[test]
fn uri_to_path_unc_preserves_host() {
    let p = uri_to_path(&uri("file://fileserver/share/proj/a.gd"), false).unwrap();
    assert_eq!(p.as_str(), "//fileserver/share/proj/a.gd");
    let p2 = uri_to_path(&uri("file://fileserver/share/My%20Game/a.gd"), false).unwrap();
    assert_eq!(p2.as_str(), "//fileserver/share/My Game/a.gd");
    let local = uri_to_path(&uri("file://localhost/home/x/a.gd"), false).unwrap();
    assert_eq!(local.as_str(), "/home/x/a.gd");
}

#[test]
fn uri_path_roundtrip_table() {
    let unix = [
        "//fileserver/share/proj/enemy.gd",
        "//fileserver/share/My Game/h#2.gd",
        "/home/alice/proj/a.gd",
        "/tmp/My Game/foo bar.gd",
    ];
    let windows = [
        "//fileserver/share/proj/enemy.gd",
        "//fileserver/share/My Game/h#2.gd",
        "C:/Users/Alice/My Game/hero.gd",
        "C:/proj/a.gd",
    ];
    for (on_windows, cases) in [(false, unix), (true, windows)] {
        for case in cases {
            let u = path_to_file_uri(case)
                .unwrap_or_else(|| panic!("path_to_file_uri rejected {case}"));
            let back = uri_to_path(&u, on_windows)
                .unwrap_or_else(|| panic!("uri_to_path rejected {} (from {case})", u.as_str()));
            assert_eq!(back.as_str(), case, "round-trip must preserve the path");
        }
    }
}

#[test]
fn path_to_file_uri_encodes_hash_and_question() {
    let u = path_to_file_uri("/tmp/has#hash/has?q.gd")
        .expect("hash/question paths should produce valid URIs");
    assert!(u.as_str().contains("%23"));
    assert!(u.as_str().contains("%3F"));
    let back = uri_to_path(&u, false).unwrap();
    assert_eq!(back.as_str(), "/tmp/has#hash/has?q.gd");
}

#[test]
fn path_to_file_uri_leaves_safe_chars_unencoded() {
    let u = path_to_file_uri("/proj/src/foo-bar_baz.gd").expect("ordinary path");
    assert_eq!(u.as_str(), "file:///proj/src/foo-bar_baz.gd");
}

#[test]
fn path_to_file_uri_windows_drive_with_spaces() {
    let u = path_to_file_uri("C:/Users/Alice/My Game/hero.gd").expect("space path on Windows");
    assert!(u.as_str().starts_with("file:///C:/"));
    assert!(u.as_str().contains("My%20Game"));
    let back = uri_to_path(&u, true).unwrap();
    assert_eq!(back.as_str(), "C:/Users/Alice/My Game/hero.gd");
}

#[test]
fn windows_drive_letter() {
    let p = uri_to_path(&uri("file:///C:/Users/x/a.gd"), true).unwrap();
    assert_eq!(p.as_str(), "C:/Users/x/a.gd");
}

#[test]
fn unix_absolute_path() {
    let p = uri_to_path(&uri("file:///home/x/a.gd"), false).unwrap();
    assert_eq!(p.as_str(), "/home/x/a.gd");
}

#[test]
fn the_uri_crate_decides_what_a_uri_is() {
    assert!(Uri::parse("no scheme at all").is_none());
    assert!(Uri::parse("file:///a b").is_none());
    assert_eq!(Uri::parse("file:///a%20b").unwrap().as_str(), "file:///a%20b");
    assert_eq!(uri("file:///a").clone().as_str(), "file:///a");
}

#[test]
fn encoding_keeps_unreserved_bytes_and_escapes_the_rest() {
    assert_eq!(percent_encode_path("a/b-c_d.e~f:9"), "a/b-c_d.e~f:9");
    assert_eq!(percent_encode_path(" %"), "%20%25");
    assert_eq!(percent_encode_path("\u{e9}"), "%C3%A9");
}

#[test]
fn decoding_joins_bytes_and_replaces_what_is_no_text() {
    assert_eq!(percent_decode("a%20b"), "a b");
    assert_eq!(percent_decode("%C3%A9"), "\u{e9}");
    assert_eq!(percent_decode("100%"), "100%");
    assert_eq!(percent_decode("%zz"), "%zz");
    assert_eq!(percent_decode("%ff"), "\u{fffd}");
}

#[test]
fn decoding_undoes_encoding() {
    for text in ["", "/tmp/My Game", "50%25", "caf\u{e9} \u{1f600}", "a#b?c"] {
        assert_eq!(percent_decode(&percent_encode_path(text)), text);
    }
}

#[test]
fn a_drive_is_folded_once() {
    assert_eq!(fold_uri_drive("file:///c:/x"), "file:///C:/x");
    assert_eq!(fold_uri_drive("file:///C:/x"), "file:///C:/x");
    assert_eq!(fold_uri_drive("file:///home/c:/x"), "file:///home/c:/x");
    assert_eq!(fold_uri_drive("https://c:/x"), "https://c:/x");
}

#[test]
fn a_uri_without_a_path_is_its_own_key() {
    let key = CanonicalKey::for_uri(&uri("untitled:Untitled-1"), None, false);
    assert_eq!(key.as_str(), "untitled:Untitled-1");
    assert_eq!(key.clone(), key);
}

#[test]
fn a_resolved_path_decides_the_key() {
    let a = CanonicalKey::for_path("/link/a.gd", Some("/real/a.gd")).unwrap();
    let b = CanonicalKey::for_path("/real/a.gd", None).unwrap();
    assert_eq!(a, b);
}

#[test]
fn a_path_that_does_not_resolve_is_not_remembered() {
    let mut memo = CanonicalizeMemo::new();
    memo.record("/gone.gd", None);
    assert!(memo.lookup("/gone.gd").is_none());
}

#[test]
fn the_memo_forgets_the_path_unused_longest() {
    let mut memo = CanonicalizeMemo::new();
    for i in 0..CANONICALIZE_MEMO_CAPACITY {
        memo.record(&format!("/p{i}"), Some("/real"));
    }
    assert_eq!(memo.lookup("/p0"), Some("/real".to_string()));
    memo.record("/one-more", Some("/real2"));
    assert!(memo.lookup("/p1").is_none());
    assert!(memo.lookup("/p0").is_some());
    assert_eq!(memo.lookup("/one-more"), Some("/real2".to_string()));
}
