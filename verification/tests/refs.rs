use trana::client;
use trana::model::{extract_refs, Ref, RefKind};

fn uris(markdown: &str) -> Vec<String> {
    extract_refs(markdown).iter().map(|r| r.to_uri()).collect()
}

#[test]
fn references_are_written_and_read_back() {
    let all = [
        (Ref::post("p"), "trana://post/p"),
        (Ref::document("d"), "trana://document/d"),
        (Ref::media("m"), "trana://media/m"),
        (Ref::stream("s"), "trana://stream/s"),
        (Ref::profile("n"), "trana://profile/n"),
        (Ref::board("b"), "trana://board/b"),
        (Ref::blob("c"), "trana://blob/c"),
    ];
    for (r, uri) in all {
        assert_eq!(r.to_uri(), uri);
        let back = Ref::parse(uri).unwrap();
        assert!(back.kind == r.kind);
        assert_eq!(back.id, r.id);
    }
    assert_eq!(Ref::new(RefKind::Blob, "x").to_uri(), "trana://blob/x");
}

#[test]
fn kinds_have_names() {
    assert_eq!(RefKind::Document.as_str(), "document");
    assert!(RefKind::parse("doc") == Some(RefKind::Document));
    assert!(RefKind::parse("post") == Some(RefKind::Post));
    assert!(RefKind::parse("Post").is_none());
    assert!(RefKind::parse("").is_none());
}

#[test]
fn what_is_no_reference_is_refused() {
    for uri in ["", "trana://", "trana://post", "trana://post/", "trana://nope/x", "http://post/x", "xtrana://post/x"] {
        assert!(Ref::parse(uri).is_none(), "{uri}");
    }
    // Everything behind the first slash is the id.
    assert_eq!(Ref::parse("trana://board/a/b").unwrap().id, "a/b");
    assert_eq!(Ref::parse("trana://doc/x").unwrap().to_uri(), "trana://document/x");
}

#[test]
fn references_are_found_in_markdown() {
    assert_eq!(
        uris("see [this](trana://post/abc), trana://board/dev. And <trana://media/m1> or `trana://blob/c`; end"),
        vec!["trana://post/abc", "trana://board/dev", "trana://media/m1", "trana://blob/c"]
    );
    assert_eq!(uris("trana://post/a trana://post/b trana://post/a"), vec!["trana://post/a", "trana://post/b"]);
    assert_eq!(uris("trana://doc/x trana://document/x"), vec!["trana://document/x"]);
    assert_eq!(uris("trana://post/a:,;. trana://nope/x trana://post/"), vec!["trana://post/a"]);
    assert_eq!(uris("trana://post/a|trana://post/b"), vec!["trana://post/a", "trana://post/b"]);
    assert_eq!(uris("nothing here"), Vec::<String>::new());
    assert_eq!(uris(""), Vec::<String>::new());
    assert_eq!(uris("trana://post/xtrana://post/y"), vec!["trana://post/xtrana://post/y"]);
    assert_eq!(uris("\u{e9}\u{1f33f} trana://board/gr\u{fc}n\u{1f33f} z"), vec!["trana://board/gr\u{fc}n\u{1f33f}"]);
}

#[test]
fn a_client_names_what_it_cannot_look_up() {
    assert!(client::resolvable("trana://post/x").is_ok());
    match client::resolvable("http://x") {
        Err(e) => assert_eq!(e, "not a trana:// ref: http://x"),
        Ok(_) => panic!("expected a refusal"),
    }
}
