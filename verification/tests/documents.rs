use trana::diff::{self, DiffLine, DiffOp};
use trana::model::{Body, Document, Post, Ref, Vote};
use trana::{Record, State};

fn document(author: &str, t: u64, body: &str, refs: Vec<Ref>, series: Option<&str>, prev: Option<&str>) -> Record {
    let doc = Document {
        title: "title".to_string(),
        body: body.to_string(),
        file: None,
        refs,
        board: None,
        series: series.map(|s| s.to_string()),
        prev: prev.map(|p| p.to_string()),
    };
    Record::new(author, t, Body::Document(doc)).unwrap()
}

fn folded(records: &[&Record]) -> State {
    let mut s = State::new();
    for r in records {
        s.apply(r);
    }
    s
}

#[test]
fn documents_are_versioned() {
    let (a, b) = ("aa".repeat(32), "bb".repeat(32));
    let v1 = document(&a, 10, "one", vec![], None, None);
    let v2 = document(&a, 20, "two", vec![], Some(&v1.id), Some(&v1.id));
    let v3 = document(&b, 30, "three", vec![], Some(&v1.id), Some(&v2.id));
    let other = document(&a, 25, "other", vec![], None, None);
    for order in [[&v1, &v2, &v3, &other], [&other, &v3, &v2, &v1]] {
        let s = folded(&order);
        for key in [&v1.id, &v2.id, &v3.id] {
            let bodies = s.document_history(key).iter().map(|d| d.document.body.clone()).collect::<Vec<_>>();
            assert_eq!(bodies, vec!["one", "two", "three"]);
            assert_eq!(s.document_latest(key).unwrap().id, v3.id);
        }
        let by = s.documents_by(&a).iter().map(|d| d.id.clone()).collect::<Vec<_>>();
        assert_eq!(by, vec![other.id.clone(), v2.id.clone(), v1.id.clone()]);
        let view = s.document(&v2.id).unwrap();
        assert_eq!((view.author.as_str(), view.created_ms, view.series.as_str()), (a.as_str(), 20, v1.id.as_str()));
        assert_eq!(view.document.prev.as_deref(), Some(v1.id.as_str()));
        assert_eq!(s.document(&v1.id).unwrap().series, v1.id);
        assert_eq!(s.document_history(&other.id).len(), 1);
    }
}

#[test]
fn a_series_can_be_asked_for_before_its_first_version_comes() {
    let a = "aa".repeat(32);
    let v2 = document(&a, 20, "two", vec![], Some("first"), Some("first"));
    let s = folded(&[&v2]);
    assert_eq!(s.document_history("first")[0].id, v2.id);
    assert!(s.document("first").is_none());
    assert!(s.document_latest("elsewhere").is_none() && s.document_history("elsewhere").is_empty());
}

#[test]
fn versions_of_one_time_go_by_id() {
    let a = "aa".repeat(32);
    let x = document(&a, 5, "x", vec![], Some("s"), None);
    let y = document(&a, 5, "y", vec![], Some("s"), None);
    let (small, large) = if x.id < y.id { (&x, &y) } else { (&y, &x) };
    for order in [[&x, &y], [&y, &x]] {
        let s = folded(&order);
        assert_eq!(s.document_history("s")[0].id, small.id);
        assert_eq!(s.document_latest("s").unwrap().id, large.id);
    }
}

#[test]
fn documents_are_votable() {
    let a = "aa".repeat(32);
    let d = document(&a, 1, "d", vec![], None, None);
    let vote = |who: &str, value: i8| {
        Record::new(&who.repeat(32), 2, Body::Vote(Vote { target: d.id.clone(), value })).unwrap()
    };
    let s = folded(&[&d, &vote("bb", 1), &vote("cc", 1), &vote("dd", -1)]);
    let view = s.document(&d.id).unwrap();
    assert_eq!((view.ups, view.downs, view.score), (2, 1, 1));
}

#[test]
fn backlinks_name_what_refers_to_some_content() {
    let a = "aa".repeat(32);
    let inline = document(&a, 1, "see [it](trana://post/target) and trana://post/target.", vec![], None, None);
    let declared = document(&a, 2, "nothing here", vec![Ref::media("target")], None, None);
    let silent = document(&a, 3, "trana://post/else", vec![Ref::post("else")], None, None);
    let post = Post {
        board: "b".to_string(),
        parent: None,
        title: None,
        body: "trana://document/target".to_string(),
        media: vec![],
    };
    let post = Record::new(&a, 4, Body::Post(post)).unwrap();
    let mut expected = vec![
        format!("trana://document/{}", inline.id),
        format!("trana://document/{}", declared.id),
        format!("trana://post/{}", post.id),
    ];
    expected.sort();
    for order in [[&inline, &declared, &silent, &post], [&post, &silent, &declared, &inline]] {
        let s = folded(&order);
        assert_eq!(s.backlinks("target"), expected);
        assert_eq!(s.backlinks("else"), vec![format!("trana://document/{}", silent.id)]);
        assert!(s.backlinks("nobody").is_empty());
    }
}

fn shown(diff: &[DiffLine]) -> Vec<String> {
    let sign = |op: DiffOp| match op {
        DiffOp::Kept => ' ',
        DiffOp::Removed => '-',
        DiffOp::Added => '+',
    };
    diff.iter().map(|line| format!("{}{}", sign(line.op), line.text)).collect()
}

#[test]
fn two_versions_are_compared_line_by_line() {
    let a = "aa".repeat(32);
    let v1 = document(&a, 1, "a\nb\nc", vec![], None, None);
    let v2 = document(&a, 2, "a\nx\nc\nd\n", vec![], Some(&v1.id), Some(&v1.id));
    for order in [[&v1, &v2], [&v2, &v1]] {
        let s = folded(&order);
        assert_eq!(shown(&s.document_diff(&v1.id, &v2.id)), vec![" a", "-b", "+x", " c", "+d"]);
        assert_eq!(shown(&s.document_diff(&v2.id, &v1.id)), vec![" a", "-x", "+b", " c", "-d"]);
        assert_eq!(shown(&s.document_diff(&v1.id, &v1.id)), vec![" a", " b", " c"]);
        assert!(s.document_diff(&v1.id, "missing").is_empty());
        assert!(s.document_diff("missing", &v2.id).is_empty());
    }
}

#[test]
fn a_text_is_cut_at_its_line_feeds() {
    assert!(diff::lines("").is_empty());
    assert_eq!(diff::lines("\n"), vec![""]);
    assert_eq!(diff::lines("a"), vec!["a"]);
    assert_eq!(diff::lines("a\n"), vec!["a"]);
    assert_eq!(diff::lines("a\r\n\né"), vec!["a\r", "", "é"]);
}

#[test]
fn a_diff_keeps_as_many_lines_as_can_be_kept() {
    let from = diff::lines("x\na\nb");
    let to = diff::lines("a\nb\nx");
    let lines = diff::diff(&from, &to);
    assert_eq!(shown(&lines), vec!["-x", " a", " b", "+x"]);
    let old = lines.iter().filter(|l| l.op != DiffOp::Added).map(|l| l.text.clone()).collect::<Vec<_>>();
    let new = lines.iter().filter(|l| l.op != DiffOp::Removed).map(|l| l.text.clone()).collect::<Vec<_>>();
    assert_eq!((old, new), (from, to));
    assert_eq!(shown(&diff::diff(&vec![], &diff::lines("a\nb"))), vec!["+a", "+b"]);
    assert_eq!(shown(&diff::diff(&diff::lines("a\nb"), &vec![])), vec!["-a", "-b"]);
    assert!(diff::diff(&vec![], &vec![]).is_empty());
}
