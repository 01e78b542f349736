use argocd_lint::error::Error;
use argocd_lint::util::{get_chart_name, get_name, get_repo_url, same_text};
use argocd_lint::yaml::{child, emit_document, parse_documents, Document};

fn text(s: &str) -> Document {
    Document::String(s.to_string())
}

fn sample() -> Document {
    Document::Hash(vec![
        (text("kind"), text("Namespace")),
        (text("metadata"), Document::Hash(vec![(text("name"), text("ns1"))])),
    ])
}

#[test]
fn parses_a_mapping_into_its_entries_in_order() {
    let docs = parse_documents("kind: Namespace\nmetadata:\n  name: ns1\n").unwrap();
    assert_eq!(docs.len(), 1);
    assert!(docs[0] == sample());
}

#[test]
fn parses_every_scalar_kind() {
    let docs = parse_documents("- 1.5\n- -7\n- text\n- true\n- ~\n- [a]\n").unwrap();
    let expected = Document::Array(vec![
        Document::Real("1.5".to_string()),
        Document::Integer(-7),
        text("text"),
        Document::Boolean(true),
        Document::Null,
        Document::Array(vec![text("a")]),
    ]);
    assert!(docs[0] == expected);
}

#[test]
fn parses_a_stream_of_documents() {
    let docs = parse_documents("a: 1\n---\nb: 2\n---\nc: 3\n").unwrap();
    assert_eq!(docs.len(), 3);
    assert!(docs[1] == Document::Hash(vec![(text("b"), Document::Integer(2))]));
}

#[test]
fn parses_the_empty_text_into_no_document() {
    assert_eq!(parse_documents("").unwrap().len(), 0);
}

#[test]
fn rejects_text_that_is_not_well_formed() {
    assert!(parse_documents("a: [1, 2\n").is_none());
    assert!(parse_documents("a: b: c: d\n  - x\n").is_none());
}

#[test]
fn rejects_a_mapping_with_a_repeated_key() {
    assert!(parse_documents("a: 1\na: 2\n").is_none());
}

#[test]
fn lookup_finds_the_value_under_a_key() {
    let doc = sample();
    assert!(*doc.get("kind").unwrap() == text("Namespace"));
    assert!(doc.get("missing").is_none());
    assert!(text("scalar").get("kind").is_none());
    assert!(Document::Array(vec![sample()]).get("kind").is_none());
}

#[test]
fn lookup_takes_the_first_of_two_entries_with_one_key() {
    let doc = Document::Hash(vec![(text("k"), text("first")), (text("k"), text("second"))]);
    assert!(*doc.get("k").unwrap() == text("first"));
}

#[test]
fn lookup_is_by_string_keys_only() {
    let doc = Document::Hash(vec![(Document::Integer(1), text("one")), (text("1"), text("text"))]);
    assert!(*doc.get("1").unwrap() == text("text"));
}

#[test]
fn child_walks_a_path_and_stops_where_nothing_is() {
    let doc = sample();
    let name = child(child(Some(&doc), "metadata"), "name");
    assert_eq!(name.unwrap().as_str(), Some("ns1"));
    assert!(child(child(Some(&doc), "nothing"), "name").is_none());
    assert!(child(None, "name").is_none());
}

#[test]
fn scalars_read_as_what_they_are() {
    assert_eq!(text("x").as_str(), Some("x"));
    assert_eq!(Document::Integer(3).as_str(), None);
    assert_eq!(Document::Real("1.0".to_string()).as_str(), None);
    assert!(Document::Array(vec![text("a")]).as_vec().unwrap()[0] == text("a"));
    assert!(text("x").as_vec().is_none());
    assert!(Document::BadValue.is_badvalue());
    assert!(!Document::Null.is_badvalue());
}

#[test]
fn equality_compares_the_whole_tree() {
    assert!(sample() == sample());
    assert!(sample().clone() == sample());
    let other = Document::Hash(vec![
        (text("kind"), text("Namespace")),
        (text("metadata"), Document::Hash(vec![(text("name"), text("ns2"))])),
    ]);
    assert!(sample() != other);
    assert!(Document::Integer(1) != Document::Real("1".to_string()));
    assert!(Document::Array(vec![]) != Document::Hash(vec![]));
    assert!(Document::Array(vec![text("a")]) != Document::Array(vec![text("a"), text("b")]));
    assert!(Document::Null != Document::BadValue);
    assert!(Document::Alias(1) == Document::Alias(1));
}

#[test]
fn distinct_keys_are_checked_at_every_depth() {
    assert!(sample().has_distinct_keys());
    let twice = Document::Hash(vec![(text("k"), text("a")), (text("k"), text("b"))]);
    assert!(!twice.has_distinct_keys());
    assert!(!Document::Array(vec![sample(), twice.clone()]).has_distinct_keys());
    assert!(!Document::Hash(vec![(text("outer"), twice.clone())]).has_distinct_keys());
    assert!(!Document::Hash(vec![(twice, text("value"))]).has_distinct_keys());
    let typed = Document::Hash(vec![(Document::Integer(1), text("a")), (text("1"), text("b"))]);
    assert!(typed.has_distinct_keys());
}

#[test]
fn emits_a_mapping_as_block_text() {
    let doc = Document::Hash(vec![
        (text("replicas"), Document::Integer(2)),
        (text("image"), Document::Hash(vec![(text("tag"), text("v1"))])),
        (text("ports"), Document::Array(vec![Document::Integer(80), Document::Integer(443)])),
        (text("debug"), Document::Boolean(false)),
        (text("note"), Document::Null),
    ]);
    let emitted = emit_document(&doc).unwrap();
    assert_eq!(
        emitted,
        "---\nreplicas: 2\nimage:\n  tag: v1\nports:\n  - 80\n  - 443\ndebug: false\nnote: ~"
    );
}

#[test]
fn emits_text_that_reads_back_as_the_document() {
    let doc = Document::Hash(vec![
        (text("name"), text("needs: quoting")),
        (text("list"), Document::Array(vec![text("true"), Document::Real("2.5".to_string())])),
    ]);
    let emitted = emit_document(&doc).unwrap();
    let back = parse_documents(&emitted).unwrap();
    assert_eq!(back.len(), 1);
    assert!(back[0] == doc);
}

#[test]
fn refuses_to_emit_a_mapping_with_a_repeated_key() {
    let twice = Document::Hash(vec![(text("k"), text("a")), (text("k"), text("b"))]);
    assert_eq!(emit_document(&twice), Err(Error::MalformedManifest));
}

#[test]
fn shared_fields_are_read_from_their_paths() {
    let docs = parse_documents(
        "metadata:\n  name: app\nspec:\n  source:\n    repoURL: https://repo\n    chart: web\n",
    )
    .unwrap();
    assert_eq!(get_name(&docs[0]), Some("app"));
    assert_eq!(get_repo_url(&docs[0]), Some("https://repo"));
    assert_eq!(get_chart_name(&docs[0]), Some("web"));
}

#[test]
fn shared_fields_are_missing_where_they_are_no_text() {
    let docs = parse_documents("metadata:\n  name: 12\nspec:\n  source: plain\n").unwrap();
    assert_eq!(get_name(&docs[0]), None);
    assert_eq!(get_repo_url(&docs[0]), None);
    assert_eq!(get_chart_name(&docs[0]), None);
    assert_eq!(get_name(&Document::Null), None);
}

#[test]
fn texts_compare_by_their_characters() {
    assert!(same_text("Application", "Application"));
    assert!(!same_text("Application", "application"));
    assert!(same_text("", ""));
    assert!(!same_text("a", "ab"));
}
