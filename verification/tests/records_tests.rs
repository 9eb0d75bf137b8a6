use equicord_launcher::records::{
    interpret_cached_build, interpret_cached_release, parse_build, parse_release, render_build,
    render_release, BuildState, CachedRelease, ReleaseDescriptor,
};

fn descriptor(tag: &str, name: &str, updated: &str) -> ReleaseDescriptor {
    ReleaseDescriptor {
        tag_name: tag.to_string(),
        name: name.to_string(),
        updated_at: updated.to_string(),
    }
}

#[test]
fn render_release_writes_tab_indented_document() {
    let doc = render_release(&descriptor("latest", "Equicord", "2024-01-01T00:00:00Z"));
    assert_eq!(
        doc,
        "{\n\t\"tag_name\": \"latest\",\n\t\"name\": \"Equicord\",\n\t\"updated_at\": \"2024-01-01T00:00:00Z\"\n}"
    );
}

#[test]
fn render_build_writes_tab_indented_document() {
    let doc = render_build(&BuildState {
        git_commit: "abc123".to_string(),
        userplugins_hash: "h1".to_string(),
    });
    assert_eq!(
        doc,
        "{\n\t\"git_commit\": \"abc123\",\n\t\"userplugins_hash\": \"h1\"\n}"
    );
}

#[test]
fn release_document_round_trips() {
    let d = descriptor("v1", "Equicord Stable", "2024-02-03T04:05:06Z");
    let parsed = parse_release(&render_release(&d)).expect("round trip");
    assert_eq!(parsed.tag_name, "v1");
    assert_eq!(parsed.name, "Equicord Stable");
    assert_eq!(parsed.updated_at, "2024-02-03T04:05:06Z");
}

#[test]
fn release_document_tolerates_absent_updated_at() {
    let doc = "{\n\t\"tag_name\": \"v1\",\n\t\"name\": \"Equicord\"\n}";
    let parsed = parse_release(doc).expect("short form parses");
    assert_eq!(parsed.tag_name, "v1");
    assert_eq!(parsed.name, "Equicord");
    assert_eq!(parsed.updated_at, "");
}

#[test]
fn release_document_requires_tag_and_name() {
    assert!(parse_release("{\n\t\"tag_name\": \"v1\"\n}").is_none());
    assert!(parse_release("{\n\t\"name\": \"Equicord\"\n}").is_none());
    assert!(parse_release("").is_none());
    assert!(parse_release("not a document").is_none());
}

#[test]
fn build_document_round_trips() {
    let st = BuildState {
        git_commit: "0123abcd".to_string(),
        userplugins_hash: "22c550ed4151ce0d".to_string(),
    };
    let parsed = parse_build(&render_build(&st)).expect("round trip");
    assert_eq!(parsed.git_commit, "0123abcd");
    assert_eq!(parsed.userplugins_hash, "22c550ed4151ce0d");
}

#[test]
fn build_document_requires_both_keys() {
    assert!(parse_build("{\n\t\"git_commit\": \"abc\"\n}").is_none());
    assert!(parse_build("{}").is_none());
    assert!(parse_build("garbage").is_none());
}

#[test]
fn documents_with_trailing_text_are_rejected() {
    let mut doc = render_release(&descriptor("v1", "E", "t1"));
    doc.push('\n');
    assert!(parse_release(&doc).is_none());
    let mut bdoc = render_build(&BuildState {
        git_commit: "c".to_string(),
        userplugins_hash: "h".to_string(),
    });
    bdoc.push(' ');
    assert!(parse_build(&bdoc).is_none());
}

#[test]
fn values_holding_quotes_cannot_round_trip() {
    // Values are written verbatim; a quote breaks the document, and the
    // parser then refuses it rather than guessing.
    let doc = render_release(&descriptor("v\"1", "E", "t1"));
    assert!(parse_release(&doc).is_none());
}

#[test]
fn cached_release_policy() {
    assert!(matches!(interpret_cached_release(&None), CachedRelease::NoCache));
    let good = render_release(&descriptor("v1", "E", "t1"));
    match interpret_cached_release(&Some(good)) {
        CachedRelease::Cache(d) => assert_eq!(d.updated_at, "t1"),
        _ => panic!("expected a cache hit"),
    }
    assert!(matches!(
        interpret_cached_release(&Some("broken".to_string())),
        CachedRelease::Corrupt
    ));
}

#[test]
fn cached_build_policy_tolerates_corruption() {
    assert!(interpret_cached_build(&None).is_none());
    assert!(interpret_cached_build(&Some("broken".to_string())).is_none());
    let good = render_build(&BuildState {
        git_commit: "c".to_string(),
        userplugins_hash: "h".to_string(),
    });
    assert!(interpret_cached_build(&Some(good)).is_some());
}
