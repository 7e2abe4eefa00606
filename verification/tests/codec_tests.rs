use nile_browser::session::{create_tab, SessionError, SessionState};
use nile_browser::tab::TabRecord;

fn record(id: &str, url: &str, title: Option<&str>) -> TabRecord {
    TabRecord {
        id: String::from(id),
        label: format!("tab-{}", id),
        url: String::from(url),
        title: title.map(String::from),
        favicon: None,
        loading: Some(false),
    }
}

#[test]
fn empty_store_round_trips_to_empty_list() {
    let s = SessionState::new();
    let json = s.persist().unwrap();
    assert_eq!(json, "[]");
    let mut fresh = SessionState::new();
    let restored = fresh.restore(Some(json.as_str())).unwrap();
    assert_eq!(restored.len(), 0);
    assert_eq!(fresh.list_tabs().len(), 0);
}

#[test]
fn missing_session_file_is_a_valid_empty_session() {
    let mut s = SessionState::new();
    let restored = s.restore(None).unwrap();
    assert_eq!(restored.len(), 0);
    assert_eq!(s.list_tabs().len(), 0);
}

#[test]
fn persist_then_restore_reproduces_every_tab() {
    let mut s = SessionState::new();
    let a = create_tab(&String::from("https://example.com/")).unwrap();
    let b = create_tab(&String::from("https://example.org/x")).unwrap();
    s.commit_tab(a.clone());
    s.commit_tab(b.clone());
    s.report_page_state(
        &b.id,
        String::from("Example Org"),
        String::from("https://example.org/x"),
        String::new(),
        false,
    )
    .unwrap();
    let json = s.persist().unwrap();
    let mut fresh = SessionState::new();
    let restored = fresh.restore(Some(json.as_str())).unwrap();
    assert_eq!(restored.len(), 2);
    assert_eq!(restored[0].id, a.id);
    assert_eq!(restored[0].url, "https://example.com/");
    assert_eq!(restored[0].title, None);
    assert_eq!(restored[1].id, b.id);
    assert_eq!(restored[1].url, "https://example.org/x");
    assert_eq!(restored[1].title.as_deref(), Some("Example Org"));
    assert_eq!(restored[1].label, b.label);
    let listed = fresh.list_tabs();
    assert_eq!(listed.len(), 2);
    assert_eq!(listed[0].id, a.id);
    assert_eq!(listed[1].id, b.id);
}

#[test]
fn persist_writes_the_exact_canonical_form() {
    let mut s = SessionState::new();
    s.commit_tab(record("one", "https://example.com/", Some("Hi")));
    let json = s.persist().unwrap();
    assert_eq!(
        json,
        "[{\"id\":\"one\",\"label\":\"tab-one\",\"url\":\"https://example.com/\",\
         \"title\":\"Hi\",\"favicon\":null,\"loading\":false}]"
    );
}

#[test]
fn quotes_and_backslashes_survive_the_round_trip() {
    let mut s = SessionState::new();
    s.commit_tab(record("q", "https://example.com/", Some("a \"quoted\" \\ title")));
    let json = s.persist().unwrap();
    assert!(json.contains("a \\\"quoted\\\" \\\\ title"));
    let mut fresh = SessionState::new();
    let restored = fresh.restore(Some(json.as_str())).unwrap();
    assert_eq!(restored.len(), 1);
    assert_eq!(restored[0].title.as_deref(), Some("a \"quoted\" \\ title"));
}

#[test]
fn control_characters_cannot_be_serialized() {
    let mut s = SessionState::new();
    s.commit_tab(record("c", "https://example.com/", Some("line\nbreak")));
    assert_eq!(s.persist().err(), Some(SessionError::SerializationError));
}

#[test]
fn malformed_session_files_fail_and_leave_the_store_empty() {
    for bad in [
        "",
        "not json",
        "{",
        "[",
        "[]]",
        "[{\"id\":\"x\"}]",
        "[{\"id\":\"one\",\"label\":\"tab-one\",\"url\":\"u\",\"title\":null,\"favicon\":null,\"loading\":false}",
        "[{\"id\":\"one\",\"label\":\"tab-one\",\"url\":\"u\",\"title\":null,\"favicon\":null,\"loading\":flase}]",
        "[{\"id\":\"one\",\"label\":\"tab-one\",\"url\":\"u\",\"title\":null,\"favicon\":null,\"loading\":false},]",
    ] {
        let mut s = SessionState::new();
        let r = s.restore(Some(bad));
        assert_eq!(
            r.err(),
            Some(SessionError::DeserializationError),
            "input {:?} must be rejected",
            bad
        );
        assert_eq!(s.list_tabs().len(), 0);
    }
}

#[test]
fn decoder_reads_all_optional_shapes() {
    let json = "[{\"id\":\"a\",\"label\":\"tab-a\",\"url\":\"https://example.com/\",\
        \"title\":null,\"favicon\":\"https://example.com/i.png\",\"loading\":null},\
        {\"id\":\"b\",\"label\":\"tab-b\",\"url\":\"https://example.org/\",\
        \"title\":\"T\",\"favicon\":null,\"loading\":true}]";
    let mut s = SessionState::new();
    let v = s.restore(Some(json)).unwrap();
    assert_eq!(v.len(), 2);
    assert_eq!(v[0].title, None);
    assert_eq!(v[0].favicon.as_deref(), Some("https://example.com/i.png"));
    assert_eq!(v[0].loading, None);
    assert_eq!(v[1].title.as_deref(), Some("T"));
    assert_eq!(v[1].favicon, None);
    assert_eq!(v[1].loading, Some(true));
}
