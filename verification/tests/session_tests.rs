use nile_browser::session::{create_tab, SessionError, SessionState};

const URL_A: &str = "https://example.com/";
const URL_B: &str = "https://example.org/page?q=1";

#[test]
fn create_tab_valid_url_then_list_shows_one_new_record() {
    let mut s = SessionState::new();
    let before = s.list_tabs().len();
    let rec = create_tab(&String::from(URL_A)).expect("valid URL must be accepted");
    assert_eq!(rec.url, URL_A);
    assert_eq!(rec.loading, Some(true));
    assert_eq!(rec.title, None);
    assert_eq!(rec.favicon, None);
    assert_eq!(rec.label, format!("tab-{}", rec.id));
    s.commit_tab(rec.clone());
    let after = s.list_tabs();
    assert_eq!(after.len(), before + 1);
    let matching: Vec<_> = after.iter().filter(|t| t.id == rec.id).collect();
    assert_eq!(matching.len(), 1);
    assert_eq!(matching[0].url, URL_A);
    assert_eq!(matching[0].loading, Some(true));
}

#[test]
fn create_tab_rejects_malformed_url_and_store_unchanged() {
    let mut s = SessionState::new();
    let good = create_tab(&String::from(URL_A)).unwrap();
    s.commit_tab(good);
    let r = create_tab(&String::from("not a url"));
    assert_eq!(r.err(), Some(SessionError::InvalidInput));
    assert_eq!(s.list_tabs().len(), 1);
}

#[test]
fn create_tab_ids_are_distinct() {
    let a = create_tab(&String::from(URL_A)).unwrap();
    let b = create_tab(&String::from(URL_A)).unwrap();
    assert!(!a.id.is_empty());
    assert_ne!(a.id, b.id);
}

#[test]
fn close_tab_absent_then_present_then_absent_again() {
    let mut s = SessionState::new();
    assert_eq!(
        s.close_tab(&String::from("no-such-id")).err(),
        Some(SessionError::NotFound)
    );
    let rec = create_tab(&String::from(URL_A)).unwrap();
    let id = rec.id.clone();
    s.commit_tab(rec);
    let closed = s.close_tab(&id).expect("close of a live tab succeeds");
    assert_eq!(closed.id, id);
    assert_eq!(s.close_tab(&id).err(), Some(SessionError::NotFound));
    assert_eq!(s.list_tabs().len(), 0);
}

#[test]
fn report_page_state_merges_into_live_tab() {
    let mut s = SessionState::new();
    let rec = create_tab(&String::from(URL_A)).unwrap();
    let id = rec.id.clone();
    s.commit_tab(rec);
    let merged = s
        .report_page_state(
            &id,
            String::from("Example"),
            String::from(URL_B),
            String::from("https://example.com/favicon.ico"),
            false,
        )
        .expect("report for a live tab merges");
    assert_eq!(merged.title.as_deref(), Some("Example"));
    assert_eq!(merged.url, URL_B);
    assert_eq!(
        merged.favicon.as_deref(),
        Some("https://example.com/favicon.ico")
    );
    assert_eq!(merged.loading, Some(false));
    // An empty favicon report keeps the old icon.
    let merged2 = s
        .report_page_state(&id, String::from("Example"), String::from(URL_B), String::new(), false)
        .unwrap();
    assert_eq!(
        merged2.favicon.as_deref(),
        Some("https://example.com/favicon.ico")
    );
}

#[test]
fn report_page_state_after_close_is_a_silent_no_op() {
    let mut s = SessionState::new();
    let keep = create_tab(&String::from(URL_A)).unwrap();
    s.commit_tab(keep);
    let rec = create_tab(&String::from(URL_B)).unwrap();
    let id = rec.id.clone();
    s.commit_tab(rec);
    s.close_tab(&id).unwrap();
    let before: Vec<_> = s
        .list_tabs()
        .iter()
        .map(|t| (t.id.clone(), t.url.clone(), t.title.clone(), t.favicon.clone(), t.loading))
        .collect();
    let r = s.report_page_state(
        &id,
        String::from("Ghost"),
        String::from(URL_B),
        String::from("icon"),
        true,
    );
    assert!(r.is_none());
    let after: Vec<_> = s
        .list_tabs()
        .iter()
        .map(|t| (t.id.clone(), t.url.clone(), t.title.clone(), t.favicon.clone(), t.loading))
        .collect();
    assert_eq!(before, after);
}

#[test]
fn navigate_tab_validates_url_and_names_the_surface() {
    let mut s = SessionState::new();
    let rec = create_tab(&String::from(URL_A)).unwrap();
    let id = rec.id.clone();
    let label = rec.label.clone();
    s.commit_tab(rec);
    assert_eq!(s.navigate_tab(&id, &String::from(URL_B)), Ok(label));
    assert_eq!(
        s.navigate_tab(&id, &String::from("::nope::")).err(),
        Some(SessionError::InvalidInput)
    );
    assert_eq!(
        s.navigate_tab(&String::from("missing"), &String::from(URL_B)).err(),
        Some(SessionError::NotFound)
    );
}

#[test]
fn devtools_target_and_active_tab() {
    let mut s = SessionState::new();
    assert!(s.active_tab().is_none());
    assert_eq!(
        s.devtools_target(&String::from("missing")).err(),
        Some(SessionError::NotFound)
    );
    let rec = create_tab(&String::from(URL_A)).unwrap();
    let id = rec.id.clone();
    let label = rec.label.clone();
    s.commit_tab(rec);
    assert_eq!(s.devtools_target(&id), Ok(label.clone()));
    assert_eq!(s.active_tab().unwrap().label, label);
}

#[test]
fn permission_check_fails_closed_then_follows_the_stored_decision() {
    let mut s = SessionState::new();
    let origin = String::from("https://example.com");
    let kind = String::from("camera");
    assert!(!s.request_permission(&origin, &kind));
    s.set_permission(origin.clone(), kind.clone(), true);
    assert!(s.request_permission(&origin, &kind));
    s.set_permission(origin.clone(), kind.clone(), false);
    assert!(!s.request_permission(&origin, &kind));
    // Other pairs stay undecided, hence denied.
    assert!(!s.request_permission(&origin, &String::from("microphone")));
}
