use event_filter::{Commit, Event, Filter, FilterError, Handle, Keywords, Payload, Subscribes};

fn strings(items: &[&str]) -> Vec<String> {
    items.iter().map(|s| s.to_string()).collect()
}

fn commit_event(repo: &str, texts: &[&str]) -> Event {
    Event {
        payload: Payload::Commit(Commit { repo: repo.to_string(), texts: strings(texts) }),
    }
}

fn handle_event(did: &str) -> Event {
    Event { payload: Payload::Handle(Handle { did: did.to_string() }) }
}

#[test]
fn add_identifier_then_match_on_empty() {
    let mut s = Subscribes::new();
    assert!(!s.is_match("did:a"));
    assert!(s.subscribe_repo("did:a").is_ok());
    assert!(s.is_match("did:a"));
}

#[test]
fn add_identifier_then_match_with_prior_content() {
    let mut s = Subscribes { dids: Some(strings(&["did:x", "did:y"])), handles: None };
    assert!(s.subscribe_repo("did:a").is_ok());
    assert!(s.is_match("did:a"));
    assert!(s.is_match("did:x"));
}

#[test]
fn add_identifier_duplicates_permitted() {
    let mut s = Subscribes { dids: Some(strings(&["did:a"])), handles: None };
    assert!(s.subscribe_repo("did:a").is_ok());
    assert_eq!(s.dids.as_ref().unwrap().len(), 2);
    assert!(s.is_match("did:a"));
}

#[test]
fn unsubscribe_repo_without_list_fails_not_found() {
    let mut s = Subscribes::new();
    assert_eq!(s.unsubscribe_repo("did:a"), Err(FilterError::NotFound));
}

#[test]
fn unsubscribe_repo_absent_id_succeeds_and_keeps_matching() {
    let mut s = Subscribes { dids: Some(strings(&["did:a"])), handles: None };
    assert!(s.unsubscribe_repo("did:b").is_ok());
    assert!(s.is_match("did:a"));
    assert!(!s.is_match("did:b"));
}

#[test]
fn unsubscribe_repo_removes_every_occurrence() {
    let mut s = Subscribes { dids: Some(strings(&["did:a", "did:b", "did:a"])), handles: None };
    assert!(s.unsubscribe_repo("did:a").is_ok());
    assert!(!s.is_match("did:a"));
    assert!(s.is_match("did:b"));
    assert_eq!(s.dids.as_ref().unwrap().len(), 1);
}

#[test]
fn handle_list_operations_mirror_repo_operations() {
    let mut s = Subscribes::new();
    assert_eq!(s.unsubscribe_handle("a.example"), Err(FilterError::NotFound));
    assert!(s.subscribe_handle("a.example").is_ok());
    assert!(s.subscribe_handle("b.example").is_ok());
    assert!(s.unsubscribe_handle("a.example").is_ok());
    assert_eq!(s.handles.as_ref().unwrap(), &strings(&["b.example"]));
    // handles are never consulted for matching
    assert!(!s.is_match("b.example"));
}

#[test]
fn includes_is_case_sensitive_substring_containment() {
    let k = Keywords { includes: Some(strings(&["abc"])), excludes: None };
    let hit = Commit { repo: "did:a".to_string(), texts: strings(&["xabcy"]) };
    let miss = Commit { repo: "did:a".to_string(), texts: strings(&["ABX"]) };
    assert!(k.includes(&hit));
    assert!(!k.includes(&miss));
}

#[test]
fn includes_upper_case_text_does_not_match_lower_case_term() {
    let k = Keywords { includes: Some(strings(&["abc"])), excludes: None };
    let c = Commit { repo: "did:a".to_string(), texts: strings(&["ABC"]) };
    assert!(!k.includes(&c));
}

#[test]
fn absent_keyword_lists_never_fire() {
    let k = Keywords { includes: None, excludes: None };
    let c = Commit { repo: "did:a".to_string(), texts: strings(&["anything"]) };
    assert!(!k.includes(&c));
    assert!(!k.excludes(&c));
}

#[test]
fn excludes_uses_the_same_substring_logic() {
    let k = Keywords { includes: None, excludes: Some(strings(&["tw"])) };
    let hit = Commit { repo: "did:a".to_string(), texts: strings(&["twitter"]) };
    let miss = Commit { repo: "did:a".to_string(), texts: strings(&["mastodon"]) };
    assert!(k.excludes(&hit));
    assert!(!k.excludes(&miss));
}

#[test]
fn empty_term_occurs_in_every_text() {
    let k = Keywords { includes: Some(strings(&[""])), excludes: None };
    let c = Commit { repo: "did:a".to_string(), texts: strings(&["anything"]) };
    assert!(k.includes(&c));
}

#[test]
fn no_text_fragments_means_no_keyword_hit() {
    let k = Keywords { includes: Some(strings(&["a"])), excludes: None };
    let c = Commit { repo: "did:a".to_string(), texts: strings(&[]) };
    assert!(!k.includes(&c));
}

#[test]
fn commit_from_watched_repo_excluded_despite_subscription() {
    let f = Filter {
        name: "r".to_string(),
        subscribes: Some(Subscribes { dids: Some(strings(&["did:d"])), handles: None }),
        keywords: Some(Keywords { includes: None, excludes: Some(strings(&["x"])) }),
    };
    assert!(!f.is_match(&commit_event("did:d", &["text with x inside"])));
}

#[test]
fn commit_from_unwatched_repo_surfaces_via_include() {
    let f = Filter {
        name: "r".to_string(),
        subscribes: Some(Subscribes { dids: Some(strings(&["did:other"])), handles: None }),
        keywords: Some(Keywords { includes: Some(strings(&["x"])), excludes: None }),
    };
    assert!(f.is_match(&commit_event("did:d", &["text with x inside"])));
}

#[test]
fn commit_from_watched_repo_matches_without_exclude_hit() {
    let f = Filter {
        name: "r".to_string(),
        subscribes: Some(Subscribes { dids: Some(strings(&["did:d"])), handles: None }),
        keywords: Some(Keywords {
            includes: Some(strings(&["never mentioned"])),
            excludes: Some(strings(&["spam"])),
        }),
    };
    // the include list is not consulted for a watched repository
    assert!(f.is_match(&commit_event("did:d", &["plain text"])));
}

#[test]
fn commit_from_unwatched_repo_without_include_hit_drops() {
    let f = Filter {
        name: "r".to_string(),
        subscribes: Some(Subscribes { dids: Some(strings(&["did:other"])), handles: None }),
        keywords: Some(Keywords { includes: Some(strings(&["x"])), excludes: None }),
    };
    assert!(!f.is_match(&commit_event("did:d", &["no hit here"])));
}

#[test]
fn commit_with_no_configuration_at_all_drops() {
    let f = Filter { name: "r".to_string(), subscribes: None, keywords: None };
    assert!(!f.is_match(&commit_event("did:d", &["anything"])));
}

#[test]
fn handle_update_for_unwatched_repo_never_matches() {
    let f = Filter {
        name: "r".to_string(),
        subscribes: Some(Subscribes { dids: Some(strings(&["did:other"])), handles: None }),
        keywords: Some(Keywords {
            includes: Some(strings(&["x"])),
            excludes: Some(strings(&["x"])),
        }),
    };
    // keywords are configured and would fire on a commit, but they are not
    // consulted for a handle-change notice
    assert!(!f.is_match(&handle_event("did:d")));
}

#[test]
fn handle_update_for_watched_repo_matches() {
    let f = Filter {
        name: "r".to_string(),
        subscribes: Some(Subscribes { dids: Some(strings(&["did:d"])), handles: None }),
        keywords: None,
    };
    assert!(f.is_match(&handle_event("did:d")));
}

#[test]
fn other_events_always_pass_through() {
    let f = Filter { name: "r".to_string(), subscribes: None, keywords: None };
    assert!(f.is_match(&Event { payload: Payload::Other }));
}

#[test]
fn filter_mutations_delegate_and_lazily_create() {
    let mut f = Filter { name: "r".to_string(), subscribes: None, keywords: None };
    assert_eq!(f.unsubscribe_repo("did:a"), Err(FilterError::NotFound));
    assert_eq!(f.unsubscribe_handle("a.example"), Err(FilterError::NotFound));
    assert!(f.subscribe_repo("did:a").is_ok());
    assert!(f.is_match(&commit_event("did:a", &[])));
    assert!(f.unsubscribe_repo("did:a").is_ok());
    assert!(!f.is_match(&commit_event("did:a", &[])));
    assert!(f.subscribe_handle("a.example").is_ok());
    assert!(f.unsubscribe_handle("a.example").is_ok());
}

#[test]
fn unsubscribe_repo_with_subscription_but_no_id_list_fails_not_found() {
    let mut f = Filter {
        name: "r".to_string(),
        subscribes: Some(Subscribes { dids: None, handles: Some(strings(&["a.example"])) }),
        keywords: None,
    };
    assert_eq!(f.unsubscribe_repo("did:a"), Err(FilterError::NotFound));
}
