use event_filter::{
    Client, Commit, Event, Filter, FilterError, Filters, Keywords, Payload, Subscribes,
};

fn strings(items: &[&str]) -> Vec<String> {
    items.iter().map(|s| s.to_string()).collect()
}

fn commit_event(repo: &str, texts: &[&str]) -> Event {
    Event {
        payload: Payload::Commit(Commit { repo: repo.to_string(), texts: strings(texts) }),
    }
}

fn rule(name: &str, dids: Option<&[&str]>, handles: Option<&[&str]>) -> Filter {
    Filter {
        name: name.to_string(),
        subscribes: Some(Subscribes {
            dids: dids.map(strings),
            handles: handles.map(strings),
        }),
        keywords: None,
    }
}

#[test]
fn client_lookup_returns_first_entry() {
    let mut client = Client::new();
    client.add("h.example", "did:one");
    client.add("h.example", "did:two");
    assert_eq!(client.get_handle("h.example"), Some("did:one".to_string()));
    assert_eq!(client.get_handle("missing.example"), None);
}

#[test]
fn init_resolves_handles_and_unions_with_existing_ids() {
    let mut f = rule("r", Some(&["did:pre"]), Some(&["a.example", "b.example"]));
    let mut client = Client::new();
    client.add("a.example", "did:a");
    // b.example does not resolve and is silently skipped
    f.init(&client);
    let subs = f.subscribes.as_ref().unwrap();
    assert!(subs.handles.is_none());
    let dids = subs.dids.as_ref().unwrap();
    assert_eq!(dids.len(), 2);
    assert!(dids.contains(&"did:pre".to_string()));
    assert!(dids.contains(&"did:a".to_string()));
    assert!(!dids.contains(&"did:b".to_string()));
}

#[test]
fn init_with_empty_union_clears_the_id_list() {
    let mut f = rule("r", None, Some(&["a.example"]));
    let client = Client::new();
    f.init(&client);
    let subs = f.subscribes.as_ref().unwrap();
    assert!(subs.dids.is_none());
    assert!(subs.handles.is_none());
}

#[test]
fn init_collapses_duplicates() {
    let mut f = rule("r", Some(&["did:a", "did:a"]), Some(&["h.example"]));
    let mut client = Client::new();
    client.add("h.example", "did:a");
    f.init(&client);
    let dids = f.subscribes.as_ref().unwrap().dids.as_ref().unwrap();
    assert_eq!(dids, &strings(&["did:a"]));
}

#[test]
fn init_with_empty_handle_list_still_collapses_and_clears() {
    let mut f = rule("r", Some(&["did:a", "did:a"]), Some(&[]));
    let client = Client::new();
    f.init(&client);
    let subs = f.subscribes.as_ref().unwrap();
    assert_eq!(subs.dids.as_ref().unwrap(), &strings(&["did:a"]));
    assert!(subs.handles.is_none());
}

#[test]
fn unset_id_list_never_matches_by_subscription() {
    let f = Filter {
        name: "r".to_string(),
        subscribes: Some(Subscribes { dids: None, handles: Some(strings(&["a.example"])) }),
        keywords: Some(Keywords { includes: Some(strings(&["x"])), excludes: None }),
    };
    // not watched, so only the include path can surface the commit
    assert!(f.is_match(&commit_event("did:d", &["has x in it"])));
    assert!(!f.is_match(&commit_event("did:d", &["nothing here"])));
}

#[test]
fn init_without_subscription_or_handles_changes_nothing() {
    let client = Client::new();
    let mut bare = Filter { name: "r".to_string(), subscribes: None, keywords: None };
    bare.init(&client);
    assert!(bare.subscribes.is_none());

    let mut no_handles = rule("r", Some(&["did:a", "did:a"]), None);
    no_handles.init(&client);
    let subs = no_handles.subscribes.as_ref().unwrap();
    // without a handle list even duplicates stay untouched
    assert_eq!(subs.dids.as_ref().unwrap(), &strings(&["did:a", "did:a"]));
    assert!(subs.handles.is_none());
}

#[test]
fn registry_init_initializes_every_rule() {
    let mut fs = Filters {
        filters: vec![
            rule("one", None, Some(&["a.example"])),
            rule("two", Some(&["did:pre"]), Some(&["b.example"])),
        ],
    };
    let mut client = Client::new();
    client.add("b.example", "did:b");
    fs.init(&client);
    assert!(fs.filters[0].subscribes.as_ref().unwrap().dids.is_none());
    let dids = fs.filters[1].subscribes.as_ref().unwrap().dids.as_ref().unwrap();
    assert_eq!(dids.len(), 2);
    assert!(dids.contains(&"did:pre".to_string()));
    assert!(dids.contains(&"did:b".to_string()));
}

#[test]
fn registry_lookup_by_nonexistent_name_fails_no_such_filter() {
    let mut fs = Filters { filters: vec![rule("present", Some(&["did:a"]), None)] };
    assert_eq!(fs.subscribe_repo("absent", "did:x"), Err(FilterError::NoSuchFilter));
    assert_eq!(fs.unsubscribe_repo("absent", "did:x"), Err(FilterError::NoSuchFilter));
    assert_eq!(fs.subscribe_handle("absent", "h.example"), Err(FilterError::NoSuchFilter));
    assert_eq!(fs.unsubscribe_handle("absent", "h.example"), Err(FilterError::NoSuchFilter));
    // the present rule is untouched by the failed lookups
    assert!(fs.filters[0].is_match(&commit_event("did:a", &[])));
}

#[test]
fn registry_lookup_on_empty_registry_fails_no_such_filter() {
    let mut fs = Filters::new();
    assert_eq!(fs.subscribe_repo("any", "did:x"), Err(FilterError::NoSuchFilter));
}

#[test]
fn registry_distinguishes_no_such_filter_from_not_found() {
    let mut fs = Filters {
        filters: vec![Filter { name: "r".to_string(), subscribes: None, keywords: None }],
    };
    assert_eq!(fs.unsubscribe_repo("missing", "did:x"), Err(FilterError::NoSuchFilter));
    assert_eq!(fs.unsubscribe_repo("r", "did:x"), Err(FilterError::NotFound));
    assert_eq!(fs.unsubscribe_handle("r", "h.example"), Err(FilterError::NotFound));
}

#[test]
fn subscribe_then_unsubscribe_round_trip_clears_membership() {
    let mut fs = Filters { filters: vec![rule("r", Some(&["did:d", "did:other"]), None)] };
    assert!(fs.subscribe_repo("r", "did:d").is_ok());
    assert!(fs.filters[0].is_match(&commit_event("did:d", &[])));
    assert!(fs.unsubscribe_repo("r", "did:d").is_ok());
    assert!(!fs.filters[0].is_match(&commit_event("did:d", &[])));
    assert!(fs.filters[0].is_match(&commit_event("did:other", &[])));
}

#[test]
fn registry_routes_to_the_first_rule_with_a_duplicated_name() {
    let mut fs = Filters {
        filters: vec![rule("dup", None, None), rule("dup", None, None)],
    };
    assert!(fs.subscribe_repo("dup", "did:d").is_ok());
    assert!(fs.filters[0].is_match(&commit_event("did:d", &[])));
    assert!(!fs.filters[1].is_match(&commit_event("did:d", &[])));
}

#[test]
fn registry_subscribe_creates_subscription_lazily() {
    let mut fs = Filters {
        filters: vec![Filter { name: "r".to_string(), subscribes: None, keywords: None }],
    };
    assert!(fs.subscribe_handle("r", "a.example").is_ok());
    assert_eq!(
        fs.filters[0].subscribes.as_ref().unwrap().handles.as_ref().unwrap(),
        &strings(&["a.example"])
    );
}

#[test]
fn snapshot_is_a_deep_copy() {
    let mut fs = Filters { filters: vec![rule("r", Some(&["did:a"]), None)] };
    let snapshot = fs.get_filters();
    assert_eq!(snapshot.len(), 1);
    assert_eq!(snapshot[0].name, "r");
    assert!(snapshot[0].is_match(&commit_event("did:a", &[])));
    // later mutation of the registry leaves the snapshot untouched
    assert!(fs.subscribe_repo("r", "did:new").is_ok());
    assert!(fs.filters[0].is_match(&commit_event("did:new", &[])));
    assert!(!snapshot[0].is_match(&commit_event("did:new", &[])));
}

#[test]
fn keyword_rules_survive_routing_and_init() {
    let mut fs = Filters {
        filters: vec![Filter {
            name: "team".to_string(),
            subscribes: Some(Subscribes {
                dids: Some(strings(&["did:d"])),
                handles: Some(strings(&["a.example"])),
            }),
            keywords: Some(Keywords {
                includes: Some(strings(&["bluesky"])),
                excludes: Some(strings(&["twitter"])),
            }),
        }],
    };
    let mut client = Client::new();
    client.add("a.example", "did:a");
    fs.init(&client);
    // watched author suppressed by the exclude term
    assert!(!fs.filters[0].is_match(&commit_event("did:a", &["moving to twitter"])));
    // watched author passes otherwise
    assert!(fs.filters[0].is_match(&commit_event("did:a", &["hello"])));
    // unwatched author surfaces only through the include term
    assert!(fs.filters[0].is_match(&commit_event("did:z", &["bluesky is nice"])));
    assert!(!fs.filters[0].is_match(&commit_event("did:z", &["hello"])));
}
