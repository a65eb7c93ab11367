use gh_pilot::registry::{registry_path, Registry, Session, Status};

fn empty_registry() -> Registry {
    Registry::new("/nowhere/sessions.json".to_owned(), Vec::new())
}

fn make_session(title: &str) -> Session {
    Session::new(
        format!("5f2c9d1e-0000-0000-0000-{title:0>12}"),
        title.to_string(),
        "/tmp".to_string(),
        "cmd".to_string(),
    )
}

#[test]
fn test_add_and_find() {
    let mut reg = empty_registry();
    let s = make_session("Alpha");
    let id = s.id.clone();
    reg.add(s);

    assert!(reg.find(&id).is_some());
    assert!(reg.find("Alpha").is_some());
    assert!(reg.find(&id[..8]).is_some());
}

#[test]
fn test_find_case_insensitive_title() {
    let mut reg = empty_registry();
    reg.add(make_session("MyProject"));
    assert!(reg.find("myproject").is_some());
    assert!(reg.find("MYPROJECT").is_some());
}

#[test]
fn test_find_returns_none_for_unknown() {
    let reg = empty_registry();
    assert!(reg.find("nonexistent").is_none());
}

#[test]
fn test_remove() {
    let mut reg = empty_registry();
    let s = make_session("Beta");
    let id = s.id.clone();
    reg.add(s);

    let removed = reg.remove(&id);
    assert!(removed.is_some());
    assert_eq!(removed.unwrap().title, "Beta");
    assert!(reg.find("Beta").is_none());
}

#[test]
fn test_get_mut_updates_status() {
    let mut reg = empty_registry();
    let s = make_session("Delta");
    let id = s.id.clone();
    reg.add(s);

    let session = reg.get_mut(&id).unwrap();
    session.status = Status::Idle;

    assert_eq!(reg.get(&id).unwrap().status, Status::Idle);
}

#[test]
fn test_ambiguous_prefix_not_matched() {
    let mut reg = empty_registry();
    // Force two sessions with IDs that share the same prefix by patching IDs.
    let mut s1 = make_session("One");
    let mut s2 = make_session("Two");
    // Make them share a prefix.
    s1.id = "abcd1234-0000-0000-0000-000000000001".to_string();
    s2.id = "abcd5678-0000-0000-0000-000000000002".to_string();
    reg.add(s1);
    reg.add(s2);

    // "abcd" prefix matches both → should not resolve.
    assert!(reg.find("abcd").is_none());
    // Full IDs should still work.
    assert!(reg.find("abcd1234-0000-0000-0000-000000000001").is_some());
}

#[test]
fn short_starts_are_no_ids() {
    let mut reg = empty_registry();
    let mut s = make_session("One");
    s.id = "éàxyz".to_owned();
    reg.add(s);
    assert!(reg.find("éàx").is_none());
    assert!(reg.find("éàxy").is_some());
    assert!(reg.find("one").is_some());
}

#[test]
fn found_sessions_can_be_changed() {
    let mut reg = empty_registry();
    reg.add(make_session("One"));
    reg.add(make_session("Two"));
    reg.find_mut("two").unwrap().status = Status::Error;
    assert!(reg.find("three").is_none());
    assert!(reg.find_mut("three").is_none());
    let id = reg.find("two").unwrap().id.clone();
    assert_eq!(reg.find_mut("two").unwrap().id, id);
    assert_eq!(reg.sessions()[0].status, Status::Idle);
    assert_eq!(reg.sessions()[1].status, Status::Error);
    assert_eq!(reg.remove("nothing"), None);
    assert_eq!(reg.sessions().len(), 2);
}

#[test]
fn the_registry_lies_under_home() {
    assert_eq!(
        registry_path(Some("/home/me")),
        Ok("/home/me/.gh-mission-control/sessions.json".to_owned())
    );
    assert_eq!(
        registry_path(None),
        Err("Could not determine home directory".to_owned())
    );
}
