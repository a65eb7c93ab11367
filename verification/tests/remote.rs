use gh_pilot::json::parse_json;
use gh_pilot::remote::{
    is_cancelled_remote_state, list_args, list_remote_sessions, list_remote_sessions_for_project,
    normalize_remote_state, pull_request_url, remote_activity_key, remote_session_url,
    remote_status, sessions_of_tasks, task_repository, RemoteSession,
};
use gh_pilot::status::SessionStatus;

const LIST: &[u8] = br#"[
    {"id":"1","name":"First","repository":"o/r","state":"in_progress",
     "pullRequestUrl":"https://github.com/o/r/pull/3/","updatedAt":"1970-01-02T00:00:00Z"},
    {"id":"2","repository":{"fullName":"o/r"}},
    {"id":"3","repository":"o/other"},
    {"name":"no id","repository":"o/r"}
]"#;

fn listed(id: &str) -> RemoteSession {
    let text = format!(r#"[{{"id":"{id}","repository":"o/r","state":"completed"}}]"#);
    let tasks = parse_json(&text).unwrap();
    sessions_of_tasks(&tasks, "/p", Some("o/r")).remove(0)
}

#[test]
fn tasks_of_a_project_are_listed() {
    let tasks = list_remote_sessions_for_project("/p", Some("o/r"), true, LIST, b"").unwrap();
    assert_eq!(tasks.len(), 2);
    assert_eq!(tasks[0].display_name, "First");
    assert_eq!(tasks[0].status, SessionStatus::Busy);
    assert_eq!(
        tasks[0].url.as_deref(),
        Some("https://github.com/o/r/pull/3/agent-sessions/1")
    );
    assert_eq!(remote_activity_key(&tasks[0]), Some(86_400_000));
    assert_eq!(tasks[1].display_name, "Remote Copilot session");
    assert_eq!(tasks[1].state, "unknown");
    assert_eq!(tasks[1].project_dir, "/p");
    assert_eq!(tasks[1].pr_url, None);
}

#[test]
fn lists_that_cannot_be_had() {
    assert_eq!(
        list_remote_sessions_for_project("/p", None, false, b"", b" not logged in \n"),
        Err("gh agent-task list failed: not logged in".to_owned())
    );
    assert_eq!(
        list_remote_sessions_for_project("/p", None, true, b"[", b""),
        Err("failed to parse gh agent-task output".to_owned())
    );
    assert_eq!(
        list_remote_sessions_for_project("/p", Some("o/r"), true, b"{}", b""),
        Ok(vec![])
    );
}

#[test]
fn lists_are_gathered_without_doubles() {
    let gathered = list_remote_sessions(&vec![
        Ok(vec![listed("a"), listed("b")]),
        Err("offline".to_owned()),
        Ok(vec![listed("b"), listed("c")]),
    ])
    .unwrap();
    let ids: Vec<&str> = gathered.iter().map(|task| task.id.as_str()).collect();
    assert_eq!(ids, vec!["a", "b", "c"]);
    assert_eq!(
        list_remote_sessions(&vec![Err("x".to_owned()), Ok(vec![]), Err("y".to_owned())]),
        Err("x; y".to_owned())
    );
    assert_eq!(list_remote_sessions(&vec![]), Ok(vec![]));
}

#[test]
fn states_are_read_in_any_spelling() {
    assert_eq!(normalize_remote_state(" In-Progress "), "in_progress");
    assert_eq!(remote_status("completed"), SessionStatus::Done);
    assert_eq!(remote_status("Cancelled"), SessionStatus::Idle);
    assert!(is_cancelled_remote_state("CANCELLED"));
    assert!(!is_cancelled_remote_state("running"));
    assert_eq!(list_args().last().map(|arg| arg.as_str()), Some(
        "id,name,pullRequestUrl,repository,state,updatedAt"
    ));
}

#[test]
fn repositories_and_addresses_of_tasks() {
    let task = parse_json(r#"{"repository":{"name":"n"},"pullRequestUrl":""}"#).unwrap();
    assert_eq!(task_repository(&task), Some("n".to_owned()));
    assert_eq!(pull_request_url(&task), None);
    assert_eq!(remote_session_url(&task, "1"), None);
    let bare = parse_json(r#"{"repository":7}"#).unwrap();
    assert_eq!(task_repository(&bare), None);
    let first = parse_json(r#"{"repository":{"nameWithOwner":3,"name":"n"}}"#).unwrap();
    assert_eq!(task_repository(&first), None);
}

#[test]
fn long_names_are_cut() {
    let text = format!(r#"[{{"id":"1","name":"{}","repository":"o/r"}}]"#, "x".repeat(60));
    let tasks = parse_json(&text).unwrap();
    let task = sessions_of_tasks(&tasks, "/p", Some("o/r")).remove(0);
    assert_eq!(task.display_name.chars().count(), 48);
    assert!(task.display_name.ends_with('~'));
}
