use gh_pilot::events::{detect_session_status_from_event_content, EventLog};
use gh_pilot::json::{parse_json, parse_json_bytes, Json};
use gh_pilot::log::{
    failed_log, load_remote_task_log, log_args, log_text, read_remote_log_preview,
    sanitize_remote_log, LogPreview, LogRun, REMOTE_LOG_PREVIEW_BYTES, REMOTE_LOG_PREVIEW_LINES,
};
use gh_pilot::session::{
    active_tmux_session_names, copilot_binary, copilot_dir, detect_session_status, enrich,
    event_log_path, is_awaiting_response, list_args, load_remote_agent_tasks, load_sessions,
    parse_workspace_yaml, pull_request_number_from_url, recent_session, refresh_session_statuses,
    remote_status, remote_task_from_json, remote_task_url, response_indicates_error,
    path_separator, session_db_path, session_state_dir, value_text, which_in_path, CopilotSession, LatestTurn,
    SessionSource, SessionStatus, Timestamp,
};
use gh_pilot::tables::TextSet;

const NOW: Timestamp = Timestamp {
    secs: 1_778_644_124,
    nanos: 0,
};

fn json(text: &str) -> Json {
    parse_json(text).expect("valid JSON")
}

fn workspace(content: &str) -> CopilotSession {
    parse_workspace_yaml(content, NOW).expect("workspace with an id")
}

#[test]
fn event_status_reports_running_for_active_turn() {
    let content = r#"{"type":"assistant.turn_start","data":{"turnId":"1"}}"#;

    assert_eq!(
        detect_session_status_from_event_content(content),
        Some(SessionStatus::Running)
    );
}

#[test]
fn event_status_reports_waiting_for_pending_permission() {
    let content = r#"{"type":"assistant.turn_start","data":{"turnId":"1"}}
{"type":"permission.requested","data":{"requestId":"approve-1"}}"#;

    assert_eq!(
        detect_session_status_from_event_content(content),
        Some(SessionStatus::Waiting)
    );
}

#[test]
fn event_status_reports_running_after_permission_completes() {
    let content = r#"{"type":"assistant.turn_start","data":{"turnId":"1"}}
{"type":"permission.requested","data":{"requestId":"approve-1"}}
{"type":"permission.completed","data":{"requestId":"approve-1"}}"#;

    assert_eq!(
        detect_session_status_from_event_content(content),
        Some(SessionStatus::Running)
    );
}

#[test]
fn event_status_reports_waiting_after_turn_end() {
    let content = r#"{"type":"assistant.turn_start","data":{"turnId":"1"}}
{"type":"assistant.turn_end","data":{"turnId":"1"}}"#;

    assert_eq!(
        detect_session_status_from_event_content(content),
        Some(SessionStatus::Waiting)
    );
}

#[test]
fn failed_tools_and_error_events_are_errors() {
    let failed = r#"{"type":"assistant.turn_start","data":{"turnId":"1"}}
{"type":"tool.execution_complete","data":{"success":false}}"#;
    assert_eq!(
        detect_session_status_from_event_content(failed),
        Some(SessionStatus::Error)
    );
    assert_eq!(
        detect_session_status_from_event_content(r#"{"type":"session.error"}"#),
        Some(SessionStatus::Error)
    );
    let recovered = r#"{"type":"session.error"}
{"type":"assistant.turn_start","data":{"turnId":"2"}}"#;
    assert_eq!(
        detect_session_status_from_event_content(recovered),
        Some(SessionStatus::Running)
    );
}

#[test]
fn lines_that_are_no_events_say_nothing() {
    assert_eq!(detect_session_status_from_event_content(""), None);
    assert_eq!(detect_session_status_from_event_content("not json\n{}\n[1]"), None);
    let other_end = r#"{"type":"assistant.turn_start","data":{"turnId":"1"}}
{"type":"assistant.turn_end","data":{"turnId":"2"}}"#;
    assert_eq!(
        detect_session_status_from_event_content(other_end),
        Some(SessionStatus::Running)
    );
}

#[test]
fn events_can_be_recorded_one_by_one() {
    let mut log = EventLog::new();
    assert_eq!(log.status(), None);
    log.record(&json(r#"{"type":"x"}"#));
    assert_eq!(log.status(), Some(SessionStatus::Waiting));
    log.record(&json(r#"{"type":"permission.requested","data":{"requestId":"a"}}"#));
    log.record(&json(r#"{"type":"permission.completed","data":{"requestId":"b"}}"#));
    assert_eq!(log.status(), Some(SessionStatus::Waiting));
    assert!(log.pending.contains("a"));
}

#[test]
fn remote_task_from_json_builds_remote_session() {
    let task = json(
        r#"{
            "id": "task-1",
            "name": "Fix remote bug",
            "repository": { "nameWithOwner": "owner/repo" },
            "state": "in_progress",
            "createdAt": "2026-05-08T10:00:00Z",
            "updatedAt": "2026-05-08T11:00:00Z",
            "pullRequestNumber": 42,
            "pullRequestTitle": "Fix remote bug",
            "pullRequestState": "OPEN",
            "pullRequestUrl": "https://github.com/owner/repo/pull/42",
            "user": { "login": "octocat" }
        }"#,
    );

    let session = remote_task_from_json(&task, NOW).expect("remote task should parse");

    assert_eq!(session.source, SessionSource::Remote);
    assert_eq!(session.status, SessionStatus::Running);
    assert_eq!(session.repository.as_deref(), Some("owner/repo"));
    assert_eq!(session.display_name(), "Fix remote bug");
    assert_eq!(session.remote_user.as_deref(), Some("octocat"));
    assert_eq!(
        session.remote_url.as_deref(),
        Some("https://github.com/owner/repo/pull/42/agent-sessions/task-1")
    );
    assert_eq!(
        session.pull_request.as_deref(),
        Some("#42 Fix remote bug (OPEN)")
    );
    assert_eq!(session.created_at.secs, 1_778_234_400);
    assert_eq!(session.updated_at.secs, 1_778_238_000);
}

#[test]
fn remote_task_url_requires_owner_repo_and_pull_request() {
    assert_eq!(
        remote_task_url(Some("owner/repo"), Some("42"), "task-1").as_deref(),
        Some("https://github.com/owner/repo/pull/42/agent-sessions/task-1")
    );
    assert_eq!(remote_task_url(None, Some("42"), "task-1"), None);
    assert_eq!(remote_task_url(Some("repo"), Some("42"), "task-1"), None);
    assert_eq!(remote_task_url(Some("owner/"), Some("42"), "task-1"), None);
    assert_eq!(remote_task_url(Some("owner/repo"), None, "task-1"), None);
    assert_eq!(
        remote_task_url(Some("owner/repo"), Some(""), "task-1"),
        None
    );
    assert_eq!(remote_task_url(Some("owner/repo"), Some("42"), ""), None);
}

#[test]
fn remote_task_url_uses_pull_request_url_when_number_missing() {
    let task = json(
        r#"{
            "id": "task-1",
            "repository": "owner/repo",
            "pullRequestUrl": "https://github.com/owner/repo/pull/42"
        }"#,
    );

    let session = remote_task_from_json(&task, NOW).expect("remote task should parse");

    assert_eq!(
        session.remote_url.as_deref(),
        Some("https://github.com/owner/repo/pull/42/agent-sessions/task-1")
    );
}

#[test]
fn a_task_without_an_id_is_no_session() {
    assert_eq!(remote_task_from_json(&json(r#"{"name":"x"}"#), NOW), None);
    assert_eq!(remote_task_from_json(&json(r#"{"id":""}"#), NOW), None);
    let bare = remote_task_from_json(&json(r#"{"id":7,"state":"queued"}"#), NOW).unwrap();
    assert_eq!(bare.id, "7");
    assert_eq!(bare.cwd, "Remote agent tasks");
    assert_eq!(bare.created_at, NOW);
    assert_eq!(bare.updated_at, NOW);
    assert_eq!(bare.status, SessionStatus::Waiting);
    assert_eq!(
        bare.last_agent_message.as_deref(),
        Some("Remote agent task (queued)")
    );
}

#[test]
fn tasks_are_read_from_a_list() {
    let sessions = load_remote_agent_tasks(true, br#"[{"id":"a"},{"name":"b"},{"id":"c"}]"#, NOW);
    let ids: Vec<&str> = sessions.iter().map(|session| session.id.as_str()).collect();
    assert_eq!(ids, vec!["a", "c"]);
    assert!(load_remote_agent_tasks(false, br#"[{"id":"a"}]"#, NOW).is_empty());
    assert!(load_remote_agent_tasks(true, br#"{"id":"a"}"#, NOW).is_empty());
    assert!(load_remote_agent_tasks(true, b"[", NOW).is_empty());
    assert!(parse_json_bytes(b"{}").is_some());
    assert_eq!(list_args()[3].split(',').count(), 12);
}

#[test]
fn states_of_tasks() {
    assert_eq!(remote_status(Some("QUEUED")), SessionStatus::Waiting);
    assert_eq!(remote_status(Some("in-progress")), SessionStatus::Running);
    assert_eq!(remote_status(Some("timed_out")), SessionStatus::Error);
    assert_eq!(remote_status(Some("completed")), SessionStatus::Idle);
    assert_eq!(remote_status(None), SessionStatus::Idle);
}

#[test]
fn values_as_texts() {
    assert_eq!(value_text(None), None);
    assert_eq!(value_text(Some(&json("true"))), None);
    assert_eq!(value_text(Some(&json("1.5"))), Some("1.5".to_owned()));
    assert_eq!(
        value_text(Some(&json(r#"{"url":"u","login":"","name":{"login":"n"}}"#))),
        Some("n".to_owned())
    );
    assert_eq!(
        pull_request_number_from_url("https://x/pull/7/files"),
        Some("7".to_owned())
    );
    assert_eq!(pull_request_number_from_url("https://x/pull/"), None);
    assert_eq!(pull_request_number_from_url("https://x/7"), None);
}

#[test]
fn remote_log_preview_limits_lines() {
    let log = (0..REMOTE_LOG_PREVIEW_LINES + 10)
        .map(|line| format!("line {line}\n"))
        .collect::<String>();

    let (preview, truncated) = read_remote_log_preview(log.as_bytes());

    assert!(truncated);
    assert_eq!(
        String::from_utf8(preview).unwrap().lines().count(),
        REMOTE_LOG_PREVIEW_LINES
    );
}

#[test]
fn remote_log_preview_limits_bytes() {
    let log = vec![b'a'; REMOTE_LOG_PREVIEW_BYTES + 10];

    let (preview, truncated) = read_remote_log_preview(log.as_slice());

    assert!(truncated);
    assert_eq!(preview.len(), REMOTE_LOG_PREVIEW_BYTES);
}

#[test]
fn remote_log_preview_in_pieces() {
    let log = (0..REMOTE_LOG_PREVIEW_LINES + 10)
        .map(|line| format!("line {line}\n"))
        .collect::<String>();
    let mut reader = LogPreview::new();
    let mut read = 0;
    for piece in log.as_bytes().chunks(7) {
        read += reader.feed(piece);
    }
    assert!(reader.full());
    let (preview, truncated) = reader.finish();
    assert_eq!(preview.len(), read);
    assert_eq!((preview, truncated), read_remote_log_preview(log.as_bytes()));
    assert_eq!(read_remote_log_preview(b"short"), (b"short".to_vec(), false));
}

#[test]
fn sanitize_remote_log_removes_control_characters() {
    let sanitized = sanitize_remote_log("start\u{1b}[31m red\u{0} text\nnext\tline");

    assert_eq!(sanitized, "start[31m red text\nnext\tline");
    assert!(!sanitized.contains('\u{1b}'));
}

#[test]
fn logs_as_they_are_shown() {
    assert_eq!(log_text(" a\u{7}b \n", false), "ab");
    assert_eq!(log_text("a", true), "a\n… (log preview truncated)");
    assert_eq!(log_text(" \n", true), "… (log preview truncated)");
    assert_eq!(
        failed_log("exit status: 1", "no\u{1b} such task\n"),
        "Failed to load remote task log: no such task"
    );
    assert_eq!(
        failed_log("exit status: 1", " \n"),
        "Failed to load remote task log: exit status: 1"
    );
    assert_eq!(log_args("t"), vec!["agent-task", "view", "t", "--log"]);
}

#[test]
fn how_reading_a_log_went() {
    assert_eq!(
        load_remote_task_log(&LogRun::NotStarted),
        "Failed to run `gh agent-task view --log`."
    );
    assert_eq!(load_remote_task_log(&LogRun::NotRead), "Failed to read remote task log.");
    assert_eq!(load_remote_task_log(&LogRun::NotEnded), "Failed to load remote task log.");
    let ended = |output: &[u8], truncated, success| LogRun::Ended {
        output: output.to_vec(),
        truncated,
        success,
        status: "exit status: 2".to_owned(),
        errors: "bad".to_owned(),
    };
    assert_eq!(load_remote_task_log(&ended(b"all \xff good", false, true)), "all \u{fffd} good");
    assert_eq!(
        load_remote_task_log(&ended(b"x", false, false)),
        "Failed to load remote task log: bad"
    );
    assert_eq!(
        load_remote_task_log(&ended(b"x", true, false)),
        "x\n… (log preview truncated)"
    );
}

#[test]
fn workspace_files() {
    let session = workspace(
        "id: 12345678-90ab\ncwd: /tmp/example\nbranch: feature\nuser_named: true\nid : last\nno colon\n",
    );
    assert_eq!(session.id, "last");
    assert_eq!(session.cwd, "/tmp/example");
    assert_eq!(session.branch.as_deref(), Some("feature"));
    assert!(session.user_named);
    assert_eq!(session.summary, None);
    assert_eq!(session.created_at, NOW);
    assert_eq!(session.display_name(), "feature");
    assert_eq!(parse_workspace_yaml("cwd: /tmp\n", NOW), None);
    let dated = workspace("id: a\ncreated_at: 1970-01-01T01:00:00+01:00\nupdated_at: bad\n");
    assert_eq!(dated.created_at, Timestamp { secs: 0, nanos: 0 });
    assert_eq!(dated.updated_at, dated.created_at);
}

#[test]
fn names_of_sessions() {
    assert_eq!(workspace("id: 12345678-90ab\ncwd: /tmp/x").display_name(), "x");
    assert_eq!(workspace("id: 12345678-90ab\ncwd: /").display_name(), "12345678");
    assert_eq!(workspace("id: short\ncwd: /").known_name(), None);
    assert_eq!(
        workspace("id: short\ncwd: /tmp/x").known_name(),
        Some("x".to_owned())
    );
    let titled = workspace("id: a\ntitle: T\nsummary: S\nbranch: b");
    assert_eq!(titled.display_name(), "T");
}

#[test]
fn workspace_title_outweighs_the_recorded_summary() {
    let session = enrich(
        workspace("id: a\ntitle: Workspace Title\nsummary: Workspace Summary"),
        Some("Database Summary".to_owned()),
        Some(" \n".to_owned()),
        SessionStatus::Running,
    );
    assert_eq!(session.display_name(), "Workspace Title");
    assert_eq!(session.last_agent_message, None);
    assert_eq!(session.status, SessionStatus::Running);
    let bare = enrich(
        workspace("id: a"),
        Some("Database Summary".to_owned()),
        Some("said".to_owned()),
        SessionStatus::Idle,
    );
    assert_eq!(bare.display_name(), "Database Summary");
    assert_eq!(bare.last_agent_message.as_deref(), Some("said"));
    let none = enrich(workspace("id: a"), Some(String::new()), None, SessionStatus::Idle);
    assert_eq!(none.summary, None);
}

#[test]
fn sessions_of_the_last_week_are_listed_newest_first() {
    let at = |id: &str, secs: i64| {
        let mut session = workspace(&format!("id: {id}"));
        session.updated_at = Timestamp { secs, nanos: 5 };
        session
    };
    let week = 7 * 24 * 60 * 60;
    assert!(recent_session(at("a", NOW.secs - week), NOW).is_some());
    assert!(recent_session(at("a", NOW.secs - week - 1), NOW).is_none());
    let listed = load_sessions(
        vec![at("a", 10), at("b", 30), at("c", 10)],
        vec![at("d", 20), at("e", 30)],
    );
    let ids: Vec<&str> = listed.iter().map(|session| session.id.as_str()).collect();
    assert_eq!(ids, vec!["b", "e", "d", "a", "c"]);
}

#[test]
fn statuses_are_refreshed_for_local_sessions() {
    let mut remote = workspace("id: r");
    remote.source = SessionSource::Remote;
    let mut sessions = vec![workspace("id: a"), remote];
    refresh_session_statuses(
        &mut sessions,
        &vec![SessionStatus::Running, SessionStatus::Running],
    );
    assert_eq!(sessions[0].status, SessionStatus::Running);
    assert_eq!(sessions[1].status, SessionStatus::Idle);
}

#[test]
fn what_a_session_is_doing() {
    let active = active_tmux_session_names(true, b"ghpilot_one\nother\nghpilot_two\n");
    assert!(active.contains("ghpilot_one") && active.contains("ghpilot_two"));
    assert!(!active.contains("other"));
    assert!(active_tmux_session_names(false, b"ghpilot_one\n").is_empty());
    let turn = |message: &str, response: Option<&str>| {
        Some(LatestTurn {
            user_message: Some(message.to_owned()),
            assistant_response: response.map(|text| text.to_owned()),
        })
    };
    let status = |id: &str, events, latest: &Option<LatestTurn>, active: &TextSet| {
        detect_session_status(id, 0, active, events, latest)
    };
    let asked = turn("do it", None);
    assert_eq!(status("three", Some(SessionStatus::Error), &asked, &active), SessionStatus::Idle);
    assert_eq!(status("one", Some(SessionStatus::Error), &asked, &active), SessionStatus::Error);
    assert_eq!(status("one", None, &asked, &active), SessionStatus::Running);
    assert_eq!(status("one", None, &None, &active), SessionStatus::Waiting);
    assert_eq!(status("one", None, &turn("do it", Some("done")), &active), SessionStatus::Waiting);
    assert_eq!(
        status("one", None, &turn("do it", Some("Fatal ERROR: no")), &active),
        SessionStatus::Error
    );
    assert!(is_awaiting_response("x", &Some(" ".to_owned())));
    assert!(!is_awaiting_response(" ", &None));
    assert!(response_indicates_error("thread panic: x"));
    assert!(!response_indicates_error("fine"));
}

#[test]
fn places_of_copilot() {
    assert_eq!(copilot_dir(Some("/home/me")), "/home/me/.copilot");
    assert_eq!(copilot_dir(None), "./.copilot");
    assert_eq!(session_state_dir("/c"), "/c/session-state");
    assert_eq!(session_db_path("/c"), "/c/session-store.db");
    assert_eq!(event_log_path("/c", "id"), "/c/session-state/id/events.jsonl");
    assert_eq!(
        copilot_binary("/home/me"),
        "/home/me/.local/share/gh/copilot/copilot"
    );
    assert_eq!(
        which_in_path("/bin:/usr/bin:", path_separator(false), "copilot"),
        vec!["/bin/copilot", "/usr/bin/copilot", "copilot"]
    );
    assert_eq!(
        which_in_path("C:/bin;D:/tools", path_separator(true), "copilot"),
        vec!["C:/bin/copilot", "D:/tools/copilot"]
    );
}

#[test]
fn words_for_statuses() {
    assert_eq!(SessionStatus::Running.label(), "Running");
    assert_eq!(SessionStatus::Waiting.label(), "Waiting");
    assert_eq!(SessionStatus::Idle.label(), "Idle");
    assert_eq!(SessionStatus::Error.label(), "Error");
}
