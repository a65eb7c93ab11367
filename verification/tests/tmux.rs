use gh_pilot::status::SessionStatus;
use gh_pilot::tmux::{
    after_attempt, after_run, attach_session, candidate_name, capture_pane, check_output,
    create_session, display_name, exists_args, inspect_window, kill_session, kill_sessions, list_args, list_sessions,
    listed_sessions, mark_seen, read_listing, sanitize_title, session_display_name, slugify,
    validate_session_id, window_info, LaunchError, LaunchKind, ListedSession, NameStep, NextRun,
    Probe, StatusCache, Step, WindowInfo,
};

fn texts(items: &[&str]) -> Vec<String> {
    items.iter().map(|item| item.to_string()).collect()
}

fn probe(name: &str, content: &str, last_activity: Option<u128>) -> Probe {
    Probe {
        listed: ListedSession {
            name: name.to_owned(),
            project: Some("/tmp/p".to_owned()),
            last_seen: None,
        },
        window: WindowInfo {
            last_activity,
            pane_dead: false,
            has_bell: false,
            current_path: None,
            title: None,
        },
        content: content.to_owned(),
        is_current: false,
    }
}

#[test]
fn slugifies_project_names() {
    assert_eq!(slugify("My Project.rs"), "my-project-rs");
}

#[test]
fn slugs_have_no_outer_or_double_hyphens() {
    assert_eq!(slugify("--A  b__C!!"), "a-b-c");
    assert_eq!(slugify("???"), "");
    assert_eq!(slugify("été"), "t");
}

#[test]
fn validates_remote_ids() {
    assert!(validate_session_id("abc-123_def:ghi.jkl").is_ok());
    assert!(validate_session_id("abc;rm").is_err());
}

#[test]
fn ids_that_no_session_has() {
    assert_eq!(validate_session_id(""), Err(LaunchError::EmptyId));
    assert_eq!(validate_session_id("a b"), Err(LaunchError::UnsupportedId));
    assert_eq!(validate_session_id("é"), Err(LaunchError::UnsupportedId));
    assert_eq!(LaunchError::EmptyId.message(), "remote session id cannot be empty");
    assert_eq!(
        LaunchError::UnsupportedId.message(),
        "remote session id contains unsupported characters"
    );
}

#[test]
fn connects_remote_tasks_with_direct_resume() {
    let command = LaunchKind::Connect {
        id: "85320a43-6021-40ac-bb41-d8f1ab2b9372".to_owned(),
        remote_enabled: false,
    }
    .command()
    .unwrap();

    assert_eq!(
        command,
        "exec copilot --resume=85320a43-6021-40ac-bb41-d8f1ab2b9372"
    );
}

#[test]
fn a_bad_id_is_never_launched() {
    let launch = LaunchKind::Connect {
        id: "a;b".to_owned(),
        remote_enabled: true,
    };
    assert_eq!(launch.command(), Err(LaunchError::UnsupportedId));
    assert_eq!(
        create_session("gh-pilot__a__1__1", "/tmp/a", &launch, 1, 1, 1),
        Err(LaunchError::UnsupportedId)
    );
}

#[test]
fn new_sessions_are_set_up_step_by_step() {
    let launch = LaunchKind::Local {
        remote_enabled: false,
    };
    let plan = create_session("gh-pilot__a__1__1", "/tmp/a", &launch, 7, 8, 9).unwrap();
    assert_eq!(plan.steps.len(), 10);
    assert_eq!(
        plan.steps[0].args,
        texts(&[
            "new-session",
            "-d",
            "-s",
            "gh-pilot__a__1__1",
            "-c",
            "/tmp/a",
            &launch.command().unwrap(),
        ])
    );
    assert_eq!(
        plan.steps[2].args,
        texts(&["set-option", "-q", "-t", "gh-pilot__a__1__1", "@gh-pilot-created", "7"])
    );
    assert_eq!(plan.session.project_dir, "/tmp/a");
    assert_eq!(plan.session.last_activity, Some(9));
    assert_eq!(plan.session.status, SessionStatus::Busy);
    assert!(plan.session.is_current_project);
}

#[test]
fn names_of_sessions_tell_their_project() {
    let name = candidate_name("/tmp/My Project", 100, 20, 3);
    assert_eq!(name, "gh-pilot__my-project__100__23");
    assert_eq!(display_name(&name), "my project");
    assert_eq!(session_display_name(&name, Some("Fix the bug")), "Fix the bug");
    assert_eq!(session_display_name(&name, None), "my project");
}

#[test]
fn names_are_tried_until_one_is_free() {
    assert_eq!(after_attempt(0, false), NameStep::Take);
    assert_eq!(after_attempt(0, true), NameStep::Try(1));
    assert_eq!(after_attempt(99, false), NameStep::Take);
    assert_eq!(after_attempt(99, true), NameStep::GiveUp);
}

#[test]
fn titles_are_cleaned() {
    assert_eq!(sanitize_title("  Fix\u{7} it "), Some("Fix it".to_owned()));
    assert_eq!(sanitize_title(" \u{1b} "), None);
}

#[test]
fn the_list_of_sessions_is_read() {
    let found = listed_sessions(
        "gh-pilot__a__1__1\t/tmp/a\t5\t6\nother\t/tmp/b\t5\t6\ngh-pilot__b__1__2\n",
    );
    assert_eq!(found.len(), 2);
    assert_eq!(found[0].project.as_deref(), Some("/tmp/a"));
    assert_eq!(found[0].last_seen, Some(6_000_000_000));
    assert_eq!(found[1].project, None);
    assert_eq!(read_listing(true, b"other\n", b""), Ok(vec![]));
    assert_eq!(
        read_listing(false, b"", b"no server running on /tmp/x\n"),
        Ok(vec![])
    );
    assert_eq!(
        read_listing(false, b"", b"broken\n"),
        Err("tmux list-sessions failed: broken".to_owned())
    );
}

#[test]
fn windows_are_read() {
    let info = window_info("12\t1\t/tmp/x\t*!\tTitle\n");
    assert_eq!(info.last_activity, Some(12_000_000_000));
    assert!(info.pane_dead && info.has_bell);
    assert_eq!(info.current_path.as_deref(), Some("/tmp/x"));
    assert_eq!(info.title.as_deref(), Some("Title"));
    assert_eq!(window_info(""), WindowInfo::default());
}

#[test]
fn outputs_are_checked() {
    assert_eq!(check_output(true, b"x\xff", b"", "t"), Ok("x\u{fffd}".to_owned()));
    assert_eq!(
        check_output(false, b"", b" no \n", "tmux kill-session"),
        Err("tmux kill-session failed: no".to_owned())
    );
}

#[test]
fn commands_of_tmux() {
    assert_eq!(attach_session("s"), texts(&["attach-session", "-t", "s"]));
    assert_eq!(exists_args("s"), texts(&["has-session", "-t", "s"]));
    assert_eq!(kill_session("s").args, texts(&["kill-session", "-t", "s"]));
    assert_eq!(kill_sessions(&texts(&["a", "b"])).len(), 2);
    assert_eq!(list_args()[0], "list-sessions");
    assert_eq!(capture_pane("s").args[0], "capture-pane");
    assert_eq!(inspect_window("s").args[0], "display-message");
    let seen = mark_seen("s", Some(5_900_000_000), 9_000_000_000);
    assert_eq!(seen.args.last().map(|word| word.as_str()), Some("5"));
    let unseen = mark_seen("s", None, 9_000_000_000);
    assert_eq!(unseen.args.last().map(|word| word.as_str()), Some("9"));
}

#[test]
fn sessions_that_changed_are_busy_and_come_in_order() {
    let mut cache = StatusCache::default();
    let now = 1_000_000_000_000;
    let first = list_sessions(
        &vec![
            probe("gh-pilot__a__1__1", "What would you like to do?\n❯", None),
            probe("gh-pilot__b__1__1", "summary output", None),
        ],
        &mut cache,
        now,
    );
    assert_eq!(first[0].name, "gh-pilot__a__1__1");
    assert_eq!(first[0].status, SessionStatus::Waiting);
    assert_eq!(first[1].status, SessionStatus::Idle);
    let second = list_sessions(
        &vec![probe("gh-pilot__b__1__1", "summary output, changed", None)],
        &mut cache,
        now,
    );
    assert_eq!(second[0].status, SessionStatus::Busy);
    cache.remove("gh-pilot__b__1__1");
    let third = list_sessions(
        &vec![probe("gh-pilot__b__1__1", "summary output", None)],
        &mut cache,
        now,
    );
    assert_eq!(third[0].status, SessionStatus::Idle);
    assert_eq!(third[0].project_dir, "/tmp/p");
}

fn make_all(steps: &[Step], fails: &[usize]) -> (Vec<String>, Result<(), usize>) {
    let mut names = Vec::new();
    let mut last = Ok(());
    loop {
        match after_run(names.len(), steps.len(), last) {
            NextRun::Make(place) => {
                assert_eq!(place, names.len());
                names.push(steps[place].args[2].clone());
                last = if fails.contains(&place) { Err(place) } else { Ok(()) };
            }
            NextRun::Failed(place) => return (names, Err(place)),
            NextRun::Done => return (names, Ok(())),
        }
    }
}

#[test]
fn killing_stops_at_the_first_failure() {
    let names = vec!["a".to_owned(), "b".to_owned(), "c".to_owned()];
    let steps = kill_sessions(&names);
    assert_eq!(make_all(&steps, &[]), (names.clone(), Ok(())));
    assert_eq!(make_all(&steps, &[1, 2]), (names[..2].to_vec(), Err(1)));
    assert_eq!(make_all(&steps, &[2]), (names.clone(), Err(2)));
    assert_eq!(make_all(&kill_sessions(&Vec::new()), &[0]), (Vec::new(), Ok(())));
}
