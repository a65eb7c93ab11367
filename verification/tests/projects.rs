use gh_pilot::groups::{project_groups, tree_rows, PlaceholderKind, SessionFilter, TreeRow};
use gh_pilot::json::{Json, JsonField};
use gh_pilot::paths::{
    database_path, expand_home_path, fallback_project_label, file_name_of, join_path,
    parse_github_remote, prompt_path, relative_to, resolve_project_dir, usable_dir, PathError,
};
use gh_pilot::projects::{
    complete_path_input, github_repo_from_remote, project_label, recent_path_matches,
    tracked_project_dirs,
};
use gh_pilot::remote::{
    matching_task_repository, parse_rfc3339_utc_millis, remote_status, RemoteLoadState,
    RemoteSession,
};
use gh_pilot::status::SessionStatus;
use gh_pilot::tables::{TextMap, TextSet};
use gh_pilot::tmux::ManagedSession;

fn texts(items: &[&str]) -> Vec<String> {
    items.iter().map(|item| item.to_string()).collect()
}

fn object(fields: Vec<(&str, Json)>) -> Json {
    Json::Object(
        fields
            .into_iter()
            .map(|(key, value)| JsonField {
                key: key.to_owned(),
                value,
            })
            .collect(),
    )
}

fn text(value: &str) -> Json {
    Json::Text(value.to_owned())
}

fn managed(name: &str, dir: &str, status: SessionStatus, is_remote: bool) -> ManagedSession {
    ManagedSession {
        name: name.to_owned(),
        display_name: name.to_owned(),
        project_dir: dir.to_owned(),
        is_current_project: false,
        is_remote,
        status,
        last_activity: None,
        has_bell: false,
        pane_dead: false,
    }
}

fn task(id: &str, dir: &str, status: SessionStatus) -> RemoteSession {
    RemoteSession {
        id: id.to_owned(),
        display_name: id.to_owned(),
        project_dir: dir.to_owned(),
        repository: None,
        status,
        state: "running".to_owned(),
        updated_at: None,
        url: None,
        pr_url: None,
    }
}

#[test]
fn recent_path_matches_use_prefix_order() {
    let paths = texts(&["/tmp/gh-pilot-alpha", "/tmp/gh-pilot-beta", "/tmp/other"]);

    assert_eq!(
        recent_path_matches("/tmp/gh-pilot", &paths, None),
        vec![
            "/tmp/gh-pilot-alpha".to_owned(),
            "/tmp/gh-pilot-beta".to_owned()
        ]
    );
}

#[test]
fn path_completion_cycles_recent_matches() {
    let paths = texts(&["/tmp/gh-pilot-alpha", "/tmp/gh-pilot-beta"]);
    let mut buffer = "/tmp/gh-pilot".to_owned();
    let mut completion_prefix = None;
    let mut completion_index = 0;

    complete_path_input(
        &mut buffer,
        &mut completion_prefix,
        &mut completion_index,
        &paths,
        None,
        false,
    );
    assert_eq!(buffer, "/tmp/gh-pilot-alpha");

    complete_path_input(
        &mut buffer,
        &mut completion_prefix,
        &mut completion_index,
        &paths,
        None,
        false,
    );
    assert_eq!(buffer, "/tmp/gh-pilot-beta");
}

#[test]
fn path_completion_goes_round_and_back() {
    let paths = texts(&["/tmp/a1", "/tmp/a2", "/tmp/a3", "/tmp/b"]);
    let mut buffer = "/tmp/a".to_owned();
    let mut prefix = None;
    let mut index = 0;
    let mut seen = Vec::new();
    for _ in 0..4 {
        complete_path_input(&mut buffer, &mut prefix, &mut index, &paths, None, false);
        seen.push(buffer.clone());
    }
    assert_eq!(seen, texts(&["/tmp/a1", "/tmp/a2", "/tmp/a3", "/tmp/a1"]));
    complete_path_input(&mut buffer, &mut prefix, &mut index, &paths, None, true);
    assert_eq!(buffer, "/tmp/a3");
    assert_eq!(prefix, Some("/tmp/a".to_owned()));
}

#[test]
fn path_completion_without_a_match_keeps_the_text() {
    let paths = texts(&["/tmp/a1"]);
    let mut buffer = "/var".to_owned();
    let mut prefix = None;
    let mut index = 0;
    complete_path_input(&mut buffer, &mut prefix, &mut index, &paths, None, false);
    assert_eq!(buffer, "/var");
}

#[test]
fn recent_paths_are_matched_as_a_prompt_shows_them() {
    let paths = texts(&["/home/me/work", "/home/me/work", "/home/me/play", "/home/me"]);
    assert_eq!(
        recent_path_matches("~/w", &paths, Some("/home/me")),
        texts(&["~/work"])
    );
    assert_eq!(
        recent_path_matches("", &paths, Some("/home/me")),
        texts(&["~/work", "~/play", "~"])
    );
}

#[test]
fn parses_github_remote_names() {
    assert_eq!(
        parse_github_remote("git@github.com:joshblack/gh-pilot.git"),
        Some("joshblack/gh-pilot".to_owned())
    );
    assert_eq!(
        parse_github_remote("https://github.com/primer/react.git"),
        Some("primer/react".to_owned())
    );
    assert_eq!(parse_github_remote("https://example.com/a/b.git"), None);
}

#[test]
fn github_remotes_in_other_forms() {
    assert_eq!(
        parse_github_remote("ssh://git@github.com/a/b"),
        Some("a/b".to_owned())
    );
    assert_eq!(
        parse_github_remote("http://github.com/a/b/c"),
        Some("a/b".to_owned())
    );
    assert_eq!(parse_github_remote("https://github.com/a"), None);
    assert_eq!(parse_github_remote("https://github.com//b"), None);
    assert_eq!(
        github_repo_from_remote(true, b"git@github.com:a/b.git\n"),
        Some("a/b".to_owned())
    );
    assert_eq!(github_repo_from_remote(false, b"git@github.com:a/b.git\n"), None);
}

#[test]
fn project_labels_fall_back_to_the_directory() {
    assert_eq!(project_label("/tmp/x", Some("a/b".to_owned())), "a/b");
    assert_eq!(project_label("/tmp/x", None), "x");
    assert_eq!(fallback_project_label("/"), "/");
    assert_eq!(fallback_project_label("/tmp/x/"), "x");
    assert_eq!(fallback_project_label("/tmp/.."), "/tmp/..");
}

#[test]
fn tracked_projects_include_current_and_recent_paths() {
    let current = "/tmp/current-project".to_owned();
    let recent = texts(&["/tmp/other-project"]);
    let projects = tracked_project_dirs(&current, &vec![], &vec![], &recent, &TextSet::new());

    assert_eq!(projects.len(), 2);
    assert!(projects.iter().any(|path| path == &current));
    assert!(projects.iter().any(|path| path == &recent[0]));
}

#[test]
fn tracked_projects_exclude_removed_paths() {
    let current = "/tmp/current-project".to_owned();
    let recent = texts(&["/tmp/other-project"]);
    let mut removed = TextSet::new();
    removed.insert(&current);
    let projects = tracked_project_dirs(&current, &vec![], &vec![], &recent, &removed);

    assert_eq!(projects, recent);
}

#[test]
fn tracked_projects_are_in_order_and_differ() {
    let sessions = vec![
        managed("s1", "/z", SessionStatus::Idle, false),
        managed("s2", "/b", SessionStatus::Idle, false),
    ];
    let remote = vec![task("t1", "/m", SessionStatus::Busy)];
    let projects = tracked_project_dirs(
        "/b",
        &sessions,
        &remote,
        &texts(&["/a", "/z"]),
        &TextSet::new(),
    );
    assert_eq!(projects, texts(&["/a", "/b", "/m", "/z"]));
}

#[test]
fn parses_remote_activity_timestamp() {
    assert_eq!(
        parse_rfc3339_utc_millis("1970-01-02T00:00:00Z"),
        Some(86_400_000)
    );
    assert_eq!(
        parse_rfc3339_utc_millis("2026-05-13T03:48:44.901774124Z"),
        Some(1_778_644_124_000)
    );
}

#[test]
fn remote_activity_needs_a_whole_utc_time() {
    assert_eq!(parse_rfc3339_utc_millis("1970-01-01T00:00:00Z"), Some(0));
    assert_eq!(parse_rfc3339_utc_millis("2000-02-29T00:00:00Z"), Some(951_782_400_000));
    assert_eq!(parse_rfc3339_utc_millis("1969-12-31T23:59:59Z"), None);
    assert_eq!(parse_rfc3339_utc_millis("1970-01-02T00:00:00+00:00"), None);
    assert_eq!(parse_rfc3339_utc_millis("1970-01-02"), None);
    assert_eq!(parse_rfc3339_utc_millis("1970-13-02T00:00:00Z"), None);
}

#[test]
fn remote_task_matching_filters_terminal_mirrors() {
    let terminal_mirror = object(vec![("repository", Json::Null)]);
    let repo_task = object(vec![("repository", text("joshblack/gh-pilot"))]);
    let other_repo_task = object(vec![(
        "repository",
        object(vec![("nameWithOwner", text("primer/react"))]),
    )]);

    assert!(matching_task_repository(&terminal_mirror, Some("joshblack/gh-pilot")).is_none());
    assert_eq!(
        matching_task_repository(&repo_task, Some("joshblack/gh-pilot")),
        Some("joshblack/gh-pilot".to_owned())
    );
    assert!(matching_task_repository(&other_repo_task, Some("joshblack/gh-pilot")).is_none());
    assert!(matching_task_repository(&repo_task, None).is_none());
}

#[test]
fn remote_status_detects_waiting_for_input_states() {
    assert_eq!(remote_status("waiting_for_input"), SessionStatus::Waiting);
    assert_eq!(remote_status("WAITING FOR USER"), SessionStatus::Waiting);
    assert_eq!(remote_status("requires-action"), SessionStatus::Waiting);
}

#[test]
fn remote_managed_sessions_are_grouped_under_remote_subtree() {
    let project_dir = "/tmp/current-project".to_owned();
    let sessions = vec![ManagedSession {
        name: "gh-pilot__current-project__1__1".to_owned(),
        display_name: "current project".to_owned(),
        project_dir: project_dir.clone(),
        is_current_project: true,
        is_remote: true,
        status: SessionStatus::Busy,
        last_activity: None,
        has_bell: false,
        pane_dead: false,
    }];
    let groups = project_groups(
        &sessions,
        &vec![],
        &vec![project_dir.clone()],
        &TextMap::new(),
        SessionFilter::All,
        &RemoteLoadState::Loaded,
        &project_dir,
    );
    let rows = tree_rows(&groups, &TextSet::new(), SessionFilter::All);

    assert!(matches!(
        rows.get(1),
        Some(TreeRow::Placeholder {
            kind: PlaceholderKind::LocalEmpty,
            ..
        })
    ));
    assert!(matches!(rows.get(2), Some(TreeRow::RemoteGroup { .. })));
    assert!(matches!(
        rows.get(3),
        Some(TreeRow::LocalSession {
            session_index: 0,
            is_remote: true,
            under_remote: true,
            ..
        })
    ));
    assert_eq!(groups[0].counts.local, 0);
    assert_eq!(groups[0].counts.remote, 1);
}

#[test]
fn groups_hold_their_sessions_and_count_them() {
    let sessions = vec![
        managed("a", "/p", SessionStatus::Waiting, false),
        managed("b", "/q", SessionStatus::Busy, false),
        managed("c", "/p", SessionStatus::Idle, false),
    ];
    let remote = vec![task("t", "/q", SessionStatus::Done)];
    let mut labels = TextMap::new();
    labels.insert("/p", "owner/p".to_owned());
    let groups = project_groups(
        &sessions,
        &remote,
        &texts(&["/p", "/q"]),
        &labels,
        SessionFilter::All,
        &RemoteLoadState::Loaded,
        "/q",
    );
    assert_eq!(groups.len(), 2);
    let p = groups.iter().find(|group| group.path == "/p").unwrap();
    let q = groups.iter().find(|group| group.path == "/q").unwrap();
    assert_eq!(p.display_name, "owner/p");
    assert_eq!(q.display_name, "q");
    assert!(q.is_current && !p.is_current);
    assert_eq!((p.counts.waiting, p.counts.idle, p.counts.local, p.counts.remote), (1, 1, 2, 0));
    assert_eq!((q.counts.busy, q.counts.done, q.counts.local, q.counts.remote), (1, 1, 1, 1));
}

#[test]
fn a_filter_hides_other_statuses_and_empty_projects() {
    let sessions = vec![
        managed("a", "/p", SessionStatus::Waiting, false),
        managed("b", "/q", SessionStatus::Busy, false),
    ];
    let groups = project_groups(
        &sessions,
        &vec![],
        &texts(&["/p", "/q"]),
        &TextMap::new(),
        SessionFilter::Busy,
        &RemoteLoadState::Loaded,
        "/p",
    );
    assert_eq!(groups.len(), 1);
    assert_eq!(groups[0].path, "/q");
}

#[test]
fn filters_go_round() {
    let mut filter = SessionFilter::All;
    let mut labels = Vec::new();
    for _ in 0..6 {
        labels.push(filter.label());
        assert_eq!(filter.next().previous(), filter);
        filter = filter.next();
    }
    assert_eq!(filter, SessionFilter::All);
    assert_eq!(labels, vec!["All", "Waiting", "Done", "Busy", "Idle", "Remote"]);
}

#[test]
fn paths_under_home_are_shown_with_a_tilde_and_lead_back() {
    assert_eq!(prompt_path("/home/me/a/b", Some("/home/me")), "~/a/b");
    assert_eq!(prompt_path("/home/me", Some("/home/me")), "~");
    assert_eq!(prompt_path("/home/mean", Some("/home/me")), "/home/mean");
    assert_eq!(prompt_path("/var", None), "/var");
    assert_eq!(prompt_path("/var", Some("")), "/var");
    assert_eq!(expand_home_path("~", Some("")), Err(PathError::NoHome));
    assert_eq!(
        expand_home_path("~/a/b", Some("/home/me")),
        Ok("/home/me/a/b".to_owned())
    );
    assert_eq!(expand_home_path("~", Some("/home/me")), Ok("/home/me".to_owned()));
    assert_eq!(expand_home_path("~x", Some("/home/me")), Ok("~x".to_owned()));
    assert_eq!(expand_home_path("~/a", None), Err(PathError::NoHome));
}

#[test]
fn typed_paths_are_taken_from_the_current_directory() {
    assert_eq!(
        resolve_project_dir("/work", "repo", None),
        Ok("/work/repo".to_owned())
    );
    assert_eq!(resolve_project_dir("/work", "/repo", None), Ok("/repo".to_owned()));
    assert_eq!(resolve_project_dir("/work", "", None), Err(PathError::Empty));
    assert_eq!(resolve_project_dir("/work", "~", None), Err(PathError::NoHome));
    assert_eq!(PathError::Empty.message(), "repo path cannot be empty");
    assert_eq!(PathError::NoHome.message(), "HOME is not set; cannot resolve ~");
}

#[test]
fn path_operations() {
    assert_eq!(file_name_of("/a/b.rs"), Some("b.rs".to_owned()));
    assert_eq!(file_name_of("/a/b/."), Some("b".to_owned()));
    assert_eq!(file_name_of("/"), None);
    assert_eq!(join_path("/a/", "b"), "/a/b");
    assert_eq!(join_path("", "b"), "b");
    assert_eq!(relative_to("/a//b/./c", "/a/b"), Some("c".to_owned()));
    assert_eq!(relative_to("a/b", "/a"), None);
    assert_eq!(usable_dir(Some("")), None);
}

#[test]
fn the_cache_lies_in_the_configuration_directory() {
    assert_eq!(
        database_path(Some("/cfg"), Some("/home/me")),
        Some("/cfg/gh-pilot/sessions.sqlite3".to_owned())
    );
    assert_eq!(
        database_path(None, Some("/home/me")),
        Some("/home/me/.config/gh-pilot/sessions.sqlite3".to_owned())
    );
    assert_eq!(database_path(None, None), None);
    assert_eq!(database_path(Some(""), Some("")), None);
}
