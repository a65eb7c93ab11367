use gh_pilot::app::{run, App, AppOptions, Effect, InputMode, Outcome, HELP_LINES};
use gh_pilot::groups::{SessionFilter, TreeRow};
use gh_pilot::keys::{Key, Wheel};
use gh_pilot::remote::{RemoteLoadState, RemoteSession};
use gh_pilot::schedule::Schedule;
use gh_pilot::status::SessionStatus;
use gh_pilot::tables::{TextMap, TextSet};
use gh_pilot::tmux::{LaunchKind, ManagedSession};
use gh_pilot::view::{
    empty_message, footer_text, format_age, header_lines, loading_frame, loading_icon,
    preview_lines, session_items, shortcut_help_area, shortcut_help_lines, Area,
};

fn managed(name: &str, dir: &str, status: SessionStatus) -> ManagedSession {
    ManagedSession {
        name: name.to_owned(),
        display_name: format!("session {name}"),
        project_dir: dir.to_owned(),
        is_current_project: false,
        is_remote: false,
        status,
        last_activity: None,
        has_bell: false,
        pane_dead: false,
    }
}

fn task(id: &str, dir: &str) -> RemoteSession {
    RemoteSession {
        id: id.to_owned(),
        display_name: format!("task {id}"),
        project_dir: dir.to_owned(),
        repository: Some("o/r".to_owned()),
        status: SessionStatus::Busy,
        state: "running".to_owned(),
        updated_at: None,
        url: Some("https://x".to_owned()),
        pr_url: None,
    }
}

fn app(sessions: Vec<ManagedSession>, remote: Vec<RemoteSession>) -> App {
    App::new(
        "/p".to_owned(),
        false,
        sessions,
        remote,
        vec!["/q".to_owned()],
        TextSet::new(),
        TextMap::new(),
    )
}

fn line_texts(lines: &[gh_pilot::style::Line]) -> Vec<String> {
    lines
        .iter()
        .map(|line| line.spans.iter().map(|span| span.text.as_str()).collect())
        .collect()
}

#[test]
fn the_program_starts_with_what_was_known() {
    let empty = app(vec![], vec![]);
    assert_eq!(empty.remote_state, RemoteLoadState::NotStarted);
    assert_eq!(empty.tracked_project_dirs(), vec!["/p", "/q"]);
    let known = app(vec![], vec![task("t", "/p")]);
    assert_eq!(known.remote_state, RemoteLoadState::Loaded);
    assert_eq!(
        run(&AppOptions {
            connect: Some("id".to_owned()),
            remote_enabled: true,
        }),
        Some(LaunchKind::Connect {
            id: "id".to_owned(),
            remote_enabled: true,
        })
    );
    assert_eq!(
        run(&AppOptions {
            connect: None,
            remote_enabled: true,
        }),
        None
    );
}

#[test]
fn the_selection_stays_in_the_tree() {
    let mut app = app(vec![managed("a", "/p", SessionStatus::Busy)], vec![]);
    let rows = app.tree_rows().len();
    for _ in 0..rows + 3 {
        assert_eq!(app.on_key(Key::Down, false, None), Effect::Nothing);
    }
    assert_eq!(app.selected_row, rows - 1);
    for _ in 0..rows + 3 {
        app.on_key(Key::Char('k'), false, None);
    }
    assert_eq!(app.selected_row, 0);
    app.selected_row = 1000;
    app.clamp_selection();
    assert_eq!(app.selected_row, rows - 1);
}

#[test]
fn projects_collapse_and_expand() {
    let mut app = app(vec![managed("a", "/p", SessionStatus::Busy)], vec![]);
    let rows = app.tree_rows().len();
    assert!(matches!(app.selected_tree_row(), Some(TreeRow::Group { .. })));
    app.on_key(Key::Left, false, None);
    assert!(app.tree_rows().len() < rows);
    app.on_key(Key::Right, false, None);
    assert_eq!(app.tree_rows().len(), rows);
    app.on_key(Key::Enter, false, None);
    app.on_key(Key::Enter, false, None);
    assert_eq!(app.tree_rows().len(), rows);
}

#[test]
fn tab_cycles_the_filters() {
    let mut app = app(vec![], vec![]);
    app.on_key(Key::Tab, false, None);
    assert_eq!(app.active_filter, SessionFilter::Waiting);
    app.on_key(Key::Tab, true, None);
    assert_eq!(app.active_filter, SessionFilter::All);
    app.on_key(Key::BackTab, false, None);
    assert_eq!(app.active_filter, SessionFilter::Remote);
}

#[test]
fn keys_that_end_or_ask() {
    let mut app = app(vec![managed("a", "/p", SessionStatus::Busy)], vec![]);
    assert_eq!(app.on_key(Key::Char('q'), false, None), Effect::Quit);
    assert_eq!(app.on_key(Key::Esc, false, None), Effect::Quit);
    assert_eq!(app.on_key(Key::Char('r'), false, None), Effect::Refresh);
    assert_eq!(app.on_key(Key::Char('X'), false, None), Effect::Nothing);
    assert!(app.confirm_close_all);
    app.on_key(Key::Char('n'), false, None);
    assert!(!app.confirm_close_all);
    assert_eq!(app.message, "close all cancelled");
    app.on_key(Key::Char('X'), false, None);
    assert_eq!(
        app.on_key(Key::Char('y'), false, None),
        Effect::CloseAll {
            names: vec!["a".to_owned()]
        }
    );
    app.all_closed(1);
    assert_eq!(app.message, "closed 1 managed session(s)");
}

#[test]
fn new_sessions_start_in_the_selected_project() {
    let mut app = app(vec![], vec![]);
    assert_eq!(
        app.on_key(Key::Char('n'), false, None),
        Effect::NewSession {
            path: "/p".to_owned(),
            remote_enabled: false,
        }
    );
    app.session_created(&managed("x", "/p", SessionStatus::Busy), false);
    assert_eq!(app.take_pending(), Some("x".to_owned()));
    assert_eq!(app.take_pending(), None);
}

#[test]
fn a_directory_is_typed_in() {
    let mut app = app(vec![], vec![]);
    app.on_key(Key::Char('P'), false, None);
    assert!(matches!(app.input_mode, Some(InputMode::NewProjectDirectory { .. })));
    for key in ["/", "x", "q"] {
        app.on_key(Key::Char(key.chars().next().unwrap()), false, None);
    }
    app.on_key(Key::Backspace, false, None);
    assert_eq!(
        app.on_key(Key::Enter, false, None),
        Effect::AddProject {
            path: "/x".to_owned()
        }
    );
    app.project_added("/x", "x".to_owned());
    assert_eq!(app.message, "added project x");
}

#[test]
fn typing_can_be_cancelled_and_completed() {
    let mut app = app(vec![], vec![]);
    app.on_key(Key::Char('N'), false, None);
    app.on_key(Key::Esc, false, None);
    assert_eq!(app.input_mode, None);
    app.on_key(Key::Char('P'), false, None);
    app.on_key(Key::Char('/'), false, None);
    app.on_key(Key::Tab, false, None);
    match &app.input_mode {
        Some(InputMode::NewProjectDirectory { buffer, .. }) => assert_eq!(buffer, "/q"),
        _ => panic!("still typing"),
    }
}

#[test]
fn sessions_are_opened_and_closed() {
    let mut app = app(vec![managed("a", "/p", SessionStatus::Busy)], vec![]);
    let place = app
        .tree_rows()
        .iter()
        .position(|row| matches!(row, TreeRow::LocalSession { .. }))
        .unwrap();
    app.selected_row = place;
    assert_eq!(app.on_key(Key::Char('o'), false, None), Effect::Nothing);
    assert_eq!(app.take_pending(), Some("a".to_owned()));
    assert_eq!(
        app.on_key(Key::Char('x'), false, None),
        Effect::CloseSession {
            name: "a".to_owned(),
            display_name: "session a".to_owned(),
        }
    );
    app.session_left(None, None);
    assert_eq!(app.message, "returned from tmux");
    app.session_left(None, Some("no".to_owned()));
    assert_eq!(app.message, "returned from tmux; could not mark seen: no");
}

#[test]
fn removed_projects_are_forgotten() {
    let mut app = app(vec![managed("a", "/p", SessionStatus::Busy)], vec![task("t", "/p")]);
    let effect = app.on_key(Key::Char('d'), false, None);
    match effect {
        Effect::RemoveProject { path, names, .. } => {
            assert_eq!(path, "/p");
            assert_eq!(names, vec!["a".to_owned()]);
        }
        _ => panic!("a project is selected"),
    }
}

#[test]
fn remote_tasks_are_opened() {
    let mut app = app(vec![], vec![task("t", "/p")]);
    let place = app
        .tree_rows()
        .iter()
        .position(|row| matches!(row, TreeRow::RemoteSession { .. }))
        .unwrap();
    app.selected_row = place;
    assert_eq!(
        app.on_key(Key::Enter, false, None),
        Effect::OpenRemote {
            id: "t".to_owned(),
            display_name: "task t".to_owned(),
        }
    );
    assert_eq!(
        app.on_key(Key::Char('w'), false, None),
        Effect::OpenUrl {
            id: "t".to_owned(),
            display_name: "task t".to_owned(),
            url: Some("https://x".to_owned()),
        }
    );
    assert_eq!(app.on_key(Key::Char('p'), false, None), Effect::Nothing);
    app.url_opened("task t", Outcome::Exited("exit status: 1".to_owned()));
    assert_eq!(app.message, "remote browser opener exited with exit status: 1");
    app.pull_request_opened("task t", Outcome::Done);
    assert_eq!(app.message, "opened pull request for task t");
}

#[test]
fn remote_lists_are_taken_in() {
    let mut app = app(vec![], vec![]);
    let asked = app.start_remote_load().unwrap();
    assert_eq!(asked, vec!["/p", "/q"]);
    assert_eq!(app.start_remote_load(), None);
    assert_eq!(app.remote_state, RemoteLoadState::Loading);
    let updates = app.remote_load_finished(Ok(vec![task("t", "/q"), task("u", "/gone")]));
    assert_eq!(updates.len(), 2);
    assert_eq!(app.remote_sessions.len(), 1);
    assert_eq!(app.remote_state, RemoteLoadState::Loaded);
    app.start_remote_load();
    app.remote_load_finished(Err("offline".to_owned()));
    assert_eq!(app.remote_state, RemoteLoadState::Failed("offline".to_owned()));
    assert_eq!(app.remote_sessions.len(), 1);
}

#[test]
fn the_list_of_shortcuts_scrolls() {
    let mut app = app(vec![], vec![]);
    app.on_key(Key::Char('?'), false, None);
    assert!(app.shortcut_help_open);
    app.on_key(Key::Char('j'), false, None);
    app.handle_shortcut_help_mouse(Wheel::Down);
    assert!(app.shortcut_help_scroll > 0);
    app.on_key(Key::Home, false, None);
    app.on_key(Key::Char('q'), false, None);
    assert!(!app.shortcut_help_open);
    assert_eq!(shortcut_help_lines().len(), HELP_LINES as usize);
    let area = shortcut_help_area(
        Area {
            x: 0,
            y: 0,
            width: 100,
            height: 40,
        },
        30,
    );
    assert_eq!((area.width, area.height, area.x, area.y), (78, 18, 11, 11));
}

#[test]
fn what_is_shown() {
    let app = app(vec![managed("a", "/p", SessionStatus::Busy)], vec![]);
    let items = session_items(&app, 40, 0);
    assert_eq!(items.len(), app.tree_rows().len());
    assert!(line_texts(&items).iter().any(|line| line.contains("session a")));
    let header = line_texts(&header_lines(&app));
    assert_eq!(header[0], "gh pilot");
    assert!(header[1].contains("All"));
    assert!(footer_text(&app, 200).contains("q quit"));
    assert!(footer_text(&app, 10).chars().count() <= 10);
    assert!(!preview_lines(&app, 0, 0).is_empty());
    assert_eq!(
        empty_message(SessionFilter::Busy),
        "No busy sessions.\n\nPress Tab to change filters or n to start Copilot."
    );
    assert_eq!(loading_icon(11), loading_icon(1));
    assert_eq!(loading_frame(800), 10);
}

#[test]
fn ages_in_words() {
    let second = 1_000_000_000;
    assert_eq!(format_age(None, 10 * second), "-");
    assert_eq!(format_age(Some(5 * second), 10 * second), "5s");
    assert_eq!(format_age(Some(10 * second), 5 * second), "0s");
    assert_eq!(format_age(Some(0), 120 * second), "2m");
    assert_eq!(format_age(Some(0), 7_200 * second), "2h");
    assert_eq!(format_age(Some(0), 172_800 * second), "2d");
}

#[test]
fn lists_are_read_again_in_time() {
    let mut schedule = Schedule::new(100);
    assert!(schedule.refresh_due(2_000_000_000));
    assert!(!schedule.remote_refresh_due(60_000_000_099));
    assert!(schedule.remote_refresh_due(60_000_000_100));
    schedule.refreshed(2_000_000_000);
    assert!(!schedule.refresh_due(3_999_999_999));
    assert!(schedule.refresh_due(4_000_000_000));
    assert!(!schedule.refresh_due(5));
    schedule.remote_refreshed(60_000_000_100);
    assert!(!schedule.remote_refresh_due(60_000_000_200));
}
