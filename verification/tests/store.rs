use gh_pilot::remote::RemoteSession;
use gh_pilot::status::SessionStatus;
use gh_pilot::store::{
    ensure_column, load_local, load_recent_paths, load_remote, load_removed_projects,
    record_recent_path, remove_project, replace_local, replace_remote, restore_project,
    session_from_row, system_time_from_unix, table_info, task_from_row, unix_from_system_time,
    LocalRow, RemoteRow, SqlValue, SCHEMA,
};
use gh_pilot::tmux::ManagedSession;

fn session() -> ManagedSession {
    ManagedSession {
        name: "n".to_owned(),
        display_name: "d".to_owned(),
        project_dir: "/p".to_owned(),
        is_current_project: true,
        is_remote: false,
        status: SessionStatus::Busy,
        last_activity: Some(5_600_000_000),
        has_bell: true,
        pane_dead: false,
    }
}

fn remote() -> RemoteSession {
    RemoteSession {
        id: "i".to_owned(),
        display_name: "d".to_owned(),
        project_dir: "/p".to_owned(),
        repository: Some("o/r".to_owned()),
        status: SessionStatus::Waiting,
        state: "queued".to_owned(),
        updated_at: None,
        url: None,
        pr_url: Some("u".to_owned()),
    }
}

fn text(value: &SqlValue) -> String {
    match value {
        SqlValue::Text(text) => text.clone(),
        _ => panic!("no text"),
    }
}

fn number(value: &SqlValue) -> Option<i64> {
    match value {
        SqlValue::Integer(number) => Some(*number),
        _ => None,
    }
}

#[test]
fn a_session_that_is_written_and_read_comes_back() {
    let statements = replace_local(&vec![session()], 99);
    assert_eq!(statements.len(), 2);
    assert_eq!(statements[0].sql, "DELETE FROM local_sessions");
    let row = &statements[1].params;
    assert_eq!(row.len(), 9);
    let read = session_from_row(
        LocalRow {
            name: text(&row[0]),
            display_name: text(&row[1]),
            project_dir: text(&row[2]),
            status: text(&row[3]),
            last_activity: number(&row[5]),
            has_bell: number(&row[6]).unwrap(),
            pane_dead: number(&row[7]).unwrap(),
        },
        true,
    );
    let mut expected = session();
    expected.last_activity = Some(5_000_000_000);
    assert_eq!(read, expected);
    assert_eq!(row[8], SqlValue::Integer(99));
}

#[test]
fn a_task_that_is_written_and_read_comes_back() {
    let statements = replace_remote("/p", &vec![remote().cache_entry()], 99);
    assert_eq!(statements[0].params, vec![SqlValue::Text("/p".to_owned())]);
    let row = &statements[1].params;
    let optional = |value: &SqlValue| match value {
        SqlValue::Text(text) => Some(text.clone()),
        _ => None,
    };
    assert_eq!(text(&row[0]), "i");
    let read = task_from_row(RemoteRow {
        id: text(&row[0]),
        display_name: "d".to_owned(),
        project_dir: "/p".to_owned(),
        repository: Some("o/r".to_owned()),
        status: "waiting".to_owned(),
        state: "queued".to_owned(),
        updated_at: None,
        url: None,
        pr_url: optional(&row[9]),
    });
    assert_eq!(RemoteSession::from(read), remote());
}

#[test]
fn a_list_that_is_written_and_read_comes_back() {
    let mut other = session();
    other.name = "m".to_owned();
    other.status = SessionStatus::Idle;
    other.last_activity = None;
    other.has_bell = false;
    let statements = replace_local(&vec![session(), other], 99);
    let read: Vec<ManagedSession> = statements[1..]
        .iter()
        .map(|statement| &statement.params)
        .map(|row| {
            session_from_row(
                LocalRow {
                    name: text(&row[0]),
                    display_name: text(&row[1]),
                    project_dir: text(&row[2]),
                    status: text(&row[3]),
                    last_activity: number(&row[5]),
                    has_bell: number(&row[6]).unwrap(),
                    pane_dead: number(&row[7]).unwrap(),
                },
                false,
            )
        })
        .collect();
    assert_eq!(read.len(), 2);
    assert_eq!(read[0].name, "n");
    assert_eq!(read[0].last_activity, Some(5_000_000_000));
    assert_eq!(read[1].name, "m");
    assert_eq!(read[1].status, SessionStatus::Idle);
    assert_eq!(read[1].last_activity, None);
    assert!(!read[1].has_bell);
    assert!(!read[0].is_current_project);
    assert_eq!(statements[1].params[4], SqlValue::Integer(2));
    assert_eq!(statements[2].params[4], SqlValue::Integer(3));
}

#[test]
fn tasks_are_written_in_order_for_their_project() {
    let mut other = remote().cache_entry();
    other.id = "j".to_owned();
    other.repository = None;
    let statements = replace_remote("/p", &vec![remote().cache_entry(), other], 99);
    assert_eq!(statements.len(), 3);
    assert_eq!(text(&statements[1].params[0]), "i");
    assert_eq!(text(&statements[2].params[0]), "j");
    assert_eq!(text(&statements[1].params[1]), "/p");
    assert_eq!(statements[1].params[3], SqlValue::Text("o/r".to_owned()));
    assert_eq!(statements[2].params[3], SqlValue::Null);
    assert!(load_remote("/p").sql.contains("repository IS NOT NULL"));
}

#[test]
fn times_are_kept_in_seconds() {
    assert_eq!(unix_from_system_time(5_600_000_000), Some(5));
    assert_eq!(unix_from_system_time(u128::MAX), None);
    assert_eq!(system_time_from_unix(5), Some(5_000_000_000));
    assert_eq!(system_time_from_unix(-1), None);
}

#[test]
fn statements_of_the_cache() {
    assert!(load_local().params.is_empty());
    assert_eq!(load_remote("/p").params, vec![SqlValue::Text("/p".to_owned())]);
    assert_eq!(load_recent_paths(20).params, vec![SqlValue::Integer(20)]);
    assert!(load_removed_projects().sql.starts_with("SELECT path"));
    assert_eq!(record_recent_path("/p", 20, 7).len(), 3);
    assert_eq!(remove_project("/p", 7).len(), 3);
    assert_eq!(
        restore_project("/p").sql,
        "DELETE FROM removed_projects WHERE path = ?1"
    );
    assert_eq!(SCHEMA.matches("CREATE TABLE IF NOT EXISTS").count(), 4);
    assert_eq!(table_info("remote_sessions"), "PRAGMA table_info(remote_sessions)");
    let columns = vec!["id".to_owned()];
    assert_eq!(ensure_column("t", "id", "TEXT", &columns), None);
    assert_eq!(
        ensure_column("t", "pr_url", "TEXT", &columns),
        Some("ALTER TABLE t ADD COLUMN pr_url TEXT".to_owned())
    );
}
