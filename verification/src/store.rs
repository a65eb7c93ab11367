//! The session cache: what is written to its tables, and what is read from them.
use crate::order::{order_is_carried_over, ordered_by, text_less, text_less_is_asymmetric};
use crate::remote::RemoteSession;
use crate::status::{
    label_names_its_status, labelled_status, ranks_tell_statuses_apart, status_label, status_rank,
    SessionStatus,
};
use crate::text::{concat, copy_opt, opt_view, views};
use crate::tmux::{session_order, ManagedSession};
use vstd::prelude::*;

verus! {

/// A remote task as the cache holds it.
#[derive(Debug, PartialEq, Eq)]
pub struct CachedRemoteSession<T = String> {
    pub id: T,
    pub display_name: T,
    pub project_dir: T,
    pub repository: Option<T>,
    pub status: SessionStatus,
    pub state: T,
    pub updated_at: Option<T>,
    pub url: Option<T>,
    pub pr_url: Option<T>,
}

impl View for CachedRemoteSession<String> {
    type V = CachedRemoteSession<Seq<char>>;

    open spec fn view(&self) -> CachedRemoteSession<Seq<char>> {
        CachedRemoteSession {
            id: self.id@,
            display_name: self.display_name@,
            project_dir: self.project_dir@,
            repository: opt_view(self.repository),
            status: self.status,
            state: self.state@,
            updated_at: opt_view(self.updated_at),
            url: opt_view(self.url),
            pr_url: opt_view(self.pr_url),
        }
    }
}

/// A remote task as the cache holds it.
pub open spec fn cached<T>(session: RemoteSession<T>) -> CachedRemoteSession<T> {
    CachedRemoteSession {
        id: session.id,
        display_name: session.display_name,
        project_dir: session.project_dir,
        repository: session.repository,
        status: session.status,
        state: session.state,
        updated_at: session.updated_at,
        url: session.url,
        pr_url: session.pr_url,
    }
}

/// A remote task from the cache.
pub open spec fn uncached<T>(session: CachedRemoteSession<T>) -> RemoteSession<T> {
    RemoteSession {
        id: session.id,
        display_name: session.display_name,
        project_dir: session.project_dir,
        repository: session.repository,
        status: session.status,
        state: session.state,
        updated_at: session.updated_at,
        url: session.url,
        pr_url: session.pr_url,
    }
}

/// Nothing of a remote task is lost in the cache.
pub proof fn caching_keeps_a_task<T>(session: RemoteSession<T>, entry: CachedRemoteSession<T>)
    ensures
        uncached(cached(session)) == session,
        cached(uncached(entry)) == entry,
{
}

impl RemoteSession<String> {
    /// The task as the cache holds it.
    pub fn cache_entry(&self) -> (out: CachedRemoteSession)
        ensures
            out == cached(*self),
            out@ == cached(self@),
    {
        CachedRemoteSession {
            id: self.id.clone(),
            display_name: self.display_name.clone(),
            project_dir: self.project_dir.clone(),
            repository: copy_opt(&self.repository),
            status: self.status,
            state: self.state.clone(),
            updated_at: copy_opt(&self.updated_at),
            url: copy_opt(&self.url),
            pr_url: copy_opt(&self.pr_url),
        }
    }
}

impl From<CachedRemoteSession<String>> for RemoteSession<String> {
    fn from(session: CachedRemoteSession<String>) -> (out: Self) {
        RemoteSession {
            id: session.id,
            display_name: session.display_name,
            project_dir: session.project_dir,
            repository: session.repository,
            status: session.status,
            state: session.state,
            updated_at: session.updated_at,
            url: session.url,
            pr_url: session.pr_url,
        }
    }
}

impl vstd::std_specs::convert::FromSpecImpl<CachedRemoteSession<String>> for RemoteSession<String> {
    open spec fn obeys_from_spec() -> bool {
        true
    }

    open spec fn from_spec(session: CachedRemoteSession<String>) -> Self {
        uncached(session)
    }
}

// ---------------------------------------------------------------------------
// Statements
// ---------------------------------------------------------------------------
/// A value of a statement.
#[derive(Debug, PartialEq, Eq)]
pub enum SqlValue<T = String> {
    Null,
    Integer(i64),
    Text(T),
}

impl View for SqlValue<String> {
    type V = SqlValue<Seq<char>>;

    open spec fn view(&self) -> SqlValue<Seq<char>> {
        match self {
            SqlValue::Null => SqlValue::Null,
            SqlValue::Integer(n) => SqlValue::Integer(*n),
            SqlValue::Text(text) => SqlValue::Text(text@),
        }
    }
}

/// A statement with the values for its places, in order.
#[derive(Debug, PartialEq, Eq)]
pub struct Statement<T = String, L = Vec<SqlValue<T>>> {
    pub sql: T,
    pub params: L,
}

/// A statement, as contracts speak of it.
pub type StatementView = Statement<Seq<char>, Seq<SqlValue<Seq<char>>>>;

impl View for Statement<String, Vec<SqlValue<String>>> {
    type V = StatementView;

    open spec fn view(&self) -> StatementView {
        Statement { sql: self.sql@, params: views(self.params@) }
    }
}

/// A statement with the values for its places.
pub open spec fn statement(sql: Seq<char>, params: Seq<SqlValue<Seq<char>>>) -> StatementView {
    Statement { sql, params }
}

/// A text that may be missing.
pub open spec fn text_or_null(text: Option<Seq<char>>) -> SqlValue<Seq<char>> {
    match text {
        Some(text) => SqlValue::Text(text),
        None => SqlValue::Null,
    }
}

/// A number that may be missing.
pub open spec fn number_or_null(number: Option<i64>) -> SqlValue<Seq<char>> {
    match number {
        Some(number) => SqlValue::Integer(number),
        None => SqlValue::Null,
    }
}

fn text_value(text: &str) -> (out: SqlValue)
    ensures
        out@ == SqlValue::Text(text@),
{
    SqlValue::Text(text.to_owned())
}

fn optional_text(text: &Option<String>) -> (out: SqlValue)
    ensures
        out@ == text_or_null(opt_view(*text)),
{
    match text {
        Some(text) => SqlValue::Text(text.clone()),
        None => SqlValue::Null,
    }
}

fn optional_number(number: Option<i64>) -> (out: SqlValue)
    ensures
        out@ == number_or_null(number),
{
    match number {
        Some(number) => SqlValue::Integer(number),
        None => SqlValue::Null,
    }
}

fn bare(sql: &str) -> (out: Statement)
    ensures
        out@ == statement(sql@, seq![]),
{
    let out = Statement { sql: sql.to_owned(), params: Vec::new() };
    assert(out@.params == Seq::<SqlValue<Seq<char>>>::empty());
    out
}

fn with_text(sql: &str, text: &str) -> (out: Statement)
    ensures
        out@ == (Statement { sql: sql@, params: seq![SqlValue::Text(text@)] }),
{
    let params: Vec<SqlValue> = vec![text_value(text)];
    assert(views(params@) == seq![SqlValue::Text(text@)]);
    Statement { sql: sql.to_owned(), params }
}

// ---------------------------------------------------------------------------
// Times
// ---------------------------------------------------------------------------
/// A time in nanoseconds as whole seconds, where they fit in 63 bits.
pub open spec fn whole_seconds(time: u128) -> Option<i64> {
    if time / 1_000_000_000 <= i64::MAX {
        Some((time / 1_000_000_000) as i64)
    } else {
        None
    }
}

/// A time in nanoseconds as whole seconds, where they fit in 63 bits.
pub fn unix_from_system_time(time: u128) -> (out: Option<i64>)
    ensures
        out == whole_seconds(time),
{
    let seconds: u128 = time / 1_000_000_000;
    if seconds <= i64::MAX as u128 {
        Some(seconds as i64)
    } else {
        None
    }
}

/// Seconds since the epoch as a time in nanoseconds; nothing for a time before it.
pub open spec fn time_of_seconds(seconds: i64) -> Option<u128> {
    if seconds < 0 {
        None
    } else {
        Some((seconds * 1_000_000_000) as u128)
    }
}

/// Seconds since the epoch as a time in nanoseconds; nothing for a time before it.
pub fn system_time_from_unix(seconds: i64) -> (out: Option<u128>)
    ensures
        out == time_of_seconds(seconds),
{
    if seconds < 0 {
        None
    } else {
        Some(seconds as u128 * 1_000_000_000)
    }
}

/// A time that may be missing as whole seconds.
pub open spec fn stored_time(time: Option<u128>) -> Option<i64> {
    match time {
        Some(time) => whole_seconds(time),
        None => None,
    }
}

/// Whole seconds that may be missing as a time.
pub open spec fn read_time(seconds: Option<i64>) -> Option<u128> {
    match seconds {
        Some(seconds) => time_of_seconds(seconds),
        None => None,
    }
}

// ---------------------------------------------------------------------------
// Local sessions
// ---------------------------------------------------------------------------
/// A row of the table of local sessions.
#[derive(Debug, PartialEq, Eq)]
pub struct LocalRow<T = String> {
    pub name: T,
    pub display_name: T,
    pub project_dir: T,
    pub status: T,
    pub last_activity: Option<i64>,
    pub has_bell: i64,
    pub pane_dead: i64,
}

impl View for LocalRow<String> {
    type V = LocalRow<Seq<char>>;

    open spec fn view(&self) -> LocalRow<Seq<char>> {
        LocalRow {
            name: self.name@,
            display_name: self.display_name@,
            project_dir: self.project_dir@,
            status: self.status@,
            last_activity: self.last_activity,
            has_bell: self.has_bell,
            pane_dead: self.pane_dead,
        }
    }
}

/// A truth value as a number.
pub open spec fn flag(value: bool) -> i64 {
    if value {
        1
    } else {
        0
    }
}

/// A truth value as a number.
pub fn bool_to_i64(value: bool) -> (out: i64)
    ensures
        out == flag(value),
{
    if value {
        1
    } else {
        0
    }
}

/// The row that a session is written to.
pub open spec fn row_of_session(session: ManagedSession<Seq<char>>) -> LocalRow<Seq<char>> {
    LocalRow {
        name: session.name,
        display_name: session.display_name,
        project_dir: session.project_dir,
        status: status_label(session.status),
        last_activity: stored_time(session.last_activity),
        has_bell: flag(session.has_bell),
        pane_dead: flag(session.pane_dead),
    }
}

/// The session that is read from a row.
pub open spec fn session_of_row(row: LocalRow<Seq<char>>, is_current: bool) -> ManagedSession<
    Seq<char>,
> {
    ManagedSession {
        name: row.name,
        display_name: row.display_name,
        project_dir: row.project_dir,
        is_current_project: is_current,
        is_remote: false,
        status: labelled_status(row.status),
        last_activity: read_time(row.last_activity),
        has_bell: row.has_bell != 0,
        pane_dead: row.pane_dead != 0,
    }
}

/// What the cache keeps of a session: all but the part of its last activity below a second, or the
/// whole of it where its seconds do not fit in 63 bits. Whether it is of the current project is
/// told by the reader, and a remote one is kept as a local one.
pub open spec fn kept_session(
    session: ManagedSession<Seq<char>>,
    is_current: bool,
) -> ManagedSession<Seq<char>> {
    ManagedSession {
        is_current_project: is_current,
        is_remote: false,
        last_activity: match session.last_activity {
            Some(time) => if time / 1_000_000_000 <= i64::MAX {
                Some((time - time % 1_000_000_000) as u128)
            } else {
                None
            },
            None => None,
        },
        ..session
    }
}

/// A session that is written and read again is what the cache keeps of it.
pub proof fn stored_session_comes_back(session: ManagedSession<Seq<char>>, is_current: bool)
    ensures
        session_of_row(row_of_session(session), is_current) == kept_session(session, is_current),
{
    label_names_its_status(session.status);
    match session.last_activity {
        Some(time) => {
            assert(time as int == 1_000_000_000 * (time as int / 1_000_000_000) + time as int
                % 1_000_000_000);
        },
        None => {},
    }
}

/// What is read and written again is the same, where it was written before.
pub proof fn read_session_is_stored_alike(session: ManagedSession<Seq<char>>, is_current: bool)
    ensures
        row_of_session(session_of_row(row_of_session(session), is_current)) == row_of_session(
            session,
        ),
{
    label_names_its_status(session.status);
}

/// The session that is read from a row.
pub fn session_from_row(row: LocalRow, is_current: bool) -> (out: ManagedSession)
    ensures
        out@ == session_of_row(row@, is_current),
{
    ManagedSession {
        status: SessionStatus::from_label(&row.status),
        name: row.name,
        display_name: row.display_name,
        project_dir: row.project_dir,
        is_current_project: is_current,
        is_remote: false,
        last_activity: match row.last_activity {
            Some(seconds) => system_time_from_unix(seconds),
            None => None,
        },
        has_bell: row.has_bell != 0,
        pane_dead: row.pane_dead != 0,
    }
}

/// Reading the local sessions: columns as in `LocalRow`.
pub const LOAD_LOCAL: &'static str = "SELECT name, display_name, project_dir, status, last_activity, has_bell, pane_dead
                 FROM local_sessions
                 ORDER BY status_rank, last_activity DESC, display_name ASC";

/// Emptying the table of local sessions.
pub const CLEAR_LOCAL: &'static str = "DELETE FROM local_sessions";

/// Writing a local session.
pub const INSERT_LOCAL: &'static str = "INSERT INTO local_sessions (
                    name, display_name, project_dir, status, status_rank, last_activity,
                    has_bell, pane_dead, updated_at
                 ) VALUES (?1, ?2, ?3, ?4, ?5, ?6, ?7, ?8, ?9)";

/// The statement that writes a local session.
pub open spec fn insert_local(session: ManagedSession<Seq<char>>, now: i64) -> StatementView {
    let row = row_of_session(session);
    Statement {
        sql: INSERT_LOCAL@,
        params: seq![
            SqlValue::Text(row.name),
            SqlValue::Text(row.display_name),
            SqlValue::Text(row.project_dir),
            SqlValue::Text(row.status),
            SqlValue::Integer(status_rank(session.status) as i64),
            number_or_null(row.last_activity),
            SqlValue::Integer(row.has_bell),
            SqlValue::Integer(row.pane_dead),
            SqlValue::Integer(now),
        ],
    }
}

/// The statements that put the sessions in place of those in the table.
pub open spec fn local_statements(sessions: Seq<ManagedSession<Seq<char>>>, now: i64) -> Seq<
    StatementView,
> {
    seq![Statement { sql: CLEAR_LOCAL@, params: seq![] }] + sessions.map_values(
        |session: ManagedSession<Seq<char>>| insert_local(session, now),
    )
}

fn insert_local_statement(session: &ManagedSession, now: i64) -> (out: Statement)
    ensures
        out@ == insert_local(session@, now),
{
    let last_activity: Option<i64> = match session.last_activity {
        Some(time) => unix_from_system_time(time),
        None => None,
    };
    let params: Vec<SqlValue> = vec![
        text_value(&session.name),
        text_value(&session.display_name),
        text_value(&session.project_dir),
        text_value(session.status.label()),
        SqlValue::Integer(session.status.sort_rank() as i64),
        optional_number(last_activity),
        SqlValue::Integer(bool_to_i64(session.has_bell)),
        SqlValue::Integer(bool_to_i64(session.pane_dead)),
        SqlValue::Integer(now),
    ];
    assert(views(params@) == insert_local(session@, now).params);
    Statement { sql: INSERT_LOCAL.to_owned(), params }
}

/// The statements that put the sessions in place of those in the table, to be run as one
/// transaction. `now` is in seconds since the epoch.
pub fn replace_local(sessions: &Vec<ManagedSession>, now: i64) -> (out: Vec<Statement>)
    ensures
        views(out@) == local_statements(views(sessions@), now),
{
    let ghost inserts = views(sessions@).map_values(
        |session: ManagedSession<Seq<char>>| insert_local(session, now),
    );
    let ghost head = seq![Statement { sql: CLEAR_LOCAL@, params: Seq::<SqlValue<Seq<char>>>::empty() }];
    let mut out: Vec<Statement> = vec![bare(CLEAR_LOCAL)];
    assert(views(out@) == head + inserts.take(0));
    let mut i: usize = 0;
    while i < sessions.len()
        invariant
            i <= sessions.len(),
            inserts == views(sessions@).map_values(
                |session: ManagedSession<Seq<char>>| insert_local(session, now),
            ),
            views(out@) == head + inserts.take(i as int),
        decreases sessions.len() - i,
    {
        let ghost before = out@;
        out.push(insert_local_statement(&sessions[i], now));
        assert(views(out@) == views(before).push(inserts[i as int]));
        assert(inserts.take(i + 1) == inserts.take(i as int).push(inserts[i as int]));
        i += 1;
    }
    assert(inserts.take(sessions@.len() as int) == inserts);
    out
}

// ---------------------------------------------------------------------------
// Remote tasks
// ---------------------------------------------------------------------------
/// Reading the remote tasks of a project.
pub const LOAD_REMOTE: &'static str = "SELECT id, display_name, project_dir, repository, status, state, updated_at, url, pr_url
                 FROM remote_sessions
                 WHERE project_dir = ?1 AND repository IS NOT NULL
                 ORDER BY status_rank, updated_at DESC, display_name ASC";

/// Removing the remote tasks of a project.
pub const CLEAR_REMOTE: &'static str = "DELETE FROM remote_sessions WHERE project_dir = ?1";

/// Writing a remote task.
pub const INSERT_REMOTE: &'static str = "INSERT INTO remote_sessions (
                    id, project_dir, display_name, repository, status, status_rank, state, updated_at, url, pr_url, cached_at
                 ) VALUES (?1, ?2, ?3, ?4, ?5, ?6, ?7, ?8, ?9, ?10, ?11)";

/// A row of the table of remote tasks.
#[derive(Debug, PartialEq, Eq)]
pub struct RemoteRow<T = String> {
    pub id: T,
    pub display_name: T,
    pub project_dir: T,
    pub repository: Option<T>,
    pub status: T,
    pub state: T,
    pub updated_at: Option<T>,
    pub url: Option<T>,
    pub pr_url: Option<T>,
}

impl View for RemoteRow<String> {
    type V = RemoteRow<Seq<char>>;

    open spec fn view(&self) -> RemoteRow<Seq<char>> {
        RemoteRow {
            id: self.id@,
            display_name: self.display_name@,
            project_dir: self.project_dir@,
            repository: opt_view(self.repository),
            status: self.status@,
            state: self.state@,
            updated_at: opt_view(self.updated_at),
            url: opt_view(self.url),
            pr_url: opt_view(self.pr_url),
        }
    }
}

/// The row that a task is written to.
pub open spec fn row_of_task(session: CachedRemoteSession<Seq<char>>) -> RemoteRow<Seq<char>> {
    RemoteRow {
        id: session.id,
        display_name: session.display_name,
        project_dir: session.project_dir,
        repository: session.repository,
        status: status_label(session.status),
        state: session.state,
        updated_at: session.updated_at,
        url: session.url,
        pr_url: session.pr_url,
    }
}

/// The task that is read from a row.
pub open spec fn task_of_row(row: RemoteRow<Seq<char>>) -> CachedRemoteSession<Seq<char>> {
    CachedRemoteSession {
        id: row.id,
        display_name: row.display_name,
        project_dir: row.project_dir,
        repository: row.repository,
        status: labelled_status(row.status),
        state: row.state,
        updated_at: row.updated_at,
        url: row.url,
        pr_url: row.pr_url,
    }
}

/// A task that is written and read again is the same.
pub proof fn stored_task_comes_back(session: CachedRemoteSession<Seq<char>>)
    ensures
        task_of_row(row_of_task(session)) == session,
{
    label_names_its_status(session.status);
}

/// The task that is read from a row.
pub fn task_from_row(row: RemoteRow) -> (out: CachedRemoteSession)
    ensures
        out@ == task_of_row(row@),
{
    CachedRemoteSession {
        status: SessionStatus::from_label(&row.status),
        id: row.id,
        display_name: row.display_name,
        project_dir: row.project_dir,
        repository: row.repository,
        state: row.state,
        updated_at: row.updated_at,
        url: row.url,
        pr_url: row.pr_url,
    }
}

/// The statement that writes a task.
pub open spec fn insert_remote(session: CachedRemoteSession<Seq<char>>, now: i64) -> StatementView {
    let row = row_of_task(session);
    Statement {
        sql: INSERT_REMOTE@,
        params: seq![
            SqlValue::Text(row.id),
            SqlValue::Text(row.project_dir),
            SqlValue::Text(row.display_name),
            text_or_null(row.repository),
            SqlValue::Text(row.status),
            SqlValue::Integer(status_rank(session.status) as i64),
            SqlValue::Text(row.state),
            text_or_null(row.updated_at),
            text_or_null(row.url),
            text_or_null(row.pr_url),
            SqlValue::Integer(now),
        ],
    }
}

/// The statements that put the tasks in place of those of a project in the table.
pub open spec fn remote_statements(
    project_dir: Seq<char>,
    sessions: Seq<CachedRemoteSession<Seq<char>>>,
    now: i64,
) -> Seq<StatementView> {
    seq![Statement { sql: CLEAR_REMOTE@, params: seq![SqlValue::Text(project_dir)] }]
        + sessions.map_values(
        |session: CachedRemoteSession<Seq<char>>| insert_remote(session, now),
    )
}

fn insert_remote_statement(session: &CachedRemoteSession, now: i64) -> (out: Statement)
    ensures
        out@ == insert_remote(session@, now),
{
    let params: Vec<SqlValue> = vec![
        text_value(&session.id),
        text_value(&session.project_dir),
        text_value(&session.display_name),
        optional_text(&session.repository),
        text_value(session.status.label()),
        SqlValue::Integer(session.status.sort_rank() as i64),
        text_value(&session.state),
        optional_text(&session.updated_at),
        optional_text(&session.url),
        optional_text(&session.pr_url),
        SqlValue::Integer(now),
    ];
    assert(views(params@) == insert_remote(session@, now).params);
    Statement { sql: INSERT_REMOTE.to_owned(), params }
}

/// The statements that put the tasks in place of those of a project in the table, to be run as one
/// transaction. `now` is in seconds since the epoch.
pub fn replace_remote(current_dir: &str, sessions: &Vec<CachedRemoteSession>, now: i64) -> (out: Vec<
    Statement,
>)
    ensures
        views(out@) == remote_statements(current_dir@, views(sessions@), now),
{
    let ghost inserts = views(sessions@).map_values(
        |session: CachedRemoteSession<Seq<char>>| insert_remote(session, now),
    );
    let ghost head = seq![
        Statement { sql: CLEAR_REMOTE@, params: seq![SqlValue::Text(current_dir@)] },
    ];
    let mut out: Vec<Statement> = vec![with_text(CLEAR_REMOTE, current_dir)];
    assert(views(out@) == head + inserts.take(0));
    let mut i: usize = 0;
    while i < sessions.len()
        invariant
            i <= sessions.len(),
            inserts == views(sessions@).map_values(
                |session: CachedRemoteSession<Seq<char>>| insert_remote(session, now),
            ),
            views(out@) == head + inserts.take(i as int),
        decreases sessions.len() - i,
    {
        let ghost before = out@;
        out.push(insert_remote_statement(&sessions[i], now));
        assert(views(out@) == views(before).push(inserts[i as int]));
        assert(inserts.take(i + 1) == inserts.take(i as int).push(inserts[i as int]));
        i += 1;
    }
    assert(inserts.take(sessions@.len() as int) == inserts);
    out
}

/// The statement that reads the remote tasks of a project.
pub fn load_remote(current_dir: &str) -> (out: Statement)
    ensures
        out@ == (Statement { sql: LOAD_REMOTE@, params: seq![SqlValue::Text(current_dir@)] }),
{
    with_text(LOAD_REMOTE, current_dir)
}

/// The statement that reads the local sessions.
pub fn load_local() -> (out: Statement)
    ensures
        out@ == statement(LOAD_LOCAL@, seq![]),
{
    bare(LOAD_LOCAL)
}

// ---------------------------------------------------------------------------
// What is read of what was written
// ---------------------------------------------------------------------------
/// The values of a row of a table.
pub type Values = Seq<SqlValue<Seq<char>>>;

/// The text of a value; nothing where it is missing.
pub open spec fn value_text(value: SqlValue<Seq<char>>) -> Option<Seq<char>> {
    match value {
        SqlValue::Text(text) => Some(text),
        _ => None,
    }
}

/// The number of a value; nothing where it is missing.
pub open spec fn value_number(value: SqlValue<Seq<char>>) -> Option<i64> {
    match value {
        SqlValue::Integer(number) => Some(number),
        _ => None,
    }
}

/// The values of the rows that are written by statements of which the first one only clears.
pub open spec fn written(statements: Seq<StatementView>) -> Seq<Values> {
    statements.skip(1).map_values(|statement: StatementView| statement.params)
}

/// The columns that `LOAD_LOCAL` names, out of values in the order of `INSERT_LOCAL`.
pub open spec fn local_columns(values: Values) -> LocalRow<Seq<char>> {
    LocalRow {
        name: values[0]->Text_0,
        display_name: values[1]->Text_0,
        project_dir: values[2]->Text_0,
        status: values[3]->Text_0,
        last_activity: value_number(values[5]),
        has_bell: values[6]->Integer_0,
        pane_dead: values[7]->Integer_0,
    }
}

/// The order that `LOAD_LOCAL` asks for: by the rank of the status, then the last active first, with
/// those behind of which it is not known, then by what they are called.
pub open spec fn local_asked_before(a: Values, b: Values) -> bool {
    let (a_time, b_time) = (value_number(a[5]), value_number(b[5]));
    if a[4] != b[4] {
        a[4]->Integer_0 < b[4]->Integer_0
    } else if a_time != b_time {
        match (a_time, b_time) {
            (Some(a), Some(b)) => a > b,
            (Some(_), None) => true,
            _ => false,
        }
    } else {
        text_less(a[1]->Text_0, b[1]->Text_0)
    }
}

/// The order that `LOAD_LOCAL` asks for, as a function.
pub open spec fn local_asked_order() -> spec_fn(Values, Values) -> bool {
    |a: Values, b: Values| local_asked_before(a, b)
}

/// The session that is read from the values of a row, where `is_current` tells whether a directory
/// is that of the current project.
pub open spec fn session_of_values(
    values: Values,
    is_current: spec_fn(Seq<char>) -> bool,
) -> ManagedSession<Seq<char>> {
    let row = local_columns(values);
    session_of_row(row, is_current(row.project_dir))
}

/// The sessions that are read from rows.
pub open spec fn sessions_of_values(
    rows: Seq<Values>,
    is_current: spec_fn(Seq<char>) -> bool,
) -> Seq<ManagedSession<Seq<char>>> {
    rows.map_values(|values: Values| session_of_values(values, is_current))
}

/// What the cache keeps of sessions.
pub open spec fn kept_sessions(
    sessions: Seq<ManagedSession<Seq<char>>>,
    is_current: spec_fn(Seq<char>) -> bool,
) -> Seq<ManagedSession<Seq<char>>> {
    sessions.map_values(
        |session: ManagedSession<Seq<char>>|
            kept_session(session, is_current(session.project_dir)),
    )
}

/// The rows that are written for sessions, read again, give what the cache keeps of each, place by
/// place.
pub proof fn stored_sessions_come_back(
    sessions: Seq<ManagedSession<Seq<char>>>,
    now: i64,
    is_current: spec_fn(Seq<char>) -> bool,
)
    ensures
        written(local_statements(sessions, now)).len() == sessions.len(),
        forall|i: int|
            0 <= i < sessions.len() ==> local_columns(
                #[trigger] written(local_statements(sessions, now))[i],
            ) == row_of_session(sessions[i]),
        sessions_of_values(written(local_statements(sessions, now)), is_current) == kept_sessions(
            sessions,
            is_current,
        ),
{
    let rows = written(local_statements(sessions, now));
    assert forall|i: int| 0 <= i < sessions.len() implies #[trigger] rows[i] == insert_local(
        sessions[i],
        now,
    ).params && local_columns(rows[i]) == row_of_session(sessions[i]) && session_of_values(
        rows[i],
        is_current,
    ) == kept_session(sessions[i], is_current(sessions[i].project_dir)) by {
        stored_session_comes_back(sessions[i], is_current(sessions[i].project_dir));
    }
    assert(sessions_of_values(rows, is_current) == kept_sessions(sessions, is_current));
}

/// The last known list is restored: where the database answers `LOAD_LOCAL` with the rows that were
/// written for sessions, in the order that it asks for, what is read is what the cache keeps of each
/// session, once, in the order in which sessions are listed.
pub proof fn cached_sessions_come_back_in_order(
    sessions: Seq<ManagedSession<Seq<char>>>,
    now: i64,
    answer: Seq<Values>,
    is_current: spec_fn(Seq<char>) -> bool,
)
    requires
        ordered_by(written(local_statements(sessions, now)), answer, local_asked_order()),
    ensures
        ordered_by(
            kept_sessions(sessions, is_current),
            sessions_of_values(answer, is_current),
            session_order(),
        ),
{
    let rows = written(local_statements(sessions, now));
    let read = |values: Values| session_of_values(values, is_current);
    stored_sessions_come_back(sessions, now, is_current);
    assert forall|i: int, j: int|
        0 <= i < rows.len() && 0 <= j < rows.len() && #[trigger] session_order()(
            read(rows[i]),
            read(rows[j]),
        ) implies local_asked_order()(rows[i], rows[j]) by {
        assert(rows[i] == insert_local(sessions[i], now).params);
        assert(rows[j] == insert_local(sessions[j], now).params);
        label_names_its_status(sessions[i].status);
        label_names_its_status(sessions[j].status);
        assert(local_columns(rows[i]) == row_of_session(sessions[i]));
        assert(local_columns(rows[j]) == row_of_session(sessions[j]));
    }
    order_is_carried_over(rows, answer, local_asked_order(), read, session_order());
}

/// The columns that `LOAD_REMOTE` names, out of values in the order of `INSERT_REMOTE`.
pub open spec fn remote_columns(values: Values) -> RemoteRow<Seq<char>> {
    RemoteRow {
        id: values[0]->Text_0,
        project_dir: values[1]->Text_0,
        display_name: values[2]->Text_0,
        repository: value_text(values[3]),
        status: values[4]->Text_0,
        state: values[6]->Text_0,
        updated_at: value_text(values[7]),
        url: value_text(values[8]),
        pr_url: value_text(values[9]),
    }
}

/// The first text is behind the second one; a text that is missing is before any other.
pub open spec fn text_later(a: Option<Seq<char>>, b: Option<Seq<char>>) -> bool {
    match (a, b) {
        (Some(a), Some(b)) => text_less(b, a),
        (Some(_), None) => true,
        _ => false,
    }
}

/// The order that `LOAD_REMOTE` asks for: by the rank of the status, then the last update first, with
/// those behind of which it is not known, then by what they are called.
pub open spec fn remote_asked_before(a: Values, b: Values) -> bool {
    if a[5] != b[5] {
        a[5]->Integer_0 < b[5]->Integer_0
    } else if value_text(a[7]) != value_text(b[7]) {
        text_later(value_text(a[7]), value_text(b[7]))
    } else {
        text_less(a[2]->Text_0, b[2]->Text_0)
    }
}

/// The order that `LOAD_REMOTE` asks for, as a function.
pub open spec fn remote_asked_order() -> spec_fn(Values, Values) -> bool {
    |a: Values, b: Values| remote_asked_before(a, b)
}

/// The order of the tasks that are read: by status, then the last update first, then by what they
/// are called.
pub open spec fn task_before(
    a: CachedRemoteSession<Seq<char>>,
    b: CachedRemoteSession<Seq<char>>,
) -> bool {
    if a.status != b.status {
        status_rank(a.status) < status_rank(b.status)
    } else if a.updated_at != b.updated_at {
        text_later(a.updated_at, b.updated_at)
    } else {
        text_less(a.display_name, b.display_name)
    }
}

/// The order of the tasks that are read, as a function.
pub open spec fn task_order() -> spec_fn(
    CachedRemoteSession<Seq<char>>,
    CachedRemoteSession<Seq<char>>,
) -> bool {
    |a: CachedRemoteSession<Seq<char>>, b: CachedRemoteSession<Seq<char>>| task_before(a, b)
}

/// The tasks that are read from rows.
pub open spec fn tasks_of_values(rows: Seq<Values>) -> Seq<CachedRemoteSession<Seq<char>>> {
    rows.map_values(|values: Values| task_of_row(remote_columns(values)))
}

/// The rows of the table of remote tasks once those of a project were replaced.
pub open spec fn remote_table_after(
    table: Seq<Values>,
    project_dir: Seq<char>,
    tasks: Seq<CachedRemoteSession<Seq<char>>>,
    now: i64,
) -> Seq<Values> {
    table.filter(|values: Values| values[1] != SqlValue::Text(project_dir)) + written(
        remote_statements(project_dir, tasks, now),
    )
}

/// The rows that `LOAD_REMOTE` asks for: those of the project that have a repository.
pub open spec fn remote_asked(table: Seq<Values>, project_dir: Seq<char>) -> Seq<Values> {
    table.filter(
        |values: Values|
            values[1] == SqlValue::Text(project_dir) && values[3] != SqlValue::<Seq<char>>::Null,
    )
}

/// The tasks that are known to belong to a repository.
pub open spec fn tasks_with_repository(tasks: Seq<CachedRemoteSession<Seq<char>>>) -> Seq<
    CachedRemoteSession<Seq<char>>,
> {
    tasks.filter(|task: CachedRemoteSession<Seq<char>>| task.repository is Some)
}

/// The rows that are written for tasks, read again, give the tasks, place by place.
pub proof fn stored_tasks_come_back(
    project_dir: Seq<char>,
    tasks: Seq<CachedRemoteSession<Seq<char>>>,
    now: i64,
)
    ensures
        written(remote_statements(project_dir, tasks, now)).len() == tasks.len(),
        forall|i: int|
            0 <= i < tasks.len() ==> remote_columns(
                #[trigger] written(remote_statements(project_dir, tasks, now))[i],
            ) == row_of_task(tasks[i]),
        tasks_of_values(written(remote_statements(project_dir, tasks, now))) == tasks,
{
    let rows = written(remote_statements(project_dir, tasks, now));
    assert forall|i: int| 0 <= i < tasks.len() implies #[trigger] rows[i] == insert_remote(
        tasks[i],
        now,
    ).params && remote_columns(rows[i]) == row_of_task(tasks[i]) && task_of_row(
        remote_columns(rows[i]),
    ) == tasks[i] by {
        stored_task_comes_back(tasks[i]);
    }
    assert(tasks_of_values(rows) == tasks);
}

/// Of the rows that are written for tasks of a project, those of tasks with a repository are asked
/// for.
proof fn asked_of_written(
    project_dir: Seq<char>,
    tasks: Seq<CachedRemoteSession<Seq<char>>>,
    now: i64,
)
    requires
        forall|i: int| 0 <= i < tasks.len() ==> (#[trigger] tasks[i]).project_dir == project_dir,
    ensures
        remote_asked(written(remote_statements(project_dir, tasks, now)), project_dir) == written(
            remote_statements(project_dir, tasks_with_repository(tasks), now),
        ),
    decreases tasks.len(),
{
    reveal(Seq::filter);
    let rows = written(remote_statements(project_dir, tasks, now));
    let kept = tasks_with_repository(tasks);
    if tasks.len() > 0 {
        let fewer = tasks.drop_last();
        asked_of_written(project_dir, fewer, now);
        let fewer_rows = written(remote_statements(project_dir, fewer, now));
        assert(rows.drop_last() == fewer_rows);
        assert(rows.last() == insert_remote(tasks.last(), now).params);
        assert(tasks[tasks.len() - 1].project_dir == project_dir);
        let fewer_kept = tasks_with_repository(fewer);
        if tasks.last().repository is Some {
            assert(kept == fewer_kept.push(tasks.last()));
            assert(written(remote_statements(project_dir, kept, now)) == written(
                remote_statements(project_dir, fewer_kept, now),
            ).push(rows.last()));
        } else {
            assert(kept == fewer_kept);
        }
    } else {
        assert(kept == tasks);
        assert(remote_asked(rows, project_dir) == rows);
    }
}

/// The last known tasks of a project are restored: where the tasks of a project were replaced and
/// the database answers `LOAD_REMOTE` with the rows that it asks for, in the order that it asks for,
/// what is read is each of the tasks with a repository, once, the same in every part and in order.
pub proof fn cached_tasks_come_back_in_order(
    table: Seq<Values>,
    project_dir: Seq<char>,
    tasks: Seq<CachedRemoteSession<Seq<char>>>,
    now: i64,
    answer: Seq<Values>,
)
    requires
        forall|i: int| 0 <= i < tasks.len() ==> (#[trigger] tasks[i]).project_dir == project_dir,
        ordered_by(
            remote_asked(remote_table_after(table, project_dir, tasks, now), project_dir),
            answer,
            remote_asked_order(),
        ),
    ensures
        ordered_by(tasks_with_repository(tasks), tasks_of_values(answer), task_order()),
{
    let others = table.filter(|values: Values| values[1] != SqlValue::Text(project_dir));
    let new = written(remote_statements(project_dir, tasks, now));
    let is_asked = |values: Values|
        values[1] == SqlValue::Text(project_dir) && values[3] != SqlValue::<Seq<char>>::Null;
    Seq::filter_distributes_over_add(others, new, is_asked);
    assert forall|i: int| 0 <= i < others.len() implies !is_asked(#[trigger] others[i]) by {
        table.lemma_filter_pred(
            |values: Values| values[1] != SqlValue::Text(project_dir),
            i,
        );
    }
    others.lemma_all_neg_filter_empty(is_asked);
    let kept = tasks_with_repository(tasks);
    asked_of_written(project_dir, tasks, now);
    let rows = written(remote_statements(project_dir, kept, now));
    assert(remote_asked(remote_table_after(table, project_dir, tasks, now), project_dir) == rows);
    stored_tasks_come_back(project_dir, kept, now);
    let read = |values: Values| task_of_row(remote_columns(values));
    assert forall|i: int, j: int|
        0 <= i < rows.len() && 0 <= j < rows.len() && #[trigger] task_order()(
            read(rows[i]),
            read(rows[j]),
        ) implies remote_asked_order()(rows[i], rows[j]) by {
        assert(rows[i] == insert_remote(kept[i], now).params);
        assert(rows[j] == insert_remote(kept[j], now).params);
        stored_task_comes_back(kept[i]);
        stored_task_comes_back(kept[j]);
        assert(remote_columns(rows[i]) == row_of_task(kept[i]));
        assert(remote_columns(rows[j]) == row_of_task(kept[j]));
    }
    order_is_carried_over(rows, answer, remote_asked_order(), read, task_order());
}

/// Where the tasks of a project are replaced, what `LOAD_REMOTE` asks for of another project stays
/// as it was.
pub proof fn other_projects_keep_their_tasks(
    table: Seq<Values>,
    project_dir: Seq<char>,
    tasks: Seq<CachedRemoteSession<Seq<char>>>,
    now: i64,
    other: Seq<char>,
)
    requires
        forall|i: int| 0 <= i < tasks.len() ==> (#[trigger] tasks[i]).project_dir == project_dir,
        other != project_dir,
    ensures
        remote_asked(remote_table_after(table, project_dir, tasks, now), other) == remote_asked(
            table,
            other,
        ),
{
    let left = |values: Values| values[1] != SqlValue::Text(project_dir);
    let new = written(remote_statements(project_dir, tasks, now));
    let is_asked = |values: Values|
        values[1] == SqlValue::Text(other) && values[3] != SqlValue::<Seq<char>>::Null;
    Seq::filter_distributes_over_add(table.filter(left), new, is_asked);
    assert forall|i: int| 0 <= i < new.len() implies !is_asked(#[trigger] new[i]) by {
        assert(new[i] == insert_remote(tasks[i], now).params);
        assert(tasks[i].project_dir == project_dir);
    }
    new.lemma_all_neg_filter_empty(is_asked);
    weaker_filter_changes_nothing(table, left, is_asked);
    assert(remote_asked(remote_table_after(table, project_dir, tasks, now), other) == remote_asked(
        table,
        other,
    ));
}

/// Values that are picked are not lost where more of them were picked before.
proof fn weaker_filter_changes_nothing<V>(
    values: Seq<V>,
    before: spec_fn(V) -> bool,
    picked: spec_fn(V) -> bool,
)
    requires
        forall|value: V| #[trigger] picked(value) ==> before(value),
    ensures
        values.filter(before).filter(picked) == values.filter(picked),
    decreases values.len(),
{
    reveal(Seq::filter);
    if values.len() > 0 {
        let rest = values.drop_last();
        let last = values.last();
        weaker_filter_changes_nothing(rest, before, picked);
        if before(last) {
            let first = rest.filter(before);
            assert(values.filter(before) == first.push(last));
            assert(first.push(last).drop_last() == first);
        }
    }
}

// ---------------------------------------------------------------------------
// Paths
// ---------------------------------------------------------------------------
/// Reading the recent paths.
pub const LOAD_RECENT: &'static str = "SELECT path
                 FROM recent_paths
                 ORDER BY last_used DESC, path ASC
                 LIMIT ?1";

/// Reading the removed projects.
pub const LOAD_REMOVED: &'static str = "SELECT path
                 FROM removed_projects
                 ORDER BY removed_at DESC, path ASC";

/// Noting that a path was used.
pub const RECORD_RECENT: &'static str = "INSERT INTO recent_paths (path, last_used)
             VALUES (?1, ?2)
             ON CONFLICT(path) DO UPDATE SET last_used = excluded.last_used";

/// Following a project again.
pub const RESTORE_PROJECT: &'static str = "DELETE FROM removed_projects WHERE path = ?1";

/// Forgetting all recent paths but the last ones.
pub const TRIM_RECENT: &'static str = "DELETE FROM recent_paths
             WHERE path NOT IN (
                 SELECT path FROM recent_paths ORDER BY last_used DESC, path ASC LIMIT ?1
             )";

/// Forgetting a recent path.
pub const FORGET_RECENT: &'static str = "DELETE FROM recent_paths WHERE path = ?1";

/// Noting that a project was removed.
pub const RECORD_REMOVED: &'static str = "INSERT INTO removed_projects (path, removed_at)
             VALUES (?1, ?2)
             ON CONFLICT(path) DO UPDATE SET removed_at = excluded.removed_at";

/// A limit as a statement takes it.
pub open spec fn limit_value(limit: usize) -> SqlValue<Seq<char>> {
    SqlValue::Integer(
        if limit <= i64::MAX {
            limit as i64
        } else {
            i64::MAX
        },
    )
}

fn limit_of(limit: usize) -> (out: SqlValue)
    ensures
        out@ == limit_value(limit),
{
    if limit as u128 <= i64::MAX as u128 {
        SqlValue::Integer(limit as i64)
    } else {
        SqlValue::Integer(i64::MAX)
    }
}

fn with_limit(sql: &str, limit: usize) -> (out: Statement)
    ensures
        out@ == (Statement { sql: sql@, params: seq![limit_value(limit)] }),
{
    let params: Vec<SqlValue> = vec![limit_of(limit)];
    assert(views(params@) == seq![limit_value(limit)]);
    Statement { sql: sql.to_owned(), params }
}

fn with_path_and_time(sql: &str, path: &str, now: i64) -> (out: Statement)
    ensures
        out@ == (Statement {
            sql: sql@,
            params: seq![SqlValue::Text(path@), SqlValue::Integer(now)],
        }),
{
    let params: Vec<SqlValue> = vec![text_value(path), SqlValue::Integer(now)];
    assert(views(params@) == seq![SqlValue::Text(path@), SqlValue::Integer(now)]);
    Statement { sql: sql.to_owned(), params }
}

/// The statement that reads the recent paths.
pub fn load_recent_paths(limit: usize) -> (out: Statement)
    ensures
        out@ == (Statement { sql: LOAD_RECENT@, params: seq![limit_value(limit)] }),
{
    with_limit(LOAD_RECENT, limit)
}

/// The statement that reads the removed projects.
pub fn load_removed_projects() -> (out: Statement)
    ensures
        out@ == statement(LOAD_REMOVED@, seq![]),
{
    bare(LOAD_REMOVED)
}

/// The statements that note that a path was used, to be run as one transaction: it is among the
/// recent ones, of which `limit` are kept, and its project is followed.
pub fn record_recent_path(path: &str, limit: usize, now: i64) -> (out: Vec<Statement>)
    ensures
        views(out@) == seq![
            Statement {
                sql: RECORD_RECENT@,
                params: seq![SqlValue::Text(path@), SqlValue::Integer(now)],
            },
            Statement { sql: RESTORE_PROJECT@, params: seq![SqlValue::Text(path@)] },
            Statement { sql: TRIM_RECENT@, params: seq![limit_value(limit)] },
        ],
{
    let out: Vec<Statement> = vec![
        with_path_and_time(RECORD_RECENT, path, now),
        with_text(RESTORE_PROJECT, path),
        with_limit(TRIM_RECENT, limit),
    ];
    assert(views(out@) == seq![
        Statement {
            sql: RECORD_RECENT@,
            params: seq![SqlValue::Text(path@), SqlValue::Integer(now)],
        },
        Statement { sql: RESTORE_PROJECT@, params: seq![SqlValue::Text(path@)] },
        Statement { sql: TRIM_RECENT@, params: seq![limit_value(limit)] },
    ]);
    out
}

/// The statements that remove a project, to be run as one transaction: its tasks and its place
/// among the recent paths go, and it is noted as removed.
pub fn remove_project(path: &str, now: i64) -> (out: Vec<Statement>)
    ensures
        views(out@) == seq![
            Statement { sql: CLEAR_REMOTE@, params: seq![SqlValue::Text(path@)] },
            Statement { sql: FORGET_RECENT@, params: seq![SqlValue::Text(path@)] },
            Statement {
                sql: RECORD_REMOVED@,
                params: seq![SqlValue::Text(path@), SqlValue::Integer(now)],
            },
        ],
{
    let out: Vec<Statement> = vec![
        with_text(CLEAR_REMOTE, path),
        with_text(FORGET_RECENT, path),
        with_path_and_time(RECORD_REMOVED, path, now),
    ];
    assert(views(out@) == seq![
        Statement { sql: CLEAR_REMOTE@, params: seq![SqlValue::Text(path@)] },
        Statement { sql: FORGET_RECENT@, params: seq![SqlValue::Text(path@)] },
        Statement {
            sql: RECORD_REMOVED@,
            params: seq![SqlValue::Text(path@), SqlValue::Integer(now)],
        },
    ]);
    out
}

/// The statement that follows a project again.
pub fn restore_project(path: &str) -> (out: Statement)
    ensures
        out@ == (Statement { sql: RESTORE_PROJECT@, params: seq![SqlValue::Text(path@)] }),
{
    with_text(RESTORE_PROJECT, path)
}

// ---------------------------------------------------------------------------
// The tables
// ---------------------------------------------------------------------------
/// The tables of the cache.
pub const SCHEMA: &'static str = "
                CREATE TABLE IF NOT EXISTS local_sessions (
                    name TEXT PRIMARY KEY,
                    display_name TEXT NOT NULL,
                    project_dir TEXT NOT NULL,
                    status TEXT NOT NULL,
                    status_rank INTEGER NOT NULL,
                    last_activity INTEGER,
                    has_bell INTEGER NOT NULL,
                    pane_dead INTEGER NOT NULL,
                    updated_at INTEGER NOT NULL
                );

                CREATE TABLE IF NOT EXISTS remote_sessions (
                    id TEXT NOT NULL,
                    project_dir TEXT NOT NULL,
                    display_name TEXT NOT NULL,
                    repository TEXT,
                    status TEXT NOT NULL,
                    status_rank INTEGER NOT NULL,
                    state TEXT NOT NULL,
                    updated_at TEXT,
                    url TEXT,
                    pr_url TEXT,
                    cached_at INTEGER NOT NULL,
                    PRIMARY KEY (id, project_dir)
                );

                CREATE TABLE IF NOT EXISTS recent_paths (
                    path TEXT PRIMARY KEY,
                    last_used INTEGER NOT NULL
                );

                CREATE TABLE IF NOT EXISTS removed_projects (
                    path TEXT PRIMARY KEY,
                    removed_at INTEGER NOT NULL
                );
                ";

/// The statement that lists the columns of a table.
pub fn table_info(table: &str) -> (out: String)
    ensures
        out@ == "PRAGMA table_info("@ + table@ + ")"@,
{
    concat(&concat("PRAGMA table_info(", table), ")")
}

/// The statement that gives a table a column that it does not have; nothing where it has it.
pub fn ensure_column(table: &str, column: &str, definition: &str, columns: &Vec<String>) -> (out: Option<
    String,
>)
    ensures
        opt_view(out) == if views(columns@).contains(column@) {
            None
        } else {
            Some("ALTER TABLE "@ + table@ + " ADD COLUMN "@ + column@ + " "@ + definition@)
        },
{
    if crate::tables::has_text(columns, column) {
        return None;
    }
    let start = concat(&concat("ALTER TABLE ", table), " ADD COLUMN ");
    Some(
        concat(
            &concat(&concat(&start, column), " "),
            definition,
        ),
    )
}

/// Each value of a statement that writes a session stands at the place of the column of its name:
/// name, display name, directory, status, rank, last activity, bell, dead pane, and when it was
/// written.
pub proof fn session_is_written_column_by_column(session: ManagedSession<Seq<char>>, now: i64)
    ensures
        ({
            let written = insert_local(session, now);
            &&& written.params.len() == 9
            &&& written.params[0] == SqlValue::Text(session.name)
            &&& written.params[1] == SqlValue::Text(session.display_name)
            &&& written.params[2] == SqlValue::Text(session.project_dir)
            &&& written.params[3] == SqlValue::Text(status_label(session.status))
            &&& written.params[4] == SqlValue::<Seq<char>>::Integer(
                status_rank(session.status) as i64,
            )
            &&& session.last_activity is None ==> written.params[5] == SqlValue::<Seq<char>>::Null
            &&& session.last_activity is Some && session.last_activity->0 < 1_000_000_000 * (
            i64::MAX as int) ==> written.params[5] is Integer && written.params[5]->Integer_0
                * 1_000_000_000 <= session.last_activity->0 < (written.params[5]->Integer_0 + 1)
                * 1_000_000_000
            &&& written.params[6] == SqlValue::<Seq<char>>::Integer(1) <==> session.has_bell
            &&& written.params[7] == SqlValue::<Seq<char>>::Integer(1) <==> session.pane_dead
            &&& written.params[8] == SqlValue::<Seq<char>>::Integer(now)
        }),
{
}

/// Each value of a statement that writes a task stands at the place of the column of its name: id,
/// directory, display name, repository, status, rank, state, last change, address, pull request, and
/// when it was written.
pub proof fn task_is_written_column_by_column(task: CachedRemoteSession<Seq<char>>, now: i64)
    ensures
        ({
            let written = insert_remote(task, now);
            let told = |text: Option<Seq<char>>|
                match text {
                    Some(text) => SqlValue::Text(text),
                    None => SqlValue::Null,
                };
            &&& written.params.len() == 11
            &&& written.params[0] == SqlValue::Text(task.id)
            &&& written.params[1] == SqlValue::Text(task.project_dir)
            &&& written.params[2] == SqlValue::Text(task.display_name)
            &&& written.params[3] == told(task.repository)
            &&& written.params[4] == SqlValue::Text(status_label(task.status))
            &&& written.params[5] == SqlValue::<Seq<char>>::Integer(status_rank(task.status) as i64)
            &&& written.params[6] == SqlValue::Text(task.state)
            &&& written.params[7] == told(task.updated_at)
            &&& written.params[8] == told(task.url)
            &&& written.params[9] == told(task.pr_url)
            &&& written.params[10] == SqlValue::<Seq<char>>::Integer(now)
        }),
{
}

/// What is written takes the place of what was there: the table of local sessions is emptied first,
/// and of the remote tasks those of the project are removed; then each is written, in order.
pub proof fn writing_replaces(
    sessions: Seq<ManagedSession<Seq<char>>>,
    project_dir: Seq<char>,
    tasks: Seq<CachedRemoteSession<Seq<char>>>,
    now: i64,
    i: int,
)
    ensures
        ({
            let local = local_statements(sessions, now);
            let remote = remote_statements(project_dir, tasks, now);
            &&& local.len() == sessions.len() + 1
            &&& remote.len() == tasks.len() + 1
            &&& local[0].sql == "DELETE FROM local_sessions"@ && local[0].params.len() == 0
            &&& remote[0].sql == "DELETE FROM remote_sessions WHERE project_dir = ?1"@
            &&& remote[0].params == seq![SqlValue::Text(project_dir)]
            &&& 0 <= i < sessions.len() ==> local[i + 1] == insert_local(sessions[i], now)
            &&& 0 <= i < tasks.len() ==> remote[i + 1] == insert_remote(tasks[i], now)
        }),
{
}

/// A session is read field by field: a number other than zero is a yes, whole seconds are a time, and
/// a time before the epoch is none.
pub proof fn session_is_read_column_by_column(row: LocalRow<Seq<char>>, is_current: bool)
    ensures
        ({
            let session = session_of_row(row, is_current);
            &&& session.name == row.name
            &&& session.display_name == row.display_name
            &&& session.project_dir == row.project_dir
            &&& session.status == labelled_status(row.status)
            &&& session.is_current_project == is_current
            &&& !session.is_remote
            &&& session.has_bell <==> row.has_bell != 0
            &&& session.pane_dead <==> row.pane_dead != 0
            &&& session.last_activity is Some <==> row.last_activity is Some
                && row.last_activity->0 >= 0
            &&& session.last_activity is Some ==> session.last_activity->0 == row.last_activity->0
                * 1_000_000_000
        }),
{
}

/// A task is read field by field.
pub proof fn task_is_read_column_by_column(row: RemoteRow<Seq<char>>)
    ensures
        ({
            let task = task_of_row(row);
            &&& task.id == row.id && task.project_dir == row.project_dir
            &&& task.display_name == row.display_name && task.state == row.state
            &&& task.repository == row.repository && task.updated_at == row.updated_at
            &&& task.url == row.url && task.pr_url == row.pr_url
            &&& task.status == labelled_status(row.status)
        }),
{
}

/// A task keeps each of its fields in the cache, under its own name.
pub proof fn cached_task_has_the_same_fields(task: RemoteSession<Seq<char>>)
    ensures
        ({
            let kept = cached(task);
            &&& kept.id == task.id && kept.project_dir == task.project_dir
            &&& kept.display_name == task.display_name && kept.state == task.state
            &&& kept.repository == task.repository && kept.updated_at == task.updated_at
            &&& kept.url == task.url && kept.pr_url == task.pr_url && kept.status == task.status
        }),
{
}

/// Tasks are read by status, what needs the user first; of those with one status the last changed
/// stands first and those of which it is not known last; then they stand by name.
pub proof fn tasks_are_read_in_order(
    a: CachedRemoteSession<Seq<char>>,
    b: CachedRemoteSession<Seq<char>>,
)
    ensures
        status_rank(a.status) < status_rank(b.status) ==> task_order()(a, b) && !task_order()(b, a),
        a.status == b.status && a.updated_at is Some && b.updated_at is None ==> task_order()(a, b)
            && !task_order()(b, a),
        a.status == b.status && a.updated_at is Some && b.updated_at is Some && text_less(
            b.updated_at->0,
            a.updated_at->0,
        ) ==> task_order()(a, b),
        a.status == b.status && a.updated_at == b.updated_at && text_less(
            a.display_name,
            b.display_name,
        ) ==> task_order()(a, b),
        a.status == b.status && a.updated_at == b.updated_at && a.display_name == b.display_name
            ==> !task_order()(a, b),
{
    ranks_tell_statuses_apart(a.status, b.status);
    text_less_is_asymmetric(a.display_name, b.display_name);
    if a.updated_at is Some && b.updated_at is Some {
        text_less_is_asymmetric(a.updated_at->0, b.updated_at->0);
    }
}

/// A limit is passed on as it is, or as the largest number that a statement takes.
pub proof fn limits_are_passed_on(limit: usize)
    ensures
        limit <= i64::MAX ==> limit_value(limit) is Integer && limit_value(limit)->Integer_0
            == limit,
        limit > i64::MAX ==> limit_value(limit) == SqlValue::<Seq<char>>::Integer(i64::MAX),
{
}

} // verus!
