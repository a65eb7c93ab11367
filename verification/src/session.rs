//! Copilot sessions as Copilot itself records them, and remote agent tasks beside them.
use crate::foreign::{decode_lossy, json_of_bytes, lossy_text, parse_rfc3339, rfc3339_instant};
use crate::json::{entry_place, opt_json, parse_json_bytes, Json, JsonView};
use crate::order::{rank_sorts_views, sort, sorted_by, Ranked};
use crate::paths::{file_name, file_name_of, join_path, joined_path};
use crate::tables::TextSet;
use crate::terminal::{session_name, tmux_session_name, TMUX_SESSION_PREFIX};
use crate::text::{
    chars_of, concat, contains, find, find_chars, find_from_is_first, lines, lines_of, lowered,
    lowered_of, mentions, occurs, opt_str, opt_view, part, position, position_is_first, position_of, same_chars,
    same_text, split, split_at_char, starts, starts_with, string_of, texts_of, trim,
    trim_end_is_head, trim_start, trim_start_is_tail, trimmed, views,
};
use vstd::prelude::*;
use vstd::utf8::{encode_scalar, encode_utf8};

verus! {

/// What a session is doing.
#[derive(Debug, Clone, Copy, PartialEq, Eq, Structural)]
pub enum SessionStatus {
    Running,
    Waiting,
    Idle,
    Error,
}

/// The word for a status.
pub open spec fn label_text(status: SessionStatus) -> Seq<char> {
    match status {
        SessionStatus::Running => "Running"@,
        SessionStatus::Waiting => "Waiting"@,
        SessionStatus::Idle => "Idle"@,
        SessionStatus::Error => "Error"@,
    }
}

impl SessionStatus {
    /// The word for the status.
    pub fn label(&self) -> (out: &'static str)
        ensures
            out@ == label_text(*self),
    {
        match self {
            SessionStatus::Running => "Running",
            SessionStatus::Waiting => "Waiting",
            SessionStatus::Idle => "Idle",
            SessionStatus::Error => "Error",
        }
    }
}

/// Where a session runs.
#[derive(Debug, Clone, Copy, PartialEq, Eq, Structural)]
pub enum SessionSource {
    Local,
    Remote,
}

/// An instant: seconds since the epoch, and nanoseconds behind them. A leap second is told by
/// nanoseconds of a thousand million or more.
#[derive(Debug, Clone, Copy, PartialEq, Eq, Structural)]
pub struct Timestamp {
    pub secs: i64,
    pub nanos: u32,
}

impl Timestamp {
    /// The instant is earlier than the other one.
    pub open spec fn is_earlier(self, other: Timestamp) -> bool {
        self.secs < other.secs || (self.secs == other.secs && self.nanos < other.nanos)
    }

    /// Whether the instant is earlier than the other one.
    pub fn earlier(self, other: Timestamp) -> (yes: bool)
        ensures
            yes == self.is_earlier(other),
    {
        self.secs < other.secs || (self.secs == other.secs && self.nanos < other.nanos)
    }

    /// The instant lies more than seven days before the other one.
    pub open spec fn is_stale(self, now: Timestamp) -> bool {
        self.secs + 604_800 < now.secs || (self.secs + 604_800 == now.secs && self.nanos
            < now.nanos)
    }

    /// Whether the instant lies more than seven days before the other one.
    pub fn stale(self, now: Timestamp) -> (yes: bool)
        ensures
            yes == self.is_stale(now),
    {
        let week: i128 = self.secs as i128 + 604_800;
        week < now.secs as i128 || (week == now.secs as i128 && self.nanos < now.nanos)
    }
}

/// A Copilot session.
#[derive(Debug, PartialEq, Eq)]
pub struct CopilotSession<T = String> {
    pub id: T,
    pub source: SessionSource,
    /// Working directory where the session was started.
    pub cwd: T,
    /// Git root, which may differ from it.
    pub git_root: Option<T>,
    /// GitHub repository, such as `owner/repo`.
    pub repository: Option<T>,
    /// Current git branch.
    pub branch: Option<T>,
    /// Summary or name.
    pub summary: Option<T>,
    /// Last response, which serves as a description.
    pub last_agent_message: Option<T>,
    /// The user named this session.
    pub user_named: bool,
    pub created_at: Timestamp,
    pub updated_at: Timestamp,
    pub status: SessionStatus,
    pub remote_state: Option<T>,
    pub remote_url: Option<T>,
    pub remote_user: Option<T>,
    pub pull_request: Option<T>,
    pub remote_log: Option<T>,
}

/// A Copilot session, as contracts speak of it.
pub type SessionView = CopilotSession<Seq<char>>;

impl View for CopilotSession<String> {
    type V = SessionView;

    open spec fn view(&self) -> SessionView {
        CopilotSession {
            id: self.id@,
            source: self.source,
            cwd: self.cwd@,
            git_root: opt_view(self.git_root),
            repository: opt_view(self.repository),
            branch: opt_view(self.branch),
            summary: opt_view(self.summary),
            last_agent_message: opt_view(self.last_agent_message),
            user_named: self.user_named,
            created_at: self.created_at,
            updated_at: self.updated_at,
            status: self.status,
            remote_state: opt_view(self.remote_state),
            remote_url: opt_view(self.remote_url),
            remote_user: opt_view(self.remote_user),
            pull_request: opt_view(self.pull_request),
            remote_log: opt_view(self.remote_log),
        }
    }
}

// ---------------------------------------------------------------------------
// Names
// ---------------------------------------------------------------------------
/// The number of bytes of a character in UTF-8.
pub open spec fn utf8_width(c: char) -> nat {
    let n = c as u32;
    if n < 0x80 {
        1
    } else if n < 0x800 {
        2
    } else if n < 0x10000 {
        3
    } else {
        4
    }
}

/// The characters in the first `n` bytes of a text; nothing where it has not so many, or they end
/// within a character.
pub open spec fn byte_prefix(s: Seq<char>, n: nat) -> Option<Seq<char>>
    decreases s.len(),
{
    if n == 0 {
        Some(seq![])
    } else if s.len() == 0 || utf8_width(s[0]) > n {
        None
    } else {
        match byte_prefix(s.skip(1), (n - utf8_width(s[0])) as nat) {
            Some(rest) => Some(seq![s[0]] + rest),
            None => None,
        }
    }
}

fn width_of(c: char) -> (out: usize)
    ensures
        out == utf8_width(c),
{
    let n: u32 = c as u32;
    if n < 0x80 {
        1
    } else if n < 0x800 {
        2
    } else if n < 0x10000 {
        3
    } else {
        4
    }
}

fn byte_prefix_of(s: &[char], n: usize) -> (out: Option<Vec<char>>)
    ensures
        match out {
            Some(prefix) => byte_prefix(s@, n as nat) == Some(prefix@),
            None => byte_prefix(s@, n as nat) is None,
        },
{
    let mut out: Vec<char> = Vec::new();
    let mut left: usize = n;
    let mut i: usize = 0;
    assert(s@.skip(0) == s@);
    while left > 0
        invariant
            i <= s.len(),
            left <= n,
            byte_prefix(s@, n as nat) == (match byte_prefix(s@.skip(i as int), left as nat) {
                Some(rest) => Some(out@ + rest),
                None => None,
            }),
        decreases left,
    {
        if i >= s.len() {
            return None;
        }
        assert(s@.skip(i as int)[0] == s@[i as int]);
        assert(s@.skip(i as int).skip(1) == s@.skip(i + 1));
        let width = width_of(s[i]);
        if width > left {
            return None;
        }
        let ghost before = out@;
        out.push(s[i]);
        proof {
            match byte_prefix(s@.skip(i + 1), (left - width) as nat) {
                Some(rest) => {
                    assert(before + (seq![s@[i as int]] + rest) == out@ + rest);
                },
                None => {},
            }
        }
        left -= width;
        i += 1;
    }
    assert(out@ + Seq::<char>::empty() == out@);
    Some(out)
}

/// The first line of a text, without white space at its ends.
pub open spec fn first_line(s: Seq<char>) -> Seq<char> {
    if lines(s).len() > 0 {
        trim(lines(s)[0])
    } else {
        seq![]
    }
}

impl CopilotSession<Seq<char>> {
    /// The title: the first line of the summary, where it holds something.
    pub open spec fn title(self) -> Option<Seq<char>> {
        match self.summary {
            Some(summary) => if first_line(summary).len() > 0 {
                Some(first_line(summary))
            } else {
                None
            },
            None => None,
        }
    }

    /// What the session is called: by its title, else by its branch, its directory or the start of
    /// its id.
    pub open spec fn name(self) -> Option<Seq<char>> {
        if self.title() is Some {
            self.title()
        } else if self.branch is Some && self.branch->0.len() > 0 {
            self.branch
        } else if file_name(self.cwd) is Some {
            file_name(self.cwd)
        } else {
            byte_prefix(self.id, 8)
        }
    }
}

impl CopilotSession<String> {
    /// What the session is called; nothing where it has neither a title nor a branch, its directory
    /// has no name, and its id is too short to stand for it.
    pub fn known_name(&self) -> (out: Option<String>)
        ensures
            opt_view(out) == self@.name(),
    {
        match &self.summary {
            Some(summary) => {
                let all = lines_of(&chars_of(summary));
                if all.len() > 0 {
                    assert(views(all@)[0] == all@[0]@);
                    let first = trimmed(&all[0]);
                    if first.len() > 0 {
                        return Some(string_of(first));
                    }
                }
            },
            None => {},
        }
        match &self.branch {
            Some(branch) => {
                if chars_of(branch).len() > 0 {
                    return Some(branch.clone());
                }
            },
            None => {},
        }
        match file_name_of(&self.cwd) {
            Some(name) => Some(name),
            None => match byte_prefix_of(&chars_of(&self.id), 8) {
                Some(prefix) => Some(string_of(&prefix)),
                None => None,
            },
        }
    }

    /// What the session is called: by its title, else by its branch, its directory or the start of
    /// its id.
    pub fn display_name(&self) -> (out: String)
        requires
            self@.name() is Some,
        ensures
            Some(out@) == self@.name(),
    {
        match self.known_name() {
            Some(name) => name,
            None => "".to_owned(),
        }
    }
}

/// An exchange in a session.
#[derive(Debug, PartialEq, Eq)]
pub struct Turn<T = String> {
    pub turn_index: i64,
    pub user_message: Option<T>,
    pub assistant_response: Option<T>,
    pub timestamp: T,
}

impl View for Turn<String> {
    type V = Turn<Seq<char>>;

    open spec fn view(&self) -> Turn<Seq<char>> {
        Turn {
            turn_index: self.turn_index,
            user_message: opt_view(self.user_message),
            assistant_response: opt_view(self.assistant_response),
            timestamp: self.timestamp@,
        }
    }
}

// ---------------------------------------------------------------------------
// Places
// ---------------------------------------------------------------------------
/// The directory of Copilot, under the home directory, or here where there is none.
pub fn copilot_dir(home: Option<&str>) -> (out: String)
    ensures
        out@ == joined_path(
            match home {
                Some(home) => home@,
                None => "."@,
            },
            ".copilot"@,
        ),
{
    match home {
        Some(home) => join_path(home, ".copilot"),
        None => join_path(".", ".copilot"),
    }
}

/// The directory of the sessions.
pub fn session_state_dir(copilot_dir: &str) -> (out: String)
    ensures
        out@ == joined_path(copilot_dir@, "session-state"@),
{
    join_path(copilot_dir, "session-state")
}

/// The database of the sessions.
pub fn session_db_path(copilot_dir: &str) -> (out: String)
    ensures
        out@ == joined_path(copilot_dir@, "session-store.db"@),
{
    join_path(copilot_dir, "session-store.db")
}

/// The record of what happened in a session.
pub fn event_log_path(copilot_dir: &str, session_id: &str) -> (out: String)
    ensures
        out@ == joined_path(
            joined_path(joined_path(copilot_dir@, "session-state"@), session_id@),
            "events.jsonl"@,
        ),
{
    join_path(&join_path(&session_state_dir(copilot_dir), session_id), "events.jsonl")
}

/// Where the Copilot program usually is, under the home directory.
pub fn copilot_binary(home: &str) -> (out: String)
    ensures
        out@ == joined_path(
            joined_path(
                joined_path(
                    joined_path(joined_path(home@, ".local"@), "share"@),
                    "gh"@,
                ),
                "copilot"@,
            ),
            "copilot"@,
        ),
{
    let share = join_path(&join_path(home, ".local"), "share");
    join_path(&join_path(&join_path(&share, "gh"), "copilot"), "copilot")
}

/// What stands between the directories in the value of `PATH`.
pub fn path_separator(windows: bool) -> (out: char)
    ensures
        out == if windows {
            ';'
        } else {
            ':'
        },
{
    if windows {
        ';'
    } else {
        ':'
    }
}

/// Where a program can be, by the value of `PATH` with the separator between its directories: in
/// each of them, in order.
pub fn which_in_path(path_var: &str, separator: char, name: &str) -> (out: Vec<String>)
    ensures
        views(out@) == split(path_var@, separator).map_values(
            |dir: Seq<char>| joined_path(dir, name@),
        ),
{
    let dirs = split_at_char(&chars_of(path_var), separator);
    let ghost wanted = split(path_var@, separator).map_values(
        |dir: Seq<char>| joined_path(dir, name@),
    );
    let mut out: Vec<String> = Vec::new();
    let mut i: usize = 0;
    while i < dirs.len()
        invariant
            i <= dirs.len(),
            views(dirs@) == split(path_var@, separator),
            wanted == split(path_var@, separator).map_values(
                |dir: Seq<char>| joined_path(dir, name@),
            ),
            views(out@) == wanted.take(i as int),
        decreases dirs.len() - i,
    {
        let ghost before = out@;
        assert(views(dirs@)[i as int] == dirs@[i as int]@);
        out.push(join_path(&string_of(&dirs[i]), name));
        assert(views(out@) == views(before).push(wanted[i as int]));
        i += 1;
    }
    assert(wanted.take(dirs@.len() as int) == wanted);
    out
}

// ---------------------------------------------------------------------------
// The workspace file
// ---------------------------------------------------------------------------
/// The value under a key in lines of the form `key: value`: that of the last such line.
pub open spec fn line_value(all: Seq<Seq<char>>, key: Seq<char>) -> Option<Seq<char>>
    decreases all.len(),
{
    if all.len() == 0 {
        None
    } else {
        let line = all.last();
        let colon = position(line, ':');
        if colon < line.len() && trim(line.take(colon)) == key {
            Some(trim(line.skip(colon + 1)))
        } else {
            line_value(all.drop_last(), key)
        }
    }
}

/// The value under a key in a workspace file.
pub open spec fn yaml_value(content: Seq<char>, key: Seq<char>) -> Option<Seq<char>> {
    line_value(lines(content), key)
}

/// An instant by its parts.
pub open spec fn stamp(parts: Option<(i64, u32)>) -> Option<Timestamp> {
    match parts {
        Some(parts) => Some(Timestamp { secs: parts.0, nanos: parts.1 }),
        None => None,
    }
}

/// The instant that a text names, where there is one.
pub open spec fn stamp_of(text: Option<Seq<char>>) -> Option<Timestamp> {
    match text {
        Some(text) => stamp(rfc3339_instant(text)),
        None => None,
    }
}

/// The first value, or the second where there is none.
pub open spec fn or<T>(value: Option<T>, other: T) -> T {
    match value {
        Some(value) => value,
        None => other,
    }
}

/// The session of a workspace file, with the instants that it names.
pub open spec fn workspace_view(
    content: Seq<char>,
    created: Option<Timestamp>,
    updated: Option<Timestamp>,
    now: Timestamp,
) -> Option<SessionView> {
    match yaml_value(content, "id"@) {
        None => None,
        Some(id) => Some(
            CopilotSession {
                id,
                source: SessionSource::Local,
                cwd: or(yaml_value(content, "cwd"@), "/"@),
                git_root: yaml_value(content, "git_root"@),
                repository: yaml_value(content, "repository"@),
                branch: yaml_value(content, "branch"@),
                summary: if yaml_value(content, "title"@) is Some {
                    yaml_value(content, "title"@)
                } else {
                    yaml_value(content, "summary"@)
                },
                last_agent_message: None,
                user_named: yaml_value(content, "user_named"@) == Some("true"@),
                created_at: or(created, now),
                updated_at: or(updated, or(created, now)),
                status: SessionStatus::Idle,
                remote_state: None,
                remote_url: None,
                remote_user: None,
                pull_request: None,
                remote_log: None,
            },
        ),
    }
}

fn value_in(all: &Vec<Vec<char>>, key: &str) -> (out: Option<String>)
    ensures
        opt_view(out) == line_value(views(all@), key@),
{
    let wanted = chars_of(key);
    let ghost text = views(all@);
    let mut n: usize = all.len();
    assert(text.take(text.len() as int) == text);
    while n > 0
        invariant
            n <= all.len(),
            wanted@ == key@,
            text == views(all@),
            line_value(text, key@) == line_value(text.take(n as int), key@),
        decreases n,
    {
        let line = &all[n - 1];
        assert(text.take(n as int).last() == line@);
        assert(text.take(n as int).drop_last() == text.take(n - 1));
        let colon = position_of(line, ':');
        if colon < line.len() {
            assert(line@.subrange(0, colon as int) == line@.take(colon as int));
            assert(line@.subrange(colon + 1, line@.len() as int) == line@.skip(colon + 1));
            if same_chars(trimmed(part(line, 0, colon)), &wanted) {
                return Some(string_of(trimmed(part(line, colon + 1, line.len()))));
            }
        }
        n -= 1;
    }
    None
}

fn parse_stamp(text: &Option<String>) -> (out: Option<Timestamp>)
    ensures
        out == stamp_of(opt_view(*text)),
{
    match text {
        Some(text) => match parse_rfc3339(text) {
            Some(parts) => Some(Timestamp { secs: parts.0, nanos: parts.1 }),
            None => None,
        },
        None => None,
    }
}

fn stamp_or(value: Option<Timestamp>, other: Timestamp) -> (out: Timestamp)
    ensures
        out == or(value, other),
{
    match value {
        Some(value) => value,
        None => other,
    }
}

fn workspace_of_lines(
    all: &Vec<Vec<char>>,
    created: Option<Timestamp>,
    updated: Option<Timestamp>,
    now: Timestamp,
    Ghost(content): Ghost<Seq<char>>,
) -> (out: Option<CopilotSession>)
    requires
        views(all@) == lines(content),
    ensures
        opt_view(out) == workspace_view(content, created, updated, now),
{
    let id = match value_in(all, "id") {
        Some(id) => id,
        None => {
            return None;
        },
    };
    let cwd = match value_in(all, "cwd") {
        Some(cwd) => cwd,
        None => "/".to_owned(),
    };
    let user_named = match value_in(all, "user_named") {
        Some(value) => same_text(&value, "true"),
        None => false,
    };
    let created_at = stamp_or(created, now);
    let updated_at = stamp_or(updated, created_at);
    let title = value_in(all, "title");
    let summary = if title.is_some() { title } else { value_in(all, "summary") };
    Some(
        CopilotSession {
            id,
            source: SessionSource::Local,
            cwd,
            git_root: value_in(all, "git_root"),
            repository: value_in(all, "repository"),
            branch: value_in(all, "branch"),
            summary,
            last_agent_message: None,
            user_named,
            created_at,
            updated_at,
            status: SessionStatus::Idle,
            remote_state: None,
            remote_url: None,
            remote_user: None,
            pull_request: None,
            remote_log: None,
        },
    )
}

/// The session of a workspace file, with the instants that it names. Where it names none, the
/// session was created now, and last changed when it was created.
pub fn workspace_session(
    content: &str,
    created: Option<Timestamp>,
    updated: Option<Timestamp>,
    now: Timestamp,
) -> (out: Option<CopilotSession>)
    ensures
        opt_view(out) == workspace_view(content@, created, updated, now),
{
    workspace_of_lines(&lines_of(&chars_of(content)), created, updated, now, Ghost(content@))
}

/// The session of a workspace file; nothing where it names no id.
pub fn parse_workspace_yaml(content: &str, now: Timestamp) -> (out: Option<CopilotSession>)
    ensures
        opt_view(out) == workspace_view(
            content@,
            stamp_of(yaml_value(content@, "created_at"@)),
            stamp_of(yaml_value(content@, "updated_at"@)),
            now,
        ),
{
    let all = lines_of(&chars_of(content));
    let created = parse_stamp(&value_in(&all, "created_at"));
    let updated = parse_stamp(&value_in(&all, "updated_at"));
    workspace_of_lines(&all, created, updated, now, Ghost(content@))
}

/// A title in the workspace file names the session, whatever else is known of it.
pub proof fn title_names_the_session(
    content: Seq<char>,
    created: Option<Timestamp>,
    updated: Option<Timestamp>,
    now: Timestamp,
)
    requires
        yaml_value(content, "id"@) is Some,
        yaml_value(content, "title"@) is Some,
        first_line(yaml_value(content, "title"@)->0).len() > 0,
    ensures
        workspace_view(content, created, updated, now)->0.name() == Some(
            first_line(yaml_value(content, "title"@)->0),
        ),
{
}


// ---------------------------------------------------------------------------
// Remote agent tasks
// ---------------------------------------------------------------------------
/// A JSON value as a text: a text that is not empty, a number, or of an object the first of its
/// usual entries that is one.
pub open spec fn json_text(value: JsonView) -> Option<Seq<char>>
    decreases value,
{
    match value {
        JsonView::Text(text) => if text.len() > 0 {
            Some(text)
        } else {
            None
        },
        JsonView::Number(number) => Some(number),
        JsonView::Object(fields) => {
            let a = entry_place(fields, "login"@);
            let b = entry_place(fields, "name"@);
            let c = entry_place(fields, "nameWithOwner"@);
            let d = entry_place(fields, "url"@);
            if 0 <= a < fields.len() && json_text(fields[a].1) is Some {
                json_text(fields[a].1)
            } else if 0 <= b < fields.len() && json_text(fields[b].1) is Some {
                json_text(fields[b].1)
            } else if 0 <= c < fields.len() && json_text(fields[c].1) is Some {
                json_text(fields[c].1)
            } else if 0 <= d < fields.len() {
                json_text(fields[d].1)
            } else {
                None
            }
        },
        _ => None,
    }
}

/// The value under a key as a text, where there is one.
pub open spec fn text_under(value: JsonView, key: Seq<char>) -> Option<Seq<char>> {
    match value.get(key) {
        Some(value) => json_text(value),
        None => None,
    }
}

fn text_of_json(value: &Json) -> (out: Option<String>)
    ensures
        opt_view(out) == json_text(value@),
    decreases value,
{
    match value {
        Json::Text(text) => if chars_of(text).len() > 0 {
            Some(text.clone())
        } else {
            None
        },
        Json::Number(number) => Some(number.clone()),
        Json::Object(_) => {
            match value.get("login") {
                Some(entry) => {
                    let text = text_of_json(entry);
                    if text.is_some() {
                        return text;
                    }
                },
                None => {},
            }
            match value.get("name") {
                Some(entry) => {
                    let text = text_of_json(entry);
                    if text.is_some() {
                        return text;
                    }
                },
                None => {},
            }
            match value.get("nameWithOwner") {
                Some(entry) => {
                    let text = text_of_json(entry);
                    if text.is_some() {
                        return text;
                    }
                },
                None => {},
            }
            match value.get("url") {
                Some(entry) => text_of_json(entry),
                None => None,
            }
        },
        _ => None,
    }
}

/// The value as a text, where there is one.
pub fn value_text(value: Option<&Json>) -> (out: Option<String>)
    ensures
        opt_view(out) == (match opt_json(value) {
            Some(value) => json_text(value),
            None => None,
        }),
{
    match value {
        Some(value) => text_of_json(value),
        None => None,
    }
}

/// A pull request in words: its number, its title and its state, as far as they are there.
pub open spec fn pull_request_text(
    number: Option<Seq<char>>,
    title: Option<Seq<char>>,
    state: Option<Seq<char>>,
) -> Option<Seq<char>> {
    match number {
        None => None,
        Some(number) => Some(
            "#"@ + number + (match title {
                Some(title) => " "@ + title,
                None => ""@,
            }) + (match state {
                Some(state) => " ("@ + state + ")"@,
                None => ""@,
            }),
        ),
    }
}

/// A pull request in words: its number, its title and its state, as far as they are there.
pub fn format_pull_request(
    number: Option<String>,
    title: Option<String>,
    state: Option<String>,
) -> (out: Option<String>)
    ensures
        opt_view(out) == pull_request_text(opt_view(number), opt_view(title), opt_view(state)),
{
    let number = match number {
        Some(number) => number,
        None => {
            return None;
        },
    };
    let title = match title {
        Some(title) => concat(" ", &title),
        None => "".to_owned(),
    };
    let state = match state {
        Some(state) => concat(&concat(" (", &state), ")"),
        None => "".to_owned(),
    };
    Some(concat(&concat(&concat("#", &number), &title), &state))
}

/// What a task in the given state is doing.
pub open spec fn state_status(state: Option<Seq<char>>) -> SessionStatus {
    let word = lowered(or(state, ""@));
    if word == "queued"@ || word == "pending"@ || word == "waiting"@ {
        SessionStatus::Waiting
    } else if word == "in_progress"@ || word == "in-progress"@ || word == "running"@ || word
        == "started"@ {
        SessionStatus::Running
    } else if word == "failed"@ || word == "failure"@ || word == "error"@ || word == "errored"@
        || word == "cancelled"@ || word == "canceled"@ || word == "timed_out"@ {
        SessionStatus::Error
    } else {
        SessionStatus::Idle
    }
}

/// What a task in the given state is doing.
pub fn remote_status(state: Option<&str>) -> (out: SessionStatus)
    ensures
        out == state_status(opt_str(state)),
{
    let text = match state {
        Some(state) => state,
        None => "",
    };
    let word = string_of(&lowered_of(&chars_of(text)));
    if same_text(&word, "queued") || same_text(&word, "pending") || same_text(&word, "waiting") {
        SessionStatus::Waiting
    } else if same_text(&word, "in_progress") || same_text(&word, "in-progress") || same_text(
        &word,
        "running",
    ) || same_text(&word, "started") {
        SessionStatus::Running
    } else if same_text(&word, "failed") || same_text(&word, "failure") || same_text(&word, "error")
        || same_text(&word, "errored") || same_text(&word, "cancelled") || same_text(
        &word,
        "canceled",
    ) || same_text(&word, "timed_out") {
        SessionStatus::Error
    } else {
        SessionStatus::Idle
    }
}

/// The address of a task, where its repository, its pull request and its id are known.
pub open spec fn task_address(
    repository: Option<Seq<char>>,
    number: Option<Seq<char>>,
    id: Seq<char>,
) -> Option<Seq<char>> {
    if repository is None || number is None {
        None
    } else {
        let slash = position(repository->0, '/');
        let owner = repository->0.take(slash);
        let repo = repository->0.skip(slash + 1);
        if slash >= repository->0.len() || owner.len() == 0 || repo.len() == 0 || number->0.len()
            == 0 || id.len() == 0 {
            None
        } else {
            Some(
                "https://github.com/"@ + owner + "/"@ + repo + "/pull/"@ + number->0
                    + "/agent-sessions/"@ + id,
            )
        }
    }
}

/// The address of a task, where its repository, its pull request and its id are known.
pub fn remote_task_url(
    repository: Option<&str>,
    pull_request_number: Option<&str>,
    id: &str,
) -> (out: Option<String>)
    ensures
        opt_view(out) == task_address(opt_str(repository), opt_str(pull_request_number), id@),
{
    let repository = match repository {
        Some(repository) => repository,
        None => {
            return None;
        },
    };
    let number = match pull_request_number {
        Some(number) => number,
        None => {
            return None;
        },
    };
    let s = chars_of(repository);
    let slash = position_of(&s, '/');
    if slash >= s.len() {
        return None;
    }
    assert(s@.subrange(0, slash as int) == s@.take(slash as int));
    assert(s@.subrange(slash + 1, s@.len() as int) == s@.skip(slash + 1));
    let owner = part(&s, 0, slash);
    let repo = part(&s, slash + 1, s.len());
    if owner.len() == 0 || repo.len() == 0 || chars_of(number).len() == 0 || chars_of(id).len()
        == 0 {
        return None;
    }
    let start = concat(&concat("https://github.com/", &string_of(owner)), "/");
    let middle = concat(&concat(&concat(&start, &string_of(repo)), "/pull/"), number);
    Some(concat(&concat(&middle, "/agent-sessions/"), id))
}

/// The number of a pull request in its address: what follows `/pull/`, up to the next slash.
pub open spec fn number_in_url(url: Seq<char>) -> Option<Seq<char>> {
    match find(url, "/pull/"@) {
        Some(place) => {
            let rest = url.skip(place + "/pull/"@.len());
            let number = rest.take(position(rest, '/'));
            if number.len() > 0 {
                Some(number)
            } else {
                None
            }
        },
        None => None,
    }
}

/// The number of a pull request in its address.
pub fn pull_request_number_from_url(url: &str) -> (out: Option<String>)
    ensures
        opt_view(out) == number_in_url(url@),
{
    let s = chars_of(url);
    let mark = chars_of("/pull/");
    let place = match find_chars(&s, &mark, 0) {
        Some(place) => place,
        None => {
            return None;
        },
    };
    proof {
        find_from_is_first(s@, "/pull/"@, 0);
        assert(occurs(s@, mark@, place as int));
        assert(s.len() == s@.len());
    }
    let from: usize = place + mark.len();
    assert(s@.subrange(from as int, s@.len() as int) == s@.skip(from as int));
    let rest = part(&s, from, s.len());
    let end = position_of(rest, '/');
    assert(rest@.subrange(0, end as int) == rest@.take(end as int));
    if end == 0 {
        return None;
    }
    Some(string_of(part(rest, 0, end)))
}

/// Where tasks without a repository are shown.
pub const REMOTE_AGENT_GROUP: &'static str = "Remote agent tasks";

/// The first text, or the second where there is none.
pub open spec fn either(a: Option<Seq<char>>, b: Option<Seq<char>>) -> Option<Seq<char>> {
    if a is Some {
        a
    } else {
        b
    }
}

/// The number of the pull request of a task.
pub open spec fn task_number(task: JsonView) -> Option<Seq<char>> {
    either(
        text_under(task, "pullRequestNumber"@),
        match text_under(task, "pullRequestUrl"@) {
            Some(url) => number_in_url(url),
            None => None,
        },
    )
}

/// When a task was last changed, as it says: when it was changed, or when it was completed.
pub open spec fn task_updated(task: JsonView) -> Option<Seq<char>> {
    either(text_under(task, "updatedAt"@), text_under(task, "completedAt"@))
}

/// The pull request of a task in words.
pub open spec fn task_pull_request(task: JsonView) -> Option<Seq<char>> {
    pull_request_text(
        text_under(task, "pullRequestNumber"@),
        text_under(task, "pullRequestTitle"@),
        text_under(task, "pullRequestState"@),
    )
}

/// The session of a remote task, with the instants that it names.
pub open spec fn task_view(
    task: JsonView,
    created: Option<Timestamp>,
    updated: Option<Timestamp>,
    now: Timestamp,
) -> Option<SessionView> {
    match text_under(task, "id"@) {
        None => None,
        Some(id) => {
            let repository = text_under(task, "repository"@);
            let state = text_under(task, "state"@);
            let pull_request = task_pull_request(task);
            Some(
                CopilotSession {
                    id,
                    source: SessionSource::Remote,
                    cwd: or(repository, REMOTE_AGENT_GROUP@),
                    git_root: None,
                    repository,
                    branch: None,
                    summary: text_under(task, "name"@),
                    last_agent_message: either(
                        pull_request,
                        match state {
                            Some(state) => Some("Remote agent task ("@ + state + ")"@),
                            None => None,
                        },
                    ),
                    user_named: false,
                    created_at: or(created, now),
                    updated_at: or(updated, or(created, now)),
                    status: state_status(state),
                    remote_state: state,
                    remote_url: task_address(repository, task_number(task), id),
                    remote_user: text_under(task, "user"@),
                    pull_request,
                    remote_log: None,
                },
            )
        },
    }
}

fn borrowed(text: &Option<String>) -> (out: Option<&str>)
    ensures
        opt_str(out) == opt_view(*text),
{
    match text {
        Some(text) => Some(text.as_str()),
        None => None,
    }
}

/// The session of a remote task, with the instants that it names. Where it names none, the task was
/// created now, and last changed when it was created.
pub fn remote_task(
    task: &Json,
    created: Option<Timestamp>,
    updated: Option<Timestamp>,
    now: Timestamp,
) -> (out: Option<CopilotSession>)
    ensures
        opt_view(out) == task_view(task@, created, updated, now),
{
    let id = match value_text(task.get("id")) {
        Some(id) => id,
        None => {
            return None;
        },
    };
    let repository = value_text(task.get("repository"));
    let state = value_text(task.get("state"));
    let created_at = stamp_or(created, now);
    let updated_at = stamp_or(updated, created_at);
    let pull_request = format_pull_request(
        value_text(task.get("pullRequestNumber")),
        value_text(task.get("pullRequestTitle")),
        value_text(task.get("pullRequestState")),
    );
    let description = match &pull_request {
        Some(text) => Some(text.clone()),
        None => match &state {
            Some(state) => Some(concat(&concat("Remote agent task (", state), ")")),
            None => None,
        },
    };
    let own_number = value_text(task.get("pullRequestNumber"));
    let number = if own_number.is_some() {
        own_number
    } else {
        match value_text(task.get("pullRequestUrl")) {
            Some(url) => pull_request_number_from_url(&url),
            None => None,
        }
    };
    let remote_url = remote_task_url(borrowed(&repository), borrowed(&number), &id);
    let cwd = match &repository {
        Some(repository) => repository.clone(),
        None => REMOTE_AGENT_GROUP.to_owned(),
    };
    let status = remote_status(borrowed(&state));
    Some(
        CopilotSession {
            id,
            source: SessionSource::Remote,
            cwd,
            git_root: None,
            repository,
            branch: None,
            summary: value_text(task.get("name")),
            last_agent_message: description,
            user_named: false,
            created_at,
            updated_at,
            status,
            remote_state: state,
            remote_url,
            remote_user: value_text(task.get("user")),
            pull_request,
            remote_log: None,
        },
    )
}

/// The session of a remote task; nothing where it has no id.
pub open spec fn parsed_task(task: JsonView, now: Timestamp) -> Option<SessionView> {
    task_view(
        task,
        stamp_of(text_under(task, "createdAt"@)),
        stamp_of(task_updated(task)),
        now,
    )
}

/// The session of a remote task; nothing where it has no id.
pub fn remote_task_from_json(task: &Json, now: Timestamp) -> (out: Option<CopilotSession>)
    ensures
        opt_view(out) == parsed_task(task@, now),
{
    let created = parse_stamp(&value_text(task.get("createdAt")));
    let changed = value_text(task.get("updatedAt"));
    let last = if changed.is_some() { changed } else { value_text(task.get("completedAt")) };
    let updated = parse_stamp(&last);
    remote_task(task, created, updated, now)
}

/// The sessions of remote tasks.
pub open spec fn parsed_tasks(tasks: Seq<JsonView>, now: Timestamp) -> Seq<SessionView>
    decreases tasks.len(),
{
    if tasks.len() == 0 {
        seq![]
    } else {
        match parsed_task(tasks.last(), now) {
            Some(session) => parsed_tasks(tasks.drop_last(), now).push(session),
            None => parsed_tasks(tasks.drop_last(), now),
        }
    }
}

/// The sessions in a list of remote tasks; none where it is no list.
pub open spec fn listed_sessions(tasks: Option<JsonView>, now: Timestamp) -> Seq<SessionView> {
    match tasks {
        Some(JsonView::Array(items)) => parsed_tasks(items, now),
        _ => seq![],
    }
}

/// The sessions in a list of remote tasks; none where it is no list.
pub fn sessions_of_tasks(tasks: &Json, now: Timestamp) -> (out: Vec<CopilotSession>)
    ensures
        views(out@) == listed_sessions(Some(tasks@), now),
{
    let mut out: Vec<CopilotSession> = Vec::new();
    match tasks {
        Json::Array(items) => {
            let ghost all = tasks@->Array_0;
            let mut i: usize = 0;
            while i < items.len()
                invariant
                    i <= items.len(),
                    all.len() == items@.len(),
                    forall|k: int| 0 <= k < items@.len() ==> all[k] == #[trigger] items@[k]@,
                    views(out@) == parsed_tasks(all.take(i as int), now),
                decreases items.len() - i,
            {
                assert(all.take(i + 1).drop_last() == all.take(i as int));
                assert(all.take(i + 1).last() == items@[i as int]@);
                match remote_task_from_json(&items[i], now) {
                    Some(session) => {
                        let ghost before = out@;
                        out.push(session);
                        assert(views(out@) == views(before).push(session@));
                    },
                    None => {},
                }
                i += 1;
            }
            assert(all.take(items@.len() as int) == all);
        },
        _ => {},
    }
    out
}

/// The sessions of the remote tasks in what a run of the list printed; none where it failed.
pub fn load_remote_agent_tasks(success: bool, stdout: &[u8], now: Timestamp) -> (out: Vec<
    CopilotSession,
>)
    ensures
        views(out@) == if success {
            listed_sessions(json_of_bytes(stdout@), now)
        } else {
            seq![]
        },
{
    if success {
        match parse_json_bytes(stdout) {
            Some(tasks) => {
                return sessions_of_tasks(&tasks, now);
            },
            None => {},
        }
    }
    let out: Vec<CopilotSession> = Vec::new();
    assert(views(out@) == Seq::<SessionView>::empty());
    out
}

/// The arguments of `gh` that list the remote tasks.
pub fn list_args() -> (out: Vec<String>)
    ensures
        views(out@) == seq![
            "agent-task"@,
            "list"@,
            "--json"@,
            "completedAt,createdAt,id,name,pullRequestNumber,pullRequestState,pullRequestTitle,pullRequestUrl,repository,state,updatedAt,user"@,
            "--limit"@,
            "100"@,
        ],
{
    let words: Vec<&str> = vec![
        "agent-task",
        "list",
        "--json",
        "completedAt,createdAt,id,name,pullRequestNumber,pullRequestState,pullRequestTitle,pullRequestUrl,repository,state,updatedAt,user",
        "--limit",
        "100",
    ];
    assert(views(words@) == seq![
        "agent-task"@,
        "list"@,
        "--json"@,
        "completedAt,createdAt,id,name,pullRequestNumber,pullRequestState,pullRequestTitle,pullRequestUrl,repository,state,updatedAt,user"@,
        "--limit"@,
        "100"@,
    ]);
    texts_of(&words)
}


// ---------------------------------------------------------------------------
// What a session is doing
// ---------------------------------------------------------------------------
/// The names of Copilot's tmux sessions among the lines of a list.
pub open spec fn copilot_names(text: Seq<char>) -> Set<Seq<char>> {
    Set::new(
        |name: Seq<char>| lines(text).contains(name) && starts(name, TMUX_SESSION_PREFIX@),
    )
}

/// The names of Copilot's tmux sessions among the lines of a list.
pub fn listed_names(text: &str) -> (out: TextSet)
    ensures
        out@ == copilot_names(text@),
{
    let all = lines_of(&chars_of(text));
    let ghost names = lines(text@);
    let mut out = TextSet::new();
    let mut i: usize = 0;
    while i < all.len()
        invariant
            i <= all.len(),
            names == lines(text@),
            views(all@) == names,
            forall|name: Seq<char>| #[trigger]
                out@.contains(name) <==> names.take(i as int).contains(name) && starts(
                    name,
                    TMUX_SESSION_PREFIX@,
                ),
        decreases all.len() - i,
    {
        let ghost line = all@[i as int]@;
        assert(names[i as int] == line);
        assert(names.take(i + 1) == names.take(i as int).push(line));
        assert forall|name: Seq<char>| names.take(i + 1).contains(name) <==> (names.take(
            i as int,
        ).contains(name) || name == line) by {
            if names.take(i as int).contains(name) {
                let k = names.take(i as int).index_of(name);
                assert(names.take(i + 1)[k] == name);
            }
            assert(names.take(i + 1)[i as int] == line);
        }
        if starts_with(&all[i], TMUX_SESSION_PREFIX) {
            let _ = out.insert(&string_of(&all[i]));
        }
        i += 1;
    }
    assert(names.take(all@.len() as int) == names);
    assert(out@ == copilot_names(text@));
    out
}

/// The names of Copilot's tmux sessions in what a list of sessions printed; none where it failed.
pub fn active_tmux_session_names(success: bool, stdout: &[u8]) -> (out: TextSet)
    ensures
        out@ == if success {
            copilot_names(lossy_text(stdout@))
        } else {
            Set::empty()
        },
{
    if success {
        listed_names(&decode_lossy(stdout))
    } else {
        TextSet::new()
    }
}

/// The arguments of tmux that list the names of its sessions.
pub fn list_names_args() -> (out: Vec<String>)
    ensures
        views(out@) == seq!["list-sessions"@, "-F"@, "#{session_name}"@],
{
    let words: Vec<&str> = vec!["list-sessions", "-F", "#{session_name}"];
    assert(views(words@) == seq!["list-sessions"@, "-F"@, "#{session_name}"@]);
    texts_of(&words)
}

/// There is a message that nothing was answered to.
pub open spec fn awaits_response(message: Seq<char>, response: Option<Seq<char>>) -> bool {
    trim(message).len() > 0 && trim(or(response, ""@)).len() == 0
}

/// Whether there is a message that nothing was answered to.
pub fn is_awaiting_response(user_message: &str, assistant_response: &Option<String>) -> (yes: bool)
    ensures
        yes == awaits_response(user_message@, opt_view(*assistant_response)),
{
    let answered = match assistant_response {
        Some(response) => trimmed(&chars_of(response)).len() > 0,
        None => {
            proof {
                trim_start_is_tail(""@);
                trim_end_is_head(trim_start(""@));
                reveal_strlit("");
            }
            false
        },
    };
    trimmed(&chars_of(user_message)).len() > 0 && !answered
}

/// A response speaks of an error.
pub open spec fn speaks_of_error(response: Seq<char>) -> bool {
    let text = lowered(response);
    mentions(text, "something went wrong"@) || mentions(text, "encountered an error"@) || mentions(
        text,
        "fatal error:"@,
    ) || mentions(text, "panic:"@)
}

/// Whether a response speaks of an error.
pub fn response_indicates_error(response: &str) -> (yes: bool)
    ensures
        yes == speaks_of_error(response@),
{
    let text = lowered_of(&chars_of(response));
    contains(&text, "something went wrong") || contains(&text, "encountered an error") || contains(
        &text,
        "fatal error:",
    ) || contains(&text, "panic:")
}

/// The last exchange of a session: the message and the response, as far as they are there.
#[derive(Debug, PartialEq, Eq)]
pub struct LatestTurn<T = String> {
    pub user_message: Option<T>,
    pub assistant_response: Option<T>,
}

impl View for LatestTurn<String> {
    type V = LatestTurn<Seq<char>>;

    open spec fn view(&self) -> LatestTurn<Seq<char>> {
        LatestTurn {
            user_message: opt_view(self.user_message),
            assistant_response: opt_view(self.assistant_response),
        }
    }
}

/// What a session that is open is doing, by its last exchange.
pub open spec fn turn_status(latest: Option<LatestTurn<Seq<char>>>) -> SessionStatus {
    match latest {
        None => SessionStatus::Waiting,
        Some(turn) => if turn.assistant_response is Some && speaks_of_error(
            turn.assistant_response->0,
        ) {
            SessionStatus::Error
        } else if turn.user_message is Some && awaits_response(
            turn.user_message->0,
            turn.assistant_response,
        ) {
            SessionStatus::Running
        } else {
            SessionStatus::Waiting
        },
    }
}

/// What a session is doing: nothing where it is not open; else what its events say, and where they
/// say nothing, what its last exchange says.
pub open spec fn observed_status(
    open: bool,
    events: Option<SessionStatus>,
    latest: Option<LatestTurn<Seq<char>>>,
) -> SessionStatus {
    if !open {
        SessionStatus::Idle
    } else if events is Some {
        events->0
    } else {
        turn_status(latest)
    }
}

/// Whether a session is open in tmux.
pub fn is_open(session_id: &str, millis: u128, active: &TextSet) -> (yes: bool)
    ensures
        yes == active@.contains(session_name(session_id@, millis as nat)),
{
    active.contains(&tmux_session_name(session_id, millis))
}

/// What a session is doing, by the tmux sessions that are there, its events and its last exchange.
pub fn detect_session_status(
    session_id: &str,
    millis: u128,
    active: &TextSet,
    events: Option<SessionStatus>,
    latest: &Option<LatestTurn>,
) -> (out: SessionStatus)
    ensures
        out == observed_status(
            active@.contains(session_name(session_id@, millis as nat)),
            events,
            opt_view(*latest),
        ),
{
    if !is_open(session_id, millis, active) {
        return SessionStatus::Idle;
    }
    match events {
        Some(status) => {
            return status;
        },
        None => {},
    }
    match latest {
        None => SessionStatus::Waiting,
        Some(turn) => {
            match &turn.assistant_response {
                Some(response) => {
                    if response_indicates_error(response) {
                        return SessionStatus::Error;
                    }
                },
                None => {},
            }
            match &turn.user_message {
                Some(message) => {
                    if is_awaiting_response(message, &turn.assistant_response) {
                        return SessionStatus::Running;
                    }
                },
                None => {},
            }
            SessionStatus::Waiting
        },
    }
}

/// A session that is not open is idle, whatever was recorded of it.
pub proof fn closed_session_is_idle(
    events: Option<SessionStatus>,
    latest: Option<LatestTurn<Seq<char>>>,
)
    ensures
        observed_status(false, events, latest) == SessionStatus::Idle,
{
}

// ---------------------------------------------------------------------------
// The list of sessions
// ---------------------------------------------------------------------------
/// The session, unless it was last used more than seven days ago.
pub fn recent_session(session: CopilotSession, now: Timestamp) -> (out: Option<CopilotSession>)
    ensures
        opt_view(out) == if session@.updated_at.is_stale(now) {
            None
        } else {
            Some(session@)
        },
        session@.updated_at.nanos < 1_000_000_000 && now.nanos < 1_000_000_000 ==> (out is Some
            <==> now.secs * 1_000_000_000 + now.nanos <= session@.updated_at.secs * 1_000_000_000
            + session@.updated_at.nanos + 7 * 24 * 60 * 60 * 1_000_000_000),
{
    if session.updated_at.stale(now) {
        None
    } else {
        Some(session)
    }
}

/// A session with what is known of it beside its workspace file.
pub open spec fn enriched(
    session: SessionView,
    summary: Option<Seq<char>>,
    message: Option<Seq<char>>,
    status: SessionStatus,
) -> SessionView {
    CopilotSession {
        summary: if session.summary is Some || summary is None || summary->0.len() == 0 {
            session.summary
        } else {
            summary
        },
        last_agent_message: if message is Some && trim(message->0).len() > 0 {
            message
        } else {
            None
        },
        status,
        ..session
    }
}

/// Adds to a session what is known of it beside its workspace file: the recorded summary, where it
/// has none of its own, the last response, where it holds something, and what it is doing.
pub fn enrich(
    session: CopilotSession,
    summary: Option<String>,
    message: Option<String>,
    status: SessionStatus,
) -> (out: CopilotSession)
    ensures
        out@ == enriched(session@, opt_view(summary), opt_view(message), status),
{
    let mut out = session;
    if out.summary.is_none() {
        match summary {
            Some(text) => {
                if chars_of(&text).len() > 0 {
                    out.summary = Some(text);
                }
            },
            None => {},
        }
    }
    out.last_agent_message = match message {
        Some(text) => if trimmed(&chars_of(&text)).len() > 0 {
            Some(text)
        } else {
            None
        },
        None => None,
    };
    out.status = status;
    out
}

/// The title of a workspace file outweighs the recorded summary.
pub proof fn workspace_title_outweighs_the_summary(
    session: SessionView,
    summary: Option<Seq<char>>,
    message: Option<Seq<char>>,
    status: SessionStatus,
)
    requires
        session.title() is Some,
    ensures
        enriched(session, summary, message, status).name() == session.title(),
{
}

impl Ranked for CopilotSession<String> {
    open spec fn before(self, other: Self) -> bool {
        other.updated_at.is_earlier(self.updated_at)
    }

    proof fn before_is_asymmetric(a: Self, b: Self) {
    }

    proof fn not_before_chains(a: Self, b: Self, c: Self) {
    }

    fn is_before(&self, other: &Self) -> (yes: bool) {
        other.updated_at.earlier(self.updated_at)
    }
}

/// The order of a list of sessions: the one that changed last comes first.
pub open spec fn newest_first() -> spec_fn(SessionView, SessionView) -> bool {
    |a: SessionView, b: SessionView| b.updated_at.is_earlier(a.updated_at)
}

/// The list of sessions: the local ones and the remote ones, the one that changed last first.
pub fn load_sessions(local: Vec<CopilotSession>, remote: Vec<CopilotSession>) -> (out: Vec<
    CopilotSession,
>)
    ensures
        sorted_by(views(local@) + views(remote@), views(out@), newest_first()),
{
    let ghost all = local@ + remote@;
    let mut out = local;
    let mut rest = remote;
    out.append(&mut rest);
    assert(out@ == all);
    sort(&mut out);
    proof {
        rank_sorts_views(all, out@, newest_first());
        assert(views(all) == views(local@) + views(remote@));
    }
    out
}

/// A session with a new status; that of a remote one is not looked up here.
pub open spec fn restated(session: SessionView, status: SessionStatus) -> SessionView {
    if session.source == SessionSource::Remote {
        session
    } else {
        CopilotSession { status, ..session }
    }
}

/// Gives the local sessions the statuses that were found for them.
pub fn refresh_session_statuses(sessions: &mut Vec<CopilotSession>, statuses: &Vec<SessionStatus>)
    requires
        old(sessions)@.len() == statuses@.len(),
    ensures
        final(sessions)@.len() == old(sessions)@.len(),
        forall|i: int|
            0 <= i < statuses@.len() ==> (#[trigger] final(sessions)@[i])@ == restated(
                old(sessions)@[i]@,
                statuses@[i],
            ),
{
    let mut i: usize = 0;
    while i < sessions.len()
        invariant
            i <= sessions.len(),
            sessions@.len() == old(sessions)@.len(),
            sessions@.len() == statuses@.len(),
            forall|k: int|
                0 <= k < i ==> (#[trigger] sessions@[k])@ == restated(
                    old(sessions)@[k]@,
                    statuses@[k],
                ),
            forall|k: int| i <= k < sessions@.len() ==> sessions@[k] == old(sessions)@[k],
        decreases sessions.len() - i,
    {
        if sessions[i].source != SessionSource::Remote {
            sessions[i].status = statuses[i];
        }
        i += 1;
    }
}

// ---------------------------------------------------------------------------
// The database
// ---------------------------------------------------------------------------
/// Reads the exchanges of a session, in order.
pub const LOAD_TURNS: &'static str =
    "SELECT turn_index, user_message, assistant_response, timestamp FROM turns WHERE session_id = ? ORDER BY turn_index ASC";

/// Reads the recorded summary of a session.
pub const LOAD_SUMMARY: &'static str = "SELECT summary FROM sessions WHERE id = ?";

/// Reads the last response in a session.
pub const LOAD_LAST_MESSAGE: &'static str =
    "SELECT assistant_response FROM turns WHERE session_id = ? AND assistant_response IS NOT NULL AND assistant_response != '' ORDER BY turn_index DESC LIMIT 1";

/// Reads the last exchange of a session.
pub const LOAD_LATEST_TURN: &'static str =
    "SELECT user_message, assistant_response FROM turns WHERE session_id = ? ORDER BY turn_index DESC LIMIT 1";

// ---------------------------------------------------------------------------
// What holds of sessions
// ---------------------------------------------------------------------------
/// Each status has a word of its own, which tells it.
pub proof fn words_tell_the_status(status: SessionStatus)
    ensures
        label_text(status) == "Running"@ <==> status is Running,
        label_text(status) == "Waiting"@ <==> status is Waiting,
        label_text(status) == "Idle"@ <==> status is Idle,
        label_text(status) == "Error"@ <==> status is Error,
{
    reveal_strlit("Running");
    reveal_strlit("Waiting");
    reveal_strlit("Idle");
    reveal_strlit("Error");
    assert("Running"@[0] == 'R');
    assert("Waiting"@[0] == 'W');
    assert("Idle"@[0] == 'I');
    assert("Error"@[0] == 'E');
}

/// Instants are ordered as their nanoseconds since the epoch are, and one is stale where more than
/// seven days of them have passed.
pub proof fn instants_are_ordered_by_time(a: Timestamp, b: Timestamp)
    requires
        a.nanos < 1_000_000_000,
        b.nanos < 1_000_000_000,
    ensures
        a.is_earlier(b) <==> a.secs * 1_000_000_000 + a.nanos < b.secs * 1_000_000_000 + b.nanos,
        a.is_stale(b) <==> a.secs * 1_000_000_000 + a.nanos + 7 * 24 * 60 * 60 * 1_000_000_000
            < b.secs * 1_000_000_000 + b.nanos,
{
}

/// Instants, leap seconds among them, stand in one order.
pub proof fn instants_stand_in_one_order(a: Timestamp, b: Timestamp, c: Timestamp)
    ensures
        a == b || a.is_earlier(b) || b.is_earlier(a),
        !(a.is_earlier(b) && b.is_earlier(a)),
        a.is_earlier(b) && b.is_earlier(c) ==> a.is_earlier(c),
        a.is_earlier(b) && b.is_stale(c) ==> a.is_stale(c),
        a.is_stale(b) ==> a.is_earlier(b),
{
}

/// A session is called by the first line of its summary. Where that holds nothing it is called by
/// its branch, where it has none by the name of its directory, and where that has none by the first
/// eight characters of its id, if these take a byte each.
pub proof fn session_is_called_by_what_is_known(session: SessionView, heading: Seq<char>)
    requires
        match session.summary {
            Some(summary) => if lines(summary).len() == 0 {
                heading.len() == 0
            } else {
                heading == trim(lines(summary)[0])
            },
            None => heading.len() == 0,
        },
    ensures
        heading.len() > 0 ==> session.name() == Some(heading),
        heading.len() == 0 ==> match session.branch {
            Some(branch) => branch.len() > 0 ==> session.name() == Some(branch),
            None => true,
        },
        heading.len() == 0 && (session.branch is None || session.branch->0.len() == 0)
            && file_name(session.cwd) is Some ==> session.name() == file_name(session.cwd),
        heading.len() == 0 && (session.branch is None || session.branch->0.len() == 0) && file_name(
            session.cwd,
        ) is None && (forall|i: int|
            0 <= i < session.id.len() ==> (#[trigger] session.id[i] as u32) < 0x80)
            ==> session.name() == if session.id.len() >= 8 {
            Some(session.id.take(8))
        } else {
            None
        },
{
    if forall|i: int| 0 <= i < session.id.len() ==> (#[trigger] session.id[i] as u32) < 0x80 {
        plain_bytes_are_characters(session.id, 8);
    }
}

proof fn plain_bytes_are_characters(s: Seq<char>, n: nat)
    requires
        forall|i: int| 0 <= i < s.len() ==> (#[trigger] s[i] as u32) < 0x80,
    ensures
        byte_prefix(s, n) == if s.len() >= n {
            Some(s.take(n as int))
        } else {
            None
        },
    decreases s.len(),
{
    if n == 0 {
        assert(s.take(0) == Seq::<char>::empty());
    } else if s.len() > 0 {
        assert((s[0] as u32) < 0x80);
        assert forall|i: int| 0 <= i < s.skip(1).len() implies (#[trigger] s.skip(1)[i] as u32)
            < 0x80 by {
            assert(s.skip(1)[i] == s[i + 1]);
        }
        plain_bytes_are_characters(s.skip(1), (n - 1) as nat);
        if s.len() >= n {
            assert(seq![s[0]] + s.skip(1).take(n - 1) == s.take(n as int));
        }
    }
}

/// The line gives a value to a key: the key stands before its first colon, the value behind it.
pub open spec fn gives(line: Seq<char>, key: Seq<char>, value: Seq<char>) -> bool {
    exists|colon: int|
        0 <= colon < line.len() && #[trigger] line[colon] == ':' && (forall|j: int|
            0 <= j < colon ==> line[j] != ':') && trim(line.take(colon)) == key && trim(
            line.skip(colon + 1),
        ) == value
}

/// The line gives some value to the key.
pub open spec fn speaks_of(line: Seq<char>, key: Seq<char>) -> bool {
    exists|value: Seq<char>| gives(line, key, value)
}

/// The text says the value of a key: its last line that gives it one, or none where no line does.
pub open spec fn says(content: Seq<char>, key: Seq<char>, value: Option<Seq<char>>) -> bool {
    match value {
        Some(value) => exists|i: int|
            0 <= i < lines(content).len() && gives(#[trigger] lines(content)[i], key, value) && (
            forall|j: int| i < j < lines(content).len() ==> !speaks_of(lines(content)[j], key)),
        None => forall|i: int|
            0 <= i < lines(content).len() ==> !speaks_of(#[trigger] lines(content)[i], key),
    }
}

proof fn line_gives_what_follows_its_colon(line: Seq<char>, key: Seq<char>)
    ensures
        ({
            let colon = position(line, ':');
            if colon < line.len() && trim(line.take(colon)) == key {
                gives(line, key, trim(line.skip(colon + 1)))
            } else {
                !speaks_of(line, key)
            }
        }),
{
    position_is_first(line, ':');
    let colon = position(line, ':');
    if colon < line.len() && trim(line.take(colon)) == key {
        assert(line[colon] == ':');
    } else if speaks_of(line, key) {
        let value = choose|value: Seq<char>| gives(line, key, value);
        let other = choose|other: int|
            0 <= other < line.len() && #[trigger] line[other] == ':' && (forall|j: int|
                0 <= j < other ==> line[j] != ':') && trim(line.take(other)) == key && trim(
                line.skip(other + 1),
            ) == value;
        assert(line.contains(':'));
        assert(other == colon);
    }
}

proof fn last_line_counts(all: Seq<Seq<char>>, key: Seq<char>)
    ensures
        match line_value(all, key) {
            Some(value) => exists|i: int|
                0 <= i < all.len() && gives(#[trigger] all[i], key, value) && (forall|j: int|
                    i < j < all.len() ==> !speaks_of(all[j], key)),
            None => forall|i: int| 0 <= i < all.len() ==> !speaks_of(#[trigger] all[i], key),
        },
    decreases all.len(),
{
    if all.len() > 0 {
        let head = all.drop_last();
        let last = all.len() - 1;
        line_gives_what_follows_its_colon(all[last], key);
        let colon = position(all[last], ':');
        if colon < all[last].len() && trim(all[last].take(colon)) == key {
            assert(gives(all[last], key, trim(all[last].skip(colon + 1))));
        } else {
            last_line_counts(head, key);
            match line_value(head, key) {
                Some(value) => {
                    let i = choose|i: int|
                        0 <= i < head.len() && gives(#[trigger] head[i], key, value) && (forall|
                            j: int,
                        |
                            i < j < head.len() ==> !speaks_of(head[j], key));
                    assert(gives(all[i], key, value));
                    assert forall|j: int| i < j < all.len() implies !speaks_of(all[j], key) by {
                        if j < last {
                            assert(head[j] == all[j]);
                        }
                    }
                },
                None => {
                    assert forall|i: int| 0 <= i < all.len() implies !speaks_of(
                        #[trigger] all[i],
                        key,
                    ) by {
                        if i < last {
                            assert(head[i] == all[i]);
                        }
                    }
                },
            }
        }
    }
}

/// What a workspace file says under a key is the value of its last line with that key.
pub proof fn value_is_what_the_file_says(content: Seq<char>, key: Seq<char>)
    ensures
        says(content, key, yaml_value(content, key)),
{
    last_line_counts(lines(content), key);
}

/// A workspace file that says an id tells of a session, and no other does. The session is where the
/// file says, or at the root; its title outweighs its summary; the user named it where the file
/// says so; it was made when the file says, else now, and changed when the file says, else when it
/// was made. It is a local session that does nothing yet.
pub proof fn workspace_file_tells_of_a_session(
    content: Seq<char>,
    created: Option<Timestamp>,
    updated: Option<Timestamp>,
    now: Timestamp,
)
    ensures
        match workspace_view(content, created, updated, now) {
            None => says(content, "id"@, None),
            Some(session) => {
                &&& says(content, "id"@, Some(session.id))
                &&& says(content, "cwd"@, Some(session.cwd)) || (says(content, "cwd"@, None)
                    && session.cwd == "/"@)
                &&& says(content, "git_root"@, session.git_root)
                &&& says(content, "repository"@, session.repository)
                &&& says(content, "branch"@, session.branch)
                &&& (session.summary is Some && says(content, "title"@, session.summary)) || (says(
                    content,
                    "title"@,
                    None,
                ) && says(content, "summary"@, session.summary))
                &&& session.user_named ==> says(content, "user_named"@, Some("true"@))
                &&& !session.user_named ==> says(content, "user_named"@, None) || exists|
                    word: Seq<char>,
                |
                    word != "true"@ && says(content, "user_named"@, Some(word))
                &&& created is Some ==> session.created_at == created->0
                &&& created is None ==> session.created_at == now
                &&& updated is Some ==> session.updated_at == updated->0
                &&& updated is None ==> session.updated_at == session.created_at
                &&& session.source is Local
                &&& session.status is Idle
                &&& session.last_agent_message is None
                &&& session.remote_state is None && session.remote_url is None
                &&& session.remote_user is None && session.pull_request is None
                &&& session.remote_log is None
            },
        },
{
    value_is_what_the_file_says(content, "id"@);
    value_is_what_the_file_says(content, "cwd"@);
    value_is_what_the_file_says(content, "git_root"@);
    value_is_what_the_file_says(content, "repository"@);
    value_is_what_the_file_says(content, "branch"@);
    value_is_what_the_file_says(content, "title"@);
    value_is_what_the_file_says(content, "summary"@);
    value_is_what_the_file_says(content, "user_named"@);
    match yaml_value(content, "user_named"@) {
        Some(word) => {
            assert(says(content, "user_named"@, Some(word)));
        },
        None => {},
    }
}

/// A text that holds something and a number stand for themselves; an object stands for the text of
/// its login, else of its name, its full name or its address; nothing else is a text.
pub proof fn value_is_told_by_its_text(value: JsonView)
    ensures
        match value {
            JsonView::Text(text) => json_text(value) == if text.len() > 0 {
                Some(text)
            } else {
                None
            },
            JsonView::Number(number) => json_text(value) == Some(number),
            JsonView::Object(_) => {
                let login = text_under(value, "login"@);
                let name = text_under(value, "name"@);
                let full = text_under(value, "nameWithOwner"@);
                let url = text_under(value, "url"@);
                &&& login is Some ==> json_text(value) == login
                &&& login is None && name is Some ==> json_text(value) == name
                &&& login is None && name is None && full is Some ==> json_text(value) == full
                &&& login is None && name is None && full is None ==> json_text(value) == url
            },
            JsonView::Null => json_text(value) is None,
            JsonView::Bool(_) => json_text(value) is None,
            JsonView::Array(_) => json_text(value) is None,
        },
        value.get("id"@) is None ==> text_under(value, "id"@) is None,
        forall|key: Seq<char>|
            value.get(key) is Some ==> #[trigger] text_under(value, key) == json_text(
                value.get(key)->0,
            ),
{
}

/// A pull request is told by its number; its title follows, and its state in brackets.
pub proof fn pull_request_is_told_by_its_number(
    number: Seq<char>,
    title: Option<Seq<char>>,
    state: Option<Seq<char>>,
)
    ensures
        pull_request_text(None, title, state) is None,
        match pull_request_text(Some(number), title, state) {
            None => false,
            Some(text) => {
                let at: int = 1 + number.len() as int;
                let end: int = if title is Some {
                    at + 1 + title->0.len()
                } else {
                    at
                };
                &&& text[0] == '#' && text.subrange(1, at) == number
                &&& title is Some ==> text[at] == ' ' && text.subrange(at + 1, end) == title->0
                &&& state is None ==> text.len() == end
                &&& state is Some ==> text.len() == end + state->0.len() + 3 && text.skip(end)
                    == " ("@ + state->0 + ")"@
            },
        },
{
    reveal_strlit("#");
    reveal_strlit(" ");
    reveal_strlit("");
    reveal_strlit(" (");
    reveal_strlit(")");
    let text = pull_request_text(Some(number), title, state)->0;
    let at: int = 1 + number.len() as int;
    assert(text.subrange(1, at) == number);
    if title is Some {
        assert(text.subrange(at + 1, at + 1 + title->0.len()) == title->0);
    }
}

/// The states of tasks that have not begun.
pub open spec fn queue_words() -> Seq<Seq<char>> {
    seq!["queued"@, "pending"@, "waiting"@]
}

/// The states of tasks at work.
pub open spec fn work_words() -> Seq<Seq<char>> {
    seq!["in_progress"@, "in-progress"@, "running"@, "started"@]
}

/// The states of tasks that came to nothing.
pub open spec fn failure_words() -> Seq<Seq<char>> {
    seq![
        "failed"@,
        "failure"@,
        "error"@,
        "errored"@,
        "cancelled"@,
        "canceled"@,
        "timed_out"@,
    ]
}

/// What a task is doing follows from its state, in small or capital letters: it waits in a queue,
/// it is at work, or it failed. A task whose state is another, or not known, does nothing.
pub proof fn state_tells_the_status(state: Seq<char>)
    ensures
        ({
            let queued = queue_words().contains(lowered(state));
            let working = work_words().contains(lowered(state));
            let failed = failure_words().contains(lowered(state));
            &&& queued ==> state_status(Some(state)) is Waiting
            &&& working && !queued ==> state_status(Some(state)) is Running
            &&& failed && !queued && !working ==> state_status(Some(state)) is Error
            &&& !queued && !working && !failed ==> state_status(Some(state)) is Idle
        }),
        state_status(None) is Idle,
{
    let word = lowered(state);
    let a = queue_words();
    let b = work_words();
    let c = failure_words();
    assert(a[0] == "queued"@ && a[1] == "pending"@ && a[2] == "waiting"@);
    assert(b[0] == "in_progress"@ && b[1] == "in-progress"@ && b[2] == "running"@ && b[3]
        == "started"@);
    assert(c[0] == "failed"@ && c[1] == "failure"@ && c[2] == "error"@ && c[3] == "errored"@ && c[4]
        == "cancelled"@ && c[5] == "canceled"@ && c[6] == "timed_out"@);
    let empty = lowered(""@);
    reveal_strlit("");
    reveal_strlit("queued");
    reveal_strlit("pending");
    reveal_strlit("waiting");
    reveal_strlit("in_progress");
    reveal_strlit("in-progress");
    reveal_strlit("running");
    reveal_strlit("started");
    reveal_strlit("failed");
    reveal_strlit("failure");
    reveal_strlit("error");
    reveal_strlit("errored");
    reveal_strlit("cancelled");
    reveal_strlit("canceled");
    reveal_strlit("timed_out");
    assert(empty.len() == 0);
}

/// The address of a task names its repository, its pull request and itself. There is one where the
/// repository is an owner and a name, and nothing is empty.
pub proof fn task_is_found_at_its_address(
    owner: Seq<char>,
    name: Seq<char>,
    number: Seq<char>,
    id: Seq<char>,
)
    requires
        !owner.contains('/'),
    ensures
        owner.len() > 0 && name.len() > 0 && number.len() > 0 && id.len() > 0 ==> task_address(
            Some(owner + seq!['/'] + name),
            Some(number),
            id,
        ) == Some(
            "https://github.com/"@ + (owner + seq!['/'] + name) + "/pull/"@ + number
                + "/agent-sessions/"@ + id,
        ),
        owner.len() == 0 || name.len() == 0 || number.len() == 0 || id.len() == 0 ==> task_address(
            Some(owner + seq!['/'] + name),
            Some(number),
            id,
        ) is None,
        task_address(Some(owner), Some(number), id) is None,
        task_address(None, Some(number), id) is None,
        task_address(Some(name), None, id) is None,
{
    let whole = owner + seq!['/'] + name;
    position_is_first(whole, '/');
    assert(whole[owner.len() as int] == '/');
    let slash = position(whole, '/');
    if slash < owner.len() {
        assert(owner[slash] == '/');
    }
    assert(whole.contains('/'));
    assert(whole.take(slash) == owner);
    assert(whole.skip(slash + 1) == name);
    reveal_strlit("/");
    assert("/"@ == seq!['/']);
    position_is_first(owner, '/');
    if owner.len() > 0 && name.len() > 0 && number.len() > 0 && id.len() > 0 {
        assert("https://github.com/"@ + owner + "/"@ + name + "/pull/"@ == "https://github.com/"@
            + whole + "/pull/"@);
    }
}

/// The number of a pull request stands behind the first `/pull/` of its address, up to the next
/// slash.
pub proof fn number_stands_in_the_address(head: Seq<char>, number: Seq<char>, tail: Seq<char>)
    requires
        number.len() > 0,
        !number.contains('/'),
        tail.len() > 0 ==> tail[0] == '/',
        forall|i: int|
            0 <= i < head.len() ==> !#[trigger] occurs(head + "/pull/"@ + number + tail, "/pull/"@, i),
    ensures
        number_in_url(head + "/pull/"@ + number + tail) == Some(number),
{
    let url = head + "/pull/"@ + number + tail;
    let pattern = "/pull/"@;
    let at = head.len() as int;
    assert(url.subrange(at, at + pattern.len()) == pattern);
    assert(occurs(url, pattern, at));
    find_from_is_first(url, pattern, 0);
    let place = find(url, pattern)->0;
    assert(place == at);
    let rest = url.skip(place + pattern.len());
    assert(rest == number + tail);
    position_is_first(rest, '/');
    let p = position(rest, '/');
    if p < number.len() {
        assert(rest[p] == number[p]);
        assert(number.contains('/'));
    }
    if tail.len() > 0 {
        assert(rest[number.len() as int] == '/');
    }
    assert(p == number.len());
    assert(rest.take(p) == number);
}

/// An address without `/pull/` names no pull request.
pub proof fn other_addresses_name_no_number(url: Seq<char>)
    requires
        forall|i: int| !#[trigger] occurs(url, "/pull/"@, i),
    ensures
        number_in_url(url) is None,
{
    find_from_is_first(url, "/pull/"@, 0);
}

/// A task that has an id is a remote session, and no other is. It is listed under its repository,
/// or with the tasks that have none; it is described by its pull request, else by its state.
pub proof fn task_tells_of_a_session(
    task: JsonView,
    created: Option<Timestamp>,
    updated: Option<Timestamp>,
    now: Timestamp,
)
    ensures
        match task_view(task, created, updated, now) {
            None => text_under(task, "id"@) is None,
            Some(session) => {
                let number = text_under(task, "pullRequestNumber"@);
                let state = text_under(task, "state"@);
                &&& text_under(task, "id"@) == Some(session.id)
                &&& session.source is Remote
                &&& session.repository == text_under(task, "repository"@)
                &&& session.repository is Some ==> session.cwd == session.repository->0
                &&& session.repository is None ==> session.cwd == "Remote agent tasks"@
                &&& session.summary == text_under(task, "name"@)
                &&& session.remote_user == text_under(task, "user"@)
                &&& session.remote_state == state
                &&& session.status == state_status(state)
                &&& number is Some <==> session.pull_request is Some
                &&& session.pull_request == pull_request_text(
                    number,
                    text_under(task, "pullRequestTitle"@),
                    text_under(task, "pullRequestState"@),
                )
                &&& session.pull_request is Some ==> session.last_agent_message
                    == session.pull_request
                &&& session.pull_request is None && state is Some ==> session.last_agent_message
                    == Some("Remote agent task ("@ + state->0 + ")"@)
                &&& session.pull_request is None && state is None
                    ==> session.last_agent_message is None
                &&& number is Some ==> session.remote_url == task_address(
                    session.repository,
                    number,
                    session.id,
                )
                &&& number is None && text_under(task, "pullRequestUrl"@) is Some
                    ==> session.remote_url == task_address(
                    session.repository,
                    number_in_url(text_under(task, "pullRequestUrl"@)->0),
                    session.id,
                )
                &&& number is None && text_under(task, "pullRequestUrl"@) is None
                    ==> session.remote_url is None
                &&& created is Some ==> session.created_at == created->0
                &&& created is None ==> session.created_at == now
                &&& updated is Some ==> session.updated_at == updated->0
                &&& updated is None ==> session.updated_at == session.created_at
                &&& !session.user_named && session.branch is None && session.git_root is None
                &&& session.remote_log is None
            },
        },
{
}

/// A task was made when it says so, and changed when it says that, else when it was completed. What
/// names no instant counts as not said.
pub proof fn task_tells_its_times(task: JsonView, now: Timestamp, text: Seq<char>, at: (i64, u32))
    requires
        text_under(task, "id"@) is Some,
        rfc3339_instant(text) == Some(at),
    ensures
        ({
            let session = parsed_task(task, now)->0;
            let changed = text_under(task, "updatedAt"@);
            let completed = text_under(task, "completedAt"@);
            let created = text_under(task, "createdAt"@);
            let there = Timestamp { secs: at.0, nanos: at.1 };
            &&& parsed_task(task, now) is Some
            &&& created == Some(text) ==> session.created_at == there
            &&& created is None ==> session.created_at == now
            &&& changed == Some(text) ==> session.updated_at == there
            &&& changed is None && completed == Some(text) ==> session.updated_at == there
            &&& changed is None && completed is None ==> session.updated_at == session.created_at
        }),
{
}

/// The sessions of a list are its tasks that have an id, in their order; what is no list has none.
pub proof fn listed_sessions_are_the_tasks(items: Seq<JsonView>, other: JsonView, now: Timestamp)
    ensures
        listed_sessions(Some(JsonView::Array(items)), now) == items.filter(
            |task: JsonView| text_under(task, "id"@) is Some,
        ).map_values(|task: JsonView| parsed_task(task, now)->0),
        !(other is Array) ==> listed_sessions(Some(other), now).len() == 0,
        listed_sessions(None, now).len() == 0,
    decreases items.len(),
{
    reveal(Seq::filter);
    let keep = |task: JsonView| text_under(task, "id"@) is Some;
    let shown = |task: JsonView| parsed_task(task, now)->0;
    if items.len() > 0 {
        listed_sessions_are_the_tasks(items.drop_last(), other, now);
        let head = items.drop_last().filter(keep);
        if keep(items.last()) {
            assert(head.push(items.last()).map_values(shown) == head.map_values(shown).push(
                shown(items.last()),
            ));
        }
    } else {
        assert(items.filter(keep).map_values(shown) == Seq::<SessionView>::empty());
    }
}

/// The tmux sessions of Copilot are the lines that start with its prefix.
pub proof fn names_of_copilot_start_alike(text: Seq<char>, name: Seq<char>)
    ensures
        copilot_names(text).contains(name) <==> (exists|i: int|
            0 <= i < lines(text).len() && #[trigger] lines(text)[i] == name) && name.len() >= 8
            && name.take(8) == "ghpilot_"@,
{
    reveal_strlit("ghpilot_");
    assert(TMUX_SESSION_PREFIX@.len() == 8);
}

/// What a response says where something failed.
pub open spec fn error_phrases() -> Seq<Seq<char>> {
    seq!["something went wrong"@, "encountered an error"@, "fatal error:"@, "panic:"@]
}

/// The last exchange tells what an open session is doing. It failed where the response speaks of an
/// error; else it is at work where a message has no answer; else it waits for the user. A text of
/// white space says nothing.
pub proof fn exchange_tells_what_a_session_is_doing(
    message: Option<Seq<char>>,
    response: Option<Seq<char>>,
)
    ensures
        ({
            let failed = response is Some && exists|k: int|
                0 <= k < error_phrases().len() && mentions(
                    lowered(response->0),
                    #[trigger] error_phrases()[k],
                );
            let asked = message is Some && trim(message->0).len() > 0;
            let answered = response is Some && trim(response->0).len() > 0;
            let status = turn_status(
                Some(LatestTurn { user_message: message, assistant_response: response }),
            );
            &&& failed <==> status is Error
            &&& !failed && asked && !answered <==> status is Running
            &&& !failed && (!asked || answered) <==> status is Waiting
        }),
        turn_status(None) is Waiting,
{
    let p = error_phrases();
    reveal_strlit("");
    assert(p[0] == "something went wrong"@ && p[1] == "encountered an error"@ && p[2]
        == "fatal error:"@ && p[3] == "panic:"@);
    assert(trim(""@).len() == 0);
}

/// A session that is not open does nothing. What the events say of an open one outweighs what its
/// last exchange says, which counts where they say nothing.
pub proof fn events_outweigh_the_exchange(
    event: SessionStatus,
    events: Option<SessionStatus>,
    latest: Option<LatestTurn<Seq<char>>>,
)
    ensures
        observed_status(true, Some(event), latest) == event,
        observed_status(true, None, latest) == turn_status(latest),
        observed_status(false, events, latest) is Idle,
{
}

/// What is found out beside its file changes a session in three points: a summary fills a gap, the
/// last response describes it where it says something, and its status is the one that was found.
pub proof fn findings_fill_gaps(
    session: SessionView,
    summary: Option<Seq<char>>,
    message: Option<Seq<char>>,
    status: SessionStatus,
)
    ensures
        ({
            let known = enriched(session, summary, message, status);
            &&& session.summary is Some ==> known.summary == session.summary
            &&& session.summary is None && summary is Some && summary->0.len() > 0
                ==> known.summary == summary
            &&& session.summary is None && (summary is None || summary->0.len() == 0)
                ==> known.summary is None
            &&& message is Some && trim(message->0).len() > 0 ==> known.last_agent_message
                == message
            &&& message is None || trim(message->0).len() == 0 ==> known.last_agent_message is None
            &&& known.status == status
            &&& known == (CopilotSession {
                summary: known.summary,
                last_agent_message: known.last_agent_message,
                status: known.status,
                ..session
            })
        }),
{
}

/// The one that changed last stands first.
pub proof fn last_changed_stands_first(a: SessionView, b: SessionView)
    ensures
        newest_first()(a, b) <==> b.updated_at.secs < a.updated_at.secs || (b.updated_at.secs
            == a.updated_at.secs && b.updated_at.nanos < a.updated_at.nanos),
{
}

/// A status that was found is that of a local session, of which nothing else changes; a remote one
/// stays as it is.
pub proof fn only_local_statuses_are_found(session: SessionView, status: SessionStatus)
    ensures
        session.source is Remote ==> restated(session, status) == session,
        session.source is Local ==> restated(session, status).status == status,
        restated(session, status) == (CopilotSession {
            status: restated(session, status).status,
            ..session
        }),
{
}

/// The start of so many bytes of a text is a start of it that takes up just so many in UTF-8; there
/// is none where no start does.
pub proof fn byte_start_takes_so_many_bytes(s: Seq<char>, n: nat, k: int)
    ensures
        match byte_prefix(s, n) {
            Some(start) => start.len() <= s.len() && start == s.take(start.len() as int)
                && encode_utf8(start).len() == n,
            None => 0 <= k <= s.len() ==> encode_utf8(s.take(k)).len() != n,
        },
    decreases s.len(),
{
    if n == 0 {
        assert(s.take(0) == Seq::<char>::empty());
    } else {
        if s.len() > 0 {
            let w = utf8_width(s[0]);
            scalar_takes_its_width(s[0]);
            if w <= n {
                byte_start_takes_so_many_bytes(s.skip(1), (n - w) as nat, k - 1);
                match byte_prefix(s.skip(1), (n - w) as nat) {
                    Some(rest) => {
                        let start = seq![s[0]] + rest;
                        assert(start.drop_first() == rest);
                        assert(start == s.take(start.len() as int));
                    },
                    None => {},
                }
            }
            if 0 < k <= s.len() {
                assert(s.take(k).drop_first() == s.skip(1).take(k - 1));
                assert(s.take(k)[0] == s[0]);
            }
        }
        assert(encode_utf8(s.take(0)).len() == 0);
    }
}

proof fn scalar_takes_its_width(c: char)
    ensures
        encode_scalar(c as u32).len() == utf8_width(c),
{
}

} // verus!
