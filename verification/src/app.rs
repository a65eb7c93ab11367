//! The state of the program, and what each key makes of it.
use crate::groups::{
    label_views, project_groups, remote_group_key, remote_key, remote_part, rows_of, scene_of, tree,
    tree_rows, GroupView, ProjectGroup, Scene, SessionFilter, TreeRow,
};
use crate::keys::{Key, Wheel};
use crate::numbers::{count_text, decimal};
use crate::projects::{
    complete_path_input, completed, followed_dirs, lists, ordered, tracked_project_dirs, Completion,
};
use crate::remote::{RemoteLoadState, RemoteSession};
use crate::store::{cached, CachedRemoteSession};
use crate::tables::{TextMap, TextSet};
use crate::text::{
    chars_of, concat, copy_opt, opt_str, opt_view, part, same_text, string_of, trim, trimmed, views,
};
use crate::tmux::{LaunchKind, ManagedSession, StatusCache};
use vstd::prelude::*;

verus! {

/// How many of the paths that were used last are kept.
pub const RECENT_PATH_LIMIT: usize = 20;

/// What the program is started with.
#[derive(Debug, PartialEq, Eq)]
pub struct AppOptions {
    /// The id of a remote session or task to be joined.
    pub connect: Option<String>,
    /// New sessions can be controlled from afar.
    pub remote_enabled: bool,
}

/// What is launched at the start: a session that joins a remote one, where one was named.
pub fn run(options: &AppOptions) -> (out: Option<LaunchKind>)
    ensures
        opt_view(out) == (match opt_view(options.connect) {
            Some(id) => Some(
                LaunchKind::Connect { id, remote_enabled: options.remote_enabled },
            ),
            None => None,
        }),
{
    match &options.connect {
        Some(id) => Some(
            LaunchKind::Connect { id: id.clone(), remote_enabled: options.remote_enabled },
        ),
        None => None,
    }
}

/// A path that is being typed in.
#[derive(Debug, PartialEq, Eq)]
pub enum InputMode<T = String> {
    NewSessionDirectory {
        buffer: T,
        remote_enabled: bool,
        completion_prefix: Option<T>,
        completion_index: usize,
    },
    NewProjectDirectory { buffer: T, completion_prefix: Option<T>, completion_index: usize },
}

impl View for InputMode<String> {
    type V = InputMode<Seq<char>>;

    open spec fn view(&self) -> InputMode<Seq<char>> {
        match self {
            InputMode::NewSessionDirectory {
                buffer,
                remote_enabled,
                completion_prefix,
                completion_index,
            } => InputMode::NewSessionDirectory {
                buffer: buffer@,
                remote_enabled: *remote_enabled,
                completion_prefix: opt_view(*completion_prefix),
                completion_index: *completion_index,
            },
            InputMode::NewProjectDirectory { buffer, completion_prefix, completion_index } =>
            InputMode::NewProjectDirectory {
                buffer: buffer@,
                completion_prefix: opt_view(*completion_prefix),
                completion_index: *completion_index,
            },
        }
    }
}

/// What the program has to do in the world after a key.
#[derive(Debug, PartialEq, Eq)]
pub enum Effect<T = String, L = Vec<T>> {
    /// Nothing.
    Nothing,
    /// End.
    Quit,
    /// List the sessions and the remote tasks anew.
    Refresh,
    /// Start a session in a project.
    NewSession { path: T, remote_enabled: bool },
    /// Start a session in a directory that was typed in.
    StartSession { path: T, remote_enabled: bool },
    /// Follow a directory that was typed in.
    AddProject { path: T },
    /// End a session.
    CloseSession { name: T, display_name: T },
    /// End the sessions of a project and stop following it.
    RemoveProject { path: T, display_name: T, names: L },
    /// End all sessions.
    CloseAll { names: L },
    /// Join a remote task.
    OpenRemote { id: T, display_name: T },
    /// Show a remote task in the browser.
    OpenUrl { id: T, display_name: T, url: Option<T> },
    /// Show a pull request in the browser.
    OpenPullRequest { display_name: T, pr_url: T },
}

/// What the program has to do, as contracts speak of it.
pub type EffectView = Effect<Seq<char>, Seq<Seq<char>>>;

impl View for Effect<String, Vec<String>> {
    type V = EffectView;

    open spec fn view(&self) -> EffectView {
        match self {
            Effect::Nothing => Effect::Nothing,
            Effect::Quit => Effect::Quit,
            Effect::Refresh => Effect::Refresh,
            Effect::NewSession { path, remote_enabled } => Effect::NewSession {
                path: path@,
                remote_enabled: *remote_enabled,
            },
            Effect::StartSession { path, remote_enabled } => Effect::StartSession {
                path: path@,
                remote_enabled: *remote_enabled,
            },
            Effect::AddProject { path } => Effect::AddProject { path: path@ },
            Effect::CloseSession { name, display_name } => Effect::CloseSession {
                name: name@,
                display_name: display_name@,
            },
            Effect::RemoveProject { path, display_name, names } => Effect::RemoveProject {
                path: path@,
                display_name: display_name@,
                names: views(names@),
            },
            Effect::CloseAll { names } => Effect::CloseAll { names: views(names@) },
            Effect::OpenRemote { id, display_name } => Effect::OpenRemote {
                id: id@,
                display_name: display_name@,
            },
            Effect::OpenUrl { id, display_name, url } => Effect::OpenUrl {
                id: id@,
                display_name: display_name@,
                url: opt_view(*url),
            },
            Effect::OpenPullRequest { display_name, pr_url } => Effect::OpenPullRequest {
                display_name: display_name@,
                pr_url: pr_url@,
            },
        }
    }
}

/// The state of the program.
pub struct App {
    pub current_dir: String,
    pub sessions: Vec<ManagedSession>,
    pub remote_sessions: Vec<RemoteSession>,
    pub remote_state: RemoteLoadState,
    /// The remote tasks are being listed.
    pub remote_running: bool,
    pub remote_request_projects: TextSet,
    pub selected_row: usize,
    pub active_filter: SessionFilter,
    pub collapsed_groups: TextSet,
    pub cache: StatusCache,
    pub message: String,
    pub confirm_close_all: bool,
    pub input_mode: Option<InputMode>,
    pub pending_open: Option<String>,
    pub remote_enabled: bool,
    pub shortcut_help_open: bool,
    pub shortcut_help_scroll: u16,
    pub recent_paths: Vec<String>,
    pub removed_projects: TextSet,
    pub project_labels: TextMap<String>,
}

/// The state of the program, as contracts speak of it.
pub struct AppView {
    pub current_dir: Seq<char>,
    pub sessions: Seq<ManagedSession<Seq<char>>>,
    pub remote_sessions: Seq<RemoteSession<Seq<char>>>,
    pub remote_state: RemoteLoadState<Seq<char>>,
    pub remote_running: bool,
    pub requested: Set<Seq<char>>,
    pub selected_row: usize,
    pub filter: SessionFilter,
    pub collapsed: Set<Seq<char>>,
    pub cache: Map<Seq<char>, u64>,
    pub message: Seq<char>,
    pub confirm_close_all: bool,
    pub input: Option<InputMode<Seq<char>>>,
    pub pending_open: Option<Seq<char>>,
    pub remote_enabled: bool,
    pub help_open: bool,
    pub help_scroll: u16,
    pub recent: Seq<Seq<char>>,
    pub removed: Set<Seq<char>>,
    pub labels: Map<Seq<char>, Seq<char>>,
}

impl View for App {
    type V = AppView;

    open spec fn view(&self) -> AppView {
        AppView {
            current_dir: self.current_dir@,
            sessions: views(self.sessions@),
            remote_sessions: views(self.remote_sessions@),
            remote_state: self.remote_state@,
            remote_running: self.remote_running,
            requested: self.remote_request_projects@,
            selected_row: self.selected_row,
            filter: self.active_filter,
            collapsed: self.collapsed_groups@,
            cache: self.cache@,
            message: self.message@,
            confirm_close_all: self.confirm_close_all,
            input: opt_view(self.input_mode),
            pending_open: opt_view(self.pending_open),
            remote_enabled: self.remote_enabled,
            help_open: self.shortcut_help_open,
            help_scroll: self.shortcut_help_scroll,
            recent: views(self.recent_paths@),
            removed: self.removed_projects@,
            labels: label_views(self.project_labels@),
        }
    }
}

/// The number of lines of the list of shortcuts.
pub const HELP_LINES: u16 = 27;

impl AppView {
    /// There are no more sessions and tasks than can be counted.
    pub open spec fn fits(self) -> bool {
        self.sessions.len() + self.remote_sessions.len() <= usize::MAX
    }

    /// The directories of the projects that are followed.
    pub open spec fn followed(self) -> Set<Seq<char>> {
        followed_dirs(
            self.current_dir,
            self.sessions,
            self.remote_sessions,
            self.recent,
            self.removed,
        )
    }

    /// All that decides what the tree holds.
    pub open spec fn scene(self) -> Scene {
        Scene {
            sessions: self.sessions,
            remote: self.remote_sessions,
            projects: self.followed(),
            labels: self.labels,
            filter: self.filter,
            remote_state: self.remote_state,
            current: self.current_dir,
        }
    }

    /// The projects of the tree.
    pub open spec fn groups(self) -> Seq<GroupView> {
        tree(self.scene())
    }

    /// The rows of the tree.
    pub open spec fn rows(self) -> Seq<TreeRow<Seq<char>>> {
        rows_of(self.groups(), self.collapsed, self.filter)
    }

    /// The row that is selected.
    pub open spec fn row(self) -> Option<TreeRow<Seq<char>>> {
        if self.selected_row < self.rows().len() {
            Some(self.rows()[self.selected_row as int])
        } else {
            None
        }
    }

    /// The project of the selected row.
    pub open spec fn group(self) -> Option<GroupView> {
        match self.row() {
            Some(row) => if row.group_place() < self.groups().len() {
                Some(self.groups()[row.group_place() as int])
            } else {
                None
            },
            None => None,
        }
    }

    /// The session of the selected row.
    pub open spec fn session(self) -> Option<ManagedSession<Seq<char>>> {
        match self.row() {
            Some(TreeRow::LocalSession { session_index, .. }) => if session_index
                < self.sessions.len() {
                Some(self.sessions[session_index as int])
            } else {
                None
            },
            _ => None,
        }
    }

    /// The task of the selected row.
    pub open spec fn remote_session(self) -> Option<RemoteSession<Seq<char>>> {
        match self.row() {
            Some(TreeRow::RemoteSession { remote_index, .. }) => if remote_index
                < self.remote_sessions.len() {
                Some(self.remote_sessions[remote_index as int])
            } else {
                None
            },
            _ => None,
        }
    }

    /// The state with a message.
    pub open spec fn saying(self, message: Seq<char>) -> AppView {
        AppView { message, ..self }
    }

    /// The state with the selection on a row that is there, as near to where it was as can be.
    pub open spec fn clamped(self) -> AppView {
        let n = self.rows().len();
        AppView {
            selected_row: if n == 0 {
                0
            } else if self.selected_row >= n {
                (n - 1) as usize
            } else {
                self.selected_row
            },
            ..self
        }
    }

    /// The state with the next row selected.
    pub open spec fn on_next_row(self) -> AppView {
        let n = self.rows().len();
        AppView {
            selected_row: if n == 0 {
                self.selected_row
            } else if self.selected_row + 1 < n {
                (self.selected_row + 1) as usize
            } else {
                (n - 1) as usize
            },
            ..self
        }
    }

    /// The state with the row before selected.
    pub open spec fn on_previous_row(self) -> AppView {
        AppView {
            selected_row: if self.selected_row == 0 {
                0
            } else {
                (self.selected_row - 1) as usize
            },
            ..self
        }
    }

    /// The state with another filter, and the first row selected.
    pub open spec fn filtered(self, filter: SessionFilter) -> AppView {
        AppView { filter, selected_row: 0, ..self }
    }

    /// The state with the row at a place selected, where there is one.
    pub open spec fn at_row(self, place: int) -> AppView {
        if place < self.rows().len() {
            AppView { selected_row: place as usize, ..self }
        } else {
            self
        }
    }

    /// The state with the row of a project selected.
    pub open spec fn on_group(self, place: usize) -> AppView {
        self.at_row(group_row_place(self.rows(), place))
    }

    /// The state with the row of the remote part of a project selected.
    pub open spec fn on_remote_group(self, place: usize) -> AppView {
        self.at_row(remote_row_place(self.rows(), place))
    }

    /// The state with a part of the tree folded.
    pub open spec fn folding(self, key: Seq<char>) -> AppView {
        AppView { collapsed: self.collapsed.insert(key), ..self }
    }

    /// The state with a part of the tree unfolded.
    pub open spec fn unfolding(self, key: Seq<char>) -> AppView {
        AppView { collapsed: self.collapsed.remove(key), ..self }
    }
}

/// The place of the row of a project, or the number of rows where it has none.
pub open spec fn group_row_place(rows: Seq<TreeRow<Seq<char>>>, place: usize) -> int
    decreases rows.len(),
{
    if rows.len() == 0 || (rows[0] is Group && rows[0].group_place() == place) {
        0
    } else {
        1 + group_row_place(rows.skip(1), place)
    }
}

/// The place of the row of the remote part of a project, or the number of rows where it has none.
pub open spec fn remote_row_place(rows: Seq<TreeRow<Seq<char>>>, place: usize) -> int
    decreases rows.len(),
{
    if rows.len() == 0 || (rows[0] is RemoteGroup && rows[0].group_place() == place) {
        0
    } else {
        1 + remote_row_place(rows.skip(1), place)
    }
}

/// A row that stands in the remote part of its project.
pub open spec fn is_under_remote(row: TreeRow<Seq<char>>) -> bool {
    match row {
        TreeRow::LocalSession { under_remote, .. } => under_remote,
        TreeRow::RemoteSession { under_remote, .. } => under_remote,
        TreeRow::Placeholder { under_remote, .. } => under_remote,
        _ => false,
    }
}

impl AppView {
    /// The left arrow: from a session to what it stands under; there it folds.
    pub open spec fn collapsing(self) -> AppView {
        match (self.row(), self.group()) {
            (Some(row), Some(group)) => {
                let place = row.group_place();
                if row is RemoteGroup && !self.collapsed.contains(remote_key(group.key)) {
                    self.folding(remote_key(group.key)).on_remote_group(place)
                } else if row is Group || row is RemoteGroup {
                    self.folding(group.key).on_group(place)
                } else if is_under_remote(row) {
                    self.on_remote_group(place)
                } else {
                    self.on_group(place)
                }
            },
            _ => self,
        }
    }

    /// The right arrow: unfolds what the row stands under.
    pub open spec fn expanding(self) -> AppView {
        match (self.row(), self.group()) {
            (Some(row), Some(group)) => {
                let place = row.group_place();
                if row is RemoteGroup || (is_under_remote(row) && !(row is Placeholder)) {
                    self.unfolding(remote_key(group.key)).on_remote_group(place)
                } else {
                    self.unfolding(group.key).on_group(place)
                }
            },
            _ => self,
        }
    }

    /// The state with a part of the tree folded where it was not, and unfolded where it was.
    pub open spec fn toggling(self, key: Seq<char>) -> AppView {
        if self.collapsed.contains(key) {
            self.unfolding(key)
        } else {
            self.folding(key)
        }
    }

    /// The selected row is that of a project, or of the remote part of one, that has entries.
    pub open spec fn is_on_parent(self) -> bool {
        match (self.row(), self.group()) {
            (Some(row), Some(group)) => (row is Group && group.entries.len() > 0) || (
            row is RemoteGroup && remote_part(group.entries).len() > 0),
            _ => false,
        }
    }

    /// The state with the selected project, or its remote part, folded or unfolded.
    pub open spec fn parent_toggled(self) -> AppView {
        match (self.row(), self.group()) {
            (Some(row), Some(group)) => {
                let place = row.group_place();
                if row is Group && group.entries.len() > 0 {
                    self.toggling(group.key).on_group(place)
                } else if row is RemoteGroup && remote_part(group.entries).len() > 0 {
                    self.toggling(remote_key(group.key)).on_remote_group(place)
                } else {
                    self
                }
            },
            _ => self,
        }
    }

    /// Enter: folds or unfolds a project, opens a session or a task.
    pub open spec fn opening(self) -> (AppView, EffectView) {
        if self.is_on_parent() {
            (self.parent_toggled(), Effect::Nothing)
        } else if self.session() is Some {
            (
                AppView { pending_open: Some(self.session()->0.name), ..self },
                Effect::Nothing,
            )
        } else if self.remote_session() is Some {
            (
                self,
                Effect::OpenRemote {
                    id: self.remote_session()->0.id,
                    display_name: self.remote_session()->0.display_name,
                },
            )
        } else {
            (self.saying("select a session to open"@), Effect::Nothing)
        }
    }

    /// New sessions run with remote control: where that is on, or the selected row is about remote
    /// sessions.
    pub open spec fn starts_remote(self) -> bool {
        self.remote_enabled || (self.row() is Some && self.row()->0.is_remote_row())
    }

    /// What a new session in the selected project takes.
    pub open spec fn new_session_effect(self) -> EffectView {
        Effect::NewSession {
            path: match self.group() {
                Some(group) => group.path,
                None => self.current_dir,
            },
            remote_enabled: self.starts_remote(),
        }
    }

    /// What ending the selected session takes.
    pub open spec fn closing(self) -> (AppView, EffectView) {
        match self.session() {
            Some(session) => (
                self,
                Effect::CloseSession { name: session.name, display_name: session.display_name },
            ),
            None => if self.remote_session() is Some {
                (self.saying("remote sessions cannot be closed locally"@), Effect::Nothing)
            } else {
                (self.saying("select a session to close"@), Effect::Nothing)
            },
        }
    }

    /// What removing the selected project takes.
    pub open spec fn removing(self) -> (AppView, EffectView) {
        match self.group() {
            Some(group) => (
                self,
                Effect::RemoveProject {
                    path: group.path,
                    display_name: group.display_name,
                    names: names_in(self.sessions, group.path),
                },
            ),
            None => (self.saying("select a project to remove"@), Effect::Nothing),
        }
    }

    /// What showing the selected task in the browser takes.
    pub open spec fn browsing(self) -> (AppView, EffectView) {
        match self.remote_session() {
            Some(task) => (
                self,
                Effect::OpenUrl { id: task.id, display_name: task.display_name, url: task.url },
            ),
            None => (
                self.saying("select a remote session to open in the browser"@),
                Effect::Nothing,
            ),
        }
    }

    /// What showing the pull request of the selected task takes.
    pub open spec fn browsing_pull_request(self) -> (AppView, EffectView) {
        match self.remote_session() {
            Some(task) => match task.pr_url {
                Some(url) => (
                    self,
                    Effect::OpenPullRequest { display_name: task.display_name, pr_url: url },
                ),
                None => (
                    self.saying(task.display_name + " has no pull request"@),
                    Effect::Nothing,
                ),
            },
            None => (
                self.saying("select a remote session to open its pull request"@),
                Effect::Nothing,
            ),
        }
    }

    /// Asking before all sessions are ended.
    pub open spec fn asking_to_close_all(self) -> AppView {
        if self.sessions.len() == 0 {
            self.saying("no managed sessions to close"@)
        } else {
            AppView { confirm_close_all: true, ..self }
        }
    }

    /// Asking for the directory of a new session.
    pub open spec fn asking_for_session_dir(self, remote_enabled: bool) -> AppView {
        AppView {
            input: Some(
                InputMode::NewSessionDirectory {
                    buffer: ""@,
                    remote_enabled,
                    completion_prefix: None,
                    completion_index: 0,
                },
            ),
            message: if remote_enabled {
                "enter repo path for remote session"@
            } else {
                "enter repo path for local session"@
            },
            ..self
        }
    }

    /// Asking for the directory of a new project.
    pub open spec fn asking_for_project_dir(self) -> AppView {
        AppView {
            input: Some(
                InputMode::NewProjectDirectory {
                    buffer: ""@,
                    completion_prefix: None,
                    completion_index: 0,
                },
            ),
            message: "enter project repo path"@,
            ..self
        }
    }

    /// The list of shortcuts shown from its start, or not shown.
    pub open spec fn with_help(self, open: bool) -> AppView {
        AppView { help_open: open, help_scroll: 0, ..self }
    }

    /// The list of shortcuts scrolled up.
    pub open spec fn help_up(self, amount: u16) -> AppView {
        AppView {
            help_scroll: if self.help_scroll < amount {
                0
            } else {
                (self.help_scroll - amount) as u16
            },
            ..self
        }
    }

    /// The list of shortcuts scrolled down, to its last line at most.
    pub open spec fn help_down(self, amount: u16) -> AppView {
        AppView {
            help_scroll: if self.help_scroll + amount < HELP_LINES {
                (self.help_scroll + amount) as u16
            } else {
                (HELP_LINES - 1) as u16
            },
            ..self
        }
    }

    /// The list of shortcuts scrolled so that it fills as many lines as can be seen.
    pub open spec fn help_clamped(self, visible: u16) -> AppView {
        let most = if visible < HELP_LINES {
            HELP_LINES - visible
        } else {
            0
        };
        AppView {
            help_scroll: if self.help_scroll < most {
                self.help_scroll
            } else {
                most as u16
            },
            ..self
        }
    }

    /// A key while the list of shortcuts is shown.
    pub open spec fn help_key(self, key: Key) -> AppView {
        match key {
            Key::Esc => self.with_help(false),
            Key::Char(c) => if c == 'q' || c == '?' {
                self.with_help(false)
            } else if c == 'k' {
                self.help_up(1)
            } else if c == 'j' {
                self.help_down(1)
            } else {
                self
            },
            Key::Up => self.help_up(1),
            Key::Down => self.help_down(1),
            Key::PageUp => self.help_up(6),
            Key::PageDown => self.help_down(6),
            Key::Home => AppView { help_scroll: 0, ..self },
            Key::End => self.help_down(u16::MAX),
            _ => self,
        }
    }

    /// A key while the program asks whether to end all sessions.
    pub open spec fn confirm_key(self, key: Key) -> (AppView, EffectView) {
        if key == Key::Char('y') || key == Key::Char('Y') {
            (self, Effect::CloseAll { names: session_names(self.sessions) })
        } else if key == Key::Esc || key == Key::Char('n') || key == Key::Char('N') {
            (
                AppView { confirm_close_all: false, message: "close all cancelled"@, ..self },
                Effect::Nothing,
            )
        } else {
            (self, Effect::Nothing)
        }
    }

    /// A key while nothing else is asked.
    pub open spec fn main_key(self, key: Key, shift: bool) -> (AppView, EffectView) {
        match key {
            Key::Esc => (self, Effect::Quit),
            Key::BackTab => (self.filtered(self.filter.preceding()), Effect::Nothing),
            Key::Tab => (
                self.filtered(
                    if shift {
                        self.filter.preceding()
                    } else {
                        self.filter.following()
                    },
                ),
                Effect::Nothing,
            ),
            Key::Left => (self.collapsing(), Effect::Nothing),
            Key::Right => (self.expanding(), Effect::Nothing),
            Key::Down => (self.on_next_row(), Effect::Nothing),
            Key::Up => (self.on_previous_row(), Effect::Nothing),
            Key::Enter => self.opening(),
            Key::Char(c) => if c == 'q' {
                (self, Effect::Quit)
            } else if c == 'j' {
                (self.on_next_row(), Effect::Nothing)
            } else if c == 'k' {
                (self.on_previous_row(), Effect::Nothing)
            } else if c == 'o' {
                self.opening()
            } else if c == 'n' {
                (self, self.new_session_effect())
            } else if c == 'N' {
                (self.asking_for_session_dir(false), Effect::Nothing)
            } else if c == 'P' {
                (self.asking_for_project_dir(), Effect::Nothing)
            } else if c == 'd' {
                self.removing()
            } else if c == 'x' {
                self.closing()
            } else if c == 'X' {
                (self.asking_to_close_all(), Effect::Nothing)
            } else if c == 'r' {
                (self, Effect::Refresh)
            } else if c == 'w' {
                self.browsing()
            } else if c == 'p' {
                self.browsing_pull_request()
            } else {
                (self, Effect::Nothing)
            },
            _ => (self, Effect::Nothing),
        }
    }

    /// What a key makes of the state, and what has to be done.
    pub open spec fn after_key(self, key: Key, shift: bool, home: Option<Seq<char>>) -> (
        AppView,
        EffectView,
    ) {
        if self.input is Some {
            self.input_key(key, home)
        } else if self.help_open {
            (self.help_key(key), Effect::Nothing)
        } else if key == Key::Char('?') {
            (self.with_help(true), Effect::Nothing)
        } else if self.confirm_close_all {
            self.confirm_key(key)
        } else {
            self.main_key(key, shift)
        }
    }

    /// A key while a path is typed in.
    pub open spec fn input_key(self, key: Key, home: Option<Seq<char>>) -> (AppView, EffectView) {
        match self.input {
            Some(InputMode::NewSessionDirectory {
                buffer,
                remote_enabled,
                completion_prefix,
                completion_index,
            }) => if key == Key::Esc {
                (
                    AppView { input: None, message: "new repo session cancelled"@, ..self },
                    Effect::Nothing,
                )
            } else if key == Key::Enter {
                (
                    AppView { input: None, ..self },
                    Effect::StartSession { path: trim(buffer), remote_enabled },
                )
            } else {
                let typed = typed_key(
                    Completion { buffer, prefix: completion_prefix, index: completion_index },
                    key,
                    self.recent,
                    home,
                );
                (
                    AppView {
                        input: Some(
                            InputMode::NewSessionDirectory {
                                buffer: typed.buffer,
                                remote_enabled,
                                completion_prefix: typed.prefix,
                                completion_index: typed.index,
                            },
                        ),
                        ..self
                    },
                    Effect::Nothing,
                )
            },
            Some(InputMode::NewProjectDirectory { buffer, completion_prefix, completion_index }) =>
            if key == Key::Esc {
                (
                    AppView { input: None, message: "new project cancelled"@, ..self },
                    Effect::Nothing,
                )
            } else if key == Key::Enter {
                (AppView { input: None, ..self }, Effect::AddProject { path: trim(buffer) })
            } else {
                let typed = typed_key(
                    Completion { buffer, prefix: completion_prefix, index: completion_index },
                    key,
                    self.recent,
                    home,
                );
                (
                    AppView {
                        input: Some(
                            InputMode::NewProjectDirectory {
                                buffer: typed.buffer,
                                completion_prefix: typed.prefix,
                                completion_index: typed.index,
                            },
                        ),
                        ..self
                    },
                    Effect::Nothing,
                )
            },
            None => (self, Effect::Nothing),
        }
    }
}

/// What a key makes of a path that is typed in.
pub open spec fn typed_key(
    typed: Completion<Seq<char>>,
    key: Key,
    recent: Seq<Seq<char>>,
    home: Option<Seq<char>>,
) -> Completion<Seq<char>> {
    match key {
        Key::Backspace => Completion {
            buffer: if typed.buffer.len() > 0 {
                typed.buffer.drop_last()
            } else {
                typed.buffer
            },
            prefix: None,
            index: 0,
        },
        Key::Tab => completed(typed, recent, home, false),
        Key::BackTab => completed(typed, recent, home, true),
        Key::Char(c) => Completion { buffer: typed.buffer.push(c), prefix: None, index: 0 },
        _ => typed,
    }
}

/// The names of the sessions in a directory.
pub open spec fn names_in(sessions: Seq<ManagedSession<Seq<char>>>, dir: Seq<char>) -> Seq<Seq<char>>
    decreases sessions.len(),
{
    if sessions.len() == 0 {
        seq![]
    } else if sessions.last().project_dir == dir {
        names_in(sessions.drop_last(), dir).push(sessions.last().name)
    } else {
        names_in(sessions.drop_last(), dir)
    }
}

/// The names of the sessions.
pub open spec fn session_names(sessions: Seq<ManagedSession<Seq<char>>>) -> Seq<Seq<char>> {
    Seq::new(sessions.len(), |i: int| sessions[i].name)
}


// ---------------------------------------------------------------------------
// The operations
// ---------------------------------------------------------------------------
fn find_group_row(rows: &Vec<TreeRow>, place: usize) -> (out: Option<usize>)
    ensures
        match out {
            Some(i) => i < rows@.len() && i == group_row_place(views(rows@), place),
            None => group_row_place(views(rows@), place) >= rows@.len(),
        },
{
    let ghost all = views(rows@);
    let mut i: usize = 0;
    assert(all.skip(0) == all);
    while i < rows.len()
        invariant
            i <= rows.len(),
            all == views(rows@),
            group_row_place(all, place) == i + group_row_place(all.skip(i as int), place),
        decreases rows.len() - i,
    {
        assert(all.skip(i as int)[0] == rows@[i as int]@);
        assert(all.skip(i as int).skip(1) == all.skip(i + 1));
        let found = match &rows[i] {
            TreeRow::Group { group_index } => *group_index == place,
            _ => false,
        };
        if found {
            return Some(i);
        }
        i += 1;
    }
    None
}

fn find_remote_row(rows: &Vec<TreeRow>, place: usize) -> (out: Option<usize>)
    ensures
        match out {
            Some(i) => i < rows@.len() && i == remote_row_place(views(rows@), place),
            None => remote_row_place(views(rows@), place) >= rows@.len(),
        },
{
    let ghost all = views(rows@);
    let mut i: usize = 0;
    assert(all.skip(0) == all);
    while i < rows.len()
        invariant
            i <= rows.len(),
            all == views(rows@),
            remote_row_place(all, place) == i + remote_row_place(all.skip(i as int), place),
        decreases rows.len() - i,
    {
        assert(all.skip(i as int)[0] == rows@[i as int]@);
        assert(all.skip(i as int).skip(1) == all.skip(i + 1));
        let found = match &rows[i] {
            TreeRow::RemoteGroup { group_index, .. } => *group_index == place,
            _ => false,
        };
        if found {
            return Some(i);
        }
        i += 1;
    }
    None
}

impl App {
    /// The program at its start, with the sessions and tasks that were known when it last ran.
    pub fn new(
        current_dir: String,
        remote_enabled: bool,
        sessions: Vec<ManagedSession>,
        remote_sessions: Vec<RemoteSession>,
        recent_paths: Vec<String>,
        removed_projects: TextSet,
        project_labels: TextMap<String>,
    ) -> (out: App)
        ensures
            out@ == (AppView {
                current_dir: current_dir@,
                sessions: views(sessions@),
                remote_sessions: views(remote_sessions@),
                remote_state: if remote_sessions@.len() == 0 {
                    RemoteLoadState::NotStarted
                } else {
                    RemoteLoadState::Loaded
                },
                remote_running: false,
                requested: Set::empty(),
                selected_row: 0,
                filter: SessionFilter::All,
                collapsed: Set::empty(),
                cache: Map::empty(),
                message: ""@,
                confirm_close_all: false,
                input: None,
                pending_open: None,
                remote_enabled,
                help_open: false,
                help_scroll: 0,
                recent: views(recent_paths@),
                removed: removed_projects@,
                labels: label_views(project_labels@),
            }),
    {
        let remote_state = if remote_sessions.len() == 0 {
            RemoteLoadState::NotStarted
        } else {
            RemoteLoadState::Loaded
        };
        App {
            current_dir,
            sessions,
            remote_sessions,
            remote_state,
            remote_running: false,
            remote_request_projects: TextSet::new(),
            selected_row: 0,
            active_filter: SessionFilter::All,
            collapsed_groups: TextSet::new(),
            cache: StatusCache::default(),
            message: "".to_owned(),
            confirm_close_all: false,
            input_mode: None,
            pending_open: None,
            remote_enabled,
            shortcut_help_open: false,
            shortcut_help_scroll: 0,
            recent_paths,
            removed_projects,
            project_labels,
        }
    }

    /// The directories of the projects that are followed, in order.
    pub fn tracked_project_dirs(&self) -> (out: Vec<String>)
        ensures
            lists(views(out@), self@.followed()),
            views(out@) == ordered(self@.followed()),
    {
        tracked_project_dirs(
            &self.current_dir,
            &self.sessions,
            &self.remote_sessions,
            &self.recent_paths,
            &self.removed_projects,
        )
    }

    /// The projects of the tree.
    pub fn project_groups(&self) -> (out: Vec<ProjectGroup>)
        requires
            self@.fits(),
        ensures
            views(out@) == self@.groups(),
            crate::groups::is_tree(views(out@), self@.scene()),
    {
        let dirs = self.tracked_project_dirs();
        assert(scene_of(
            self.sessions@,
            self.remote_sessions@,
            dirs@,
            self.project_labels@,
            self.active_filter,
            self.remote_state,
            self.current_dir@,
        ) == self@.scene());
        project_groups(
            &self.sessions,
            &self.remote_sessions,
            &dirs,
            &self.project_labels,
            self.active_filter,
            &self.remote_state,
            &self.current_dir,
        )
    }

    /// The rows of the tree.
    pub fn tree_rows(&self) -> (out: Vec<TreeRow>)
        requires
            self@.fits(),
        ensures
            views(out@) == self@.rows(),
    {
        tree_rows(&self.project_groups(), &self.collapsed_groups, self.active_filter)
    }

    /// The row that is selected.
    pub fn selected_tree_row(&self) -> (out: Option<TreeRow>)
        requires
            self@.fits(),
        ensures
            opt_view(out) == self@.row(),
    {
        let rows = self.tree_rows();
        assert(views(rows@).len() == rows@.len());
        if self.selected_row < rows.len() {
            Some(rows[self.selected_row].clone())
        } else {
            None
        }
    }

    /// The project of the selected row.
    pub fn selected_group(&self) -> (out: Option<ProjectGroup>)
        requires
            self@.fits(),
        ensures
            opt_view(out) == self@.group(),
    {
        let mut groups = self.project_groups();
        let ghost all = views(groups@);
        match self.selected_tree_row() {
            Some(row) => {
                let place = row.group_index();
                assert(place == self@.row()->0.group_place());
                if place < groups.len() {
                    assert(all[place as int] == groups@[place as int]@);
                    Some(groups.swap_remove(place))
                } else {
                    None
                }
            },
            None => None,
        }
    }

    /// The session of the selected row.
    pub fn selected_session(&self) -> (out: Option<&ManagedSession>)
        requires
            self@.fits(),
        ensures
            match out {
                Some(session) => self@.session() == Some(session@),
                None => self@.session() is None,
            },
    {
        match self.selected_tree_row() {
            Some(TreeRow::LocalSession { session_index, .. }) => if session_index
                < self.sessions.len() {
                Some(&self.sessions[session_index])
            } else {
                None
            },
            _ => None,
        }
    }

    /// The task of the selected row.
    pub fn selected_remote_session(&self) -> (out: Option<&RemoteSession>)
        requires
            self@.fits(),
        ensures
            match out {
                Some(session) => self@.remote_session() == Some(session@),
                None => self@.remote_session() is None,
            },
    {
        match self.selected_tree_row() {
            Some(TreeRow::RemoteSession { remote_index, .. }) => if remote_index
                < self.remote_sessions.len() {
                Some(&self.remote_sessions[remote_index])
            } else {
                None
            },
            _ => None,
        }
    }

    /// Puts the selection on a row that is there.
    pub fn clamp_selection(&mut self)
        requires
            old(self)@.fits(),
        ensures
            final(self)@ == old(self)@.clamped(),
    {
        let rows = self.tree_rows();
        assert(views(rows@).len() == rows@.len());
        let n = rows.len();
        if n == 0 {
            self.selected_row = 0;
        } else if self.selected_row >= n {
            self.selected_row = n - 1;
        }
    }

    /// Selects the next row.
    pub fn select_next(&mut self)
        requires
            old(self)@.fits(),
        ensures
            final(self)@ == old(self)@.on_next_row(),
    {
        let rows = self.tree_rows();
        assert(views(rows@).len() == rows@.len());
        let n = rows.len();
        if n > 0 {
            if self.selected_row < n - 1 {
                self.selected_row = self.selected_row + 1;
            } else {
                self.selected_row = n - 1;
            }
        }
    }

    /// Selects the row before.
    pub fn select_previous(&mut self)
        ensures
            final(self)@ == old(self)@.on_previous_row(),
    {
        if self.selected_row > 0 {
            self.selected_row = self.selected_row - 1;
        }
    }

    /// Shows the sessions of the next filter.
    pub fn cycle_filter(&mut self)
        ensures
            final(self)@ == old(self)@.filtered(old(self)@.filter.following()),
    {
        self.active_filter = self.active_filter.next();
        self.selected_row = 0;
    }

    /// Shows the sessions of the filter before.
    pub fn cycle_filter_previous(&mut self)
        ensures
            final(self)@ == old(self)@.filtered(old(self)@.filter.preceding()),
    {
        self.active_filter = self.active_filter.previous();
        self.selected_row = 0;
    }

    fn select_group_row(&mut self, group_index: usize)
        requires
            old(self)@.fits(),
        ensures
            final(self)@ == old(self)@.on_group(group_index),
    {
        let rows = self.tree_rows();
        assert(views(rows@).len() == rows@.len());
        match find_group_row(&rows, group_index) {
            Some(place) => {
                self.selected_row = place;
            },
            None => {},
        }
    }

    fn select_remote_group_row(&mut self, group_index: usize)
        requires
            old(self)@.fits(),
        ensures
            final(self)@ == old(self)@.on_remote_group(group_index),
    {
        let rows = self.tree_rows();
        assert(views(rows@).len() == rows@.len());
        match find_remote_row(&rows, group_index) {
            Some(place) => {
                self.selected_row = place;
            },
            None => {},
        }
    }

    /// Goes from a session to what it stands under, and folds that.
    pub fn collapse_selected_group(&mut self)
        requires
            old(self)@.fits(),
        ensures
            final(self)@ == old(self)@.collapsing(),
    {
        let row = match self.selected_tree_row() {
            Some(row) => row,
            None => {
                return;
            },
        };
        let group = match self.selected_group() {
            Some(group) => group,
            None => {
                return;
            },
        };
        let place = row.group_index();
        match row {
            TreeRow::Group { .. } => {
                self.collapsed_groups.insert(&group.key);
                self.select_group_row(place);
            },
            TreeRow::RemoteGroup { .. } => {
                let key = remote_group_key(&group.key);
                if !self.collapsed_groups.contains(&key) {
                    self.collapsed_groups.insert(&key);
                    self.select_remote_group_row(place);
                } else {
                    self.collapsed_groups.insert(&group.key);
                    self.select_group_row(place);
                }
            },
            TreeRow::LocalSession { under_remote, .. } => {
                if under_remote {
                    self.select_remote_group_row(place);
                } else {
                    self.select_group_row(place);
                }
            },
            TreeRow::RemoteSession { under_remote, .. } => {
                if under_remote {
                    self.select_remote_group_row(place);
                } else {
                    self.select_group_row(place);
                }
            },
            TreeRow::Placeholder { under_remote, .. } => {
                if under_remote {
                    self.select_remote_group_row(place);
                } else {
                    self.select_group_row(place);
                }
            },
        }
    }

    /// Unfolds what the selected row stands under.
    pub fn expand_selected_group(&mut self)
        requires
            old(self)@.fits(),
        ensures
            final(self)@ == old(self)@.expanding(),
    {
        let row = match self.selected_tree_row() {
            Some(row) => row,
            None => {
                return;
            },
        };
        let group = match self.selected_group() {
            Some(group) => group,
            None => {
                return;
            },
        };
        let place = row.group_index();
        let remote = match row {
            TreeRow::RemoteGroup { .. } => true,
            TreeRow::LocalSession { under_remote, .. } => under_remote,
            TreeRow::RemoteSession { under_remote, .. } => under_remote,
            _ => false,
        };
        if remote {
            self.collapsed_groups.remove(&remote_group_key(&group.key));
            self.select_remote_group_row(place);
        } else {
            self.collapsed_groups.remove(&group.key);
            self.select_group_row(place);
        }
    }

    fn toggle(&mut self, key: &str)
        ensures
            final(self)@ == old(self)@.toggling(key@),
    {
        if self.collapsed_groups.contains(key) {
            self.collapsed_groups.remove(key);
        } else {
            self.collapsed_groups.insert(key);
        }
    }

    /// Folds or unfolds the selected project, or its remote part; says whether there was one.
    pub fn toggle_selected_parent(&mut self) -> (done: bool)
        requires
            old(self)@.fits(),
        ensures
            done == old(self)@.is_on_parent(),
            final(self)@ == old(self)@.parent_toggled(),
    {
        let row = match self.selected_tree_row() {
            Some(row) => row,
            None => {
                return false;
            },
        };
        let group = match self.selected_group() {
            Some(group) => group,
            None => {
                return false;
            },
        };
        let place = row.group_index();
        assert(views(group.entries@).len() == group.entries@.len());
        match row {
            TreeRow::Group { .. } => {
                if group.entries.len() > 0 {
                    self.toggle(&group.key);
                    self.select_group_row(place);
                    true
                } else {
                    false
                }
            },
            TreeRow::RemoteGroup { .. } => {
                let entries = group.remote_entries();
                assert(views(entries@).len() == entries@.len());
                if entries.len() > 0 {
                    self.toggle(&remote_group_key(&group.key));
                    self.select_remote_group_row(place);
                    true
                } else {
                    false
                }
            },
            _ => false,
        }
    }

    /// Folds or unfolds a project, opens a session or a task.
    pub fn open_selected(&mut self) -> (out: Effect)
        requires
            old(self)@.fits(),
        ensures
            (final(self)@, out@) == old(self)@.opening(),
    {
        let ghost before = self@;
        if self.toggle_selected_parent() {
            return Effect::Nothing;
        }
        assert(self@ == before);
        let name = match self.selected_session() {
            Some(session) => Some(session.name.clone()),
            None => None,
        };
        if name.is_some() {
            self.pending_open = name;
            return Effect::Nothing;
        }
        match self.selected_remote_session() {
            Some(remote) => {
                return Effect::OpenRemote {
                    id: remote.id.clone(),
                    display_name: remote.display_name.clone(),
                };
            },
            None => {},
        }
        self.message = "select a session to open".to_owned();
        Effect::Nothing
    }

    /// Whether new sessions run with remote control.
    pub fn new_session_remote_enabled(&self) -> (yes: bool)
        requires
            self@.fits(),
        ensures
            yes == self@.starts_remote(),
    {
        if self.remote_enabled {
            return true;
        }
        match self.selected_tree_row() {
            Some(row) => {
                assert(row@.is_remote_row() == row.is_remote_row());
                row.is_remote_context()
            },
            None => false,
        }
    }

    /// What a new session in the selected project takes.
    pub fn new_session(&self) -> (out: Effect)
        requires
            self@.fits(),
        ensures
            out@ == self@.new_session_effect(),
    {
        let path = match self.selected_group() {
            Some(group) => group.path,
            None => self.current_dir.clone(),
        };
        Effect::NewSession { path, remote_enabled: self.new_session_remote_enabled() }
    }

    /// What ending the selected session takes.
    pub fn close_selected(&mut self) -> (out: Effect)
        requires
            old(self)@.fits(),
        ensures
            (final(self)@, out@) == old(self)@.closing(),
    {
        match self.selected_session() {
            Some(session) => {
                return Effect::CloseSession {
                    name: session.name.clone(),
                    display_name: session.display_name.clone(),
                };
            },
            None => {},
        }
        if self.selected_remote_session().is_some() {
            self.message = "remote sessions cannot be closed locally".to_owned();
        } else {
            self.message = "select a session to close".to_owned();
        }
        Effect::Nothing
    }

    fn session_names_in(&self, dir: &str) -> (out: Vec<String>)
        ensures
            views(out@) == names_in(self@.sessions, dir@),
    {
        let mut out: Vec<String> = Vec::new();
        let ghost all = views(self.sessions@);
        let mut i: usize = 0;
        while i < self.sessions.len()
            invariant
                i <= self.sessions.len(),
                all == views(self.sessions@),
                views(out@) == names_in(all.take(i as int), dir@),
            decreases self.sessions.len() - i,
        {
            let session = &self.sessions[i];
            assert(all.take(i + 1).drop_last() == all.take(i as int));
            assert(all.take(i + 1).last() == session@);
            if same_text(&session.project_dir, dir) {
                let ghost before = out@;
                out.push(session.name.clone());
                assert(views(out@) == views(before).push(session.name@));
            }
            i += 1;
        }
        assert(all.take(self.sessions@.len() as int) == all);
        out
    }

    /// What removing the selected project takes.
    pub fn remove_selected_project(&mut self) -> (out: Effect)
        requires
            old(self)@.fits(),
        ensures
            (final(self)@, out@) == old(self)@.removing(),
    {
        match self.selected_group() {
            Some(group) => {
                let names = self.session_names_in(&group.path);
                Effect::RemoveProject { path: group.path, display_name: group.display_name, names }
            },
            None => {
                self.message = "select a project to remove".to_owned();
                Effect::Nothing
            },
        }
    }

    /// What showing the selected task in the browser takes.
    pub fn open_selected_remote_url(&mut self) -> (out: Effect)
        requires
            old(self)@.fits(),
        ensures
            (final(self)@, out@) == old(self)@.browsing(),
    {
        match self.selected_remote_session() {
            Some(remote) => {
                return Effect::OpenUrl {
                    id: remote.id.clone(),
                    display_name: remote.display_name.clone(),
                    url: copy_opt(&remote.url),
                };
            },
            None => {},
        }
        self.message = "select a remote session to open in the browser".to_owned();
        Effect::Nothing
    }

    /// What showing the pull request of the selected task takes.
    pub fn open_selected_remote_pr(&mut self) -> (out: Effect)
        requires
            old(self)@.fits(),
        ensures
            (final(self)@, out@) == old(self)@.browsing_pull_request(),
    {
        let message = match self.selected_remote_session() {
            Some(remote) => match &remote.pr_url {
                Some(url) => {
                    return Effect::OpenPullRequest {
                        display_name: remote.display_name.clone(),
                        pr_url: url.clone(),
                    };
                },
                None => concat(&remote.display_name, " has no pull request"),
            },
            None => "select a remote session to open its pull request".to_owned(),
        };
        self.message = message;
        Effect::Nothing
    }

    /// Asks for the directory of a new session.
    pub fn prompt_new_session_dir(&mut self, remote_enabled: bool)
        ensures
            final(self)@ == old(self)@.asking_for_session_dir(remote_enabled),
    {
        self.input_mode = Some(
            InputMode::NewSessionDirectory {
                buffer: "".to_owned(),
                remote_enabled,
                completion_prefix: None,
                completion_index: 0,
            },
        );
        self.message = if remote_enabled {
            "enter repo path for remote session".to_owned()
        } else {
            "enter repo path for local session".to_owned()
        };
    }

    /// Asks for the directory of a new project.
    pub fn prompt_new_project_dir(&mut self)
        ensures
            final(self)@ == old(self)@.asking_for_project_dir(),
    {
        self.input_mode = Some(
            InputMode::NewProjectDirectory {
                buffer: "".to_owned(),
                completion_prefix: None,
                completion_index: 0,
            },
        );
        self.message = "enter project repo path".to_owned();
    }

    /// Shows the list of shortcuts.
    pub fn open_shortcut_help(&mut self)
        ensures
            final(self)@ == old(self)@.with_help(true),
    {
        self.shortcut_help_open = true;
        self.shortcut_help_scroll = 0;
    }

    /// Hides the list of shortcuts.
    pub fn close_shortcut_help(&mut self)
        ensures
            final(self)@ == old(self)@.with_help(false),
    {
        self.shortcut_help_open = false;
        self.shortcut_help_scroll = 0;
    }

    /// Scrolls the list of shortcuts up.
    pub fn scroll_shortcut_help_up(&mut self, amount: u16)
        ensures
            final(self)@ == old(self)@.help_up(amount),
    {
        if self.shortcut_help_scroll < amount {
            self.shortcut_help_scroll = 0;
        } else {
            self.shortcut_help_scroll = self.shortcut_help_scroll - amount;
        }
    }

    /// Scrolls the list of shortcuts down.
    pub fn scroll_shortcut_help_down(&mut self, amount: u16)
        ensures
            final(self)@ == old(self)@.help_down(amount),
    {
        if (self.shortcut_help_scroll as u32) + (amount as u32) < HELP_LINES as u32 {
            self.shortcut_help_scroll = self.shortcut_help_scroll + amount;
        } else {
            self.shortcut_help_scroll = HELP_LINES - 1;
        }
    }

    /// Scrolls the list of shortcuts so that it fills as many lines as can be seen.
    pub fn clamp_shortcut_help_scroll(&mut self, visible_lines: u16)
        ensures
            final(self)@ == old(self)@.help_clamped(visible_lines),
    {
        let most: u16 = if visible_lines < HELP_LINES { HELP_LINES - visible_lines } else { 0 };
        if self.shortcut_help_scroll >= most {
            self.shortcut_help_scroll = most;
        }
    }

    /// A key while the list of shortcuts may be shown; says whether it was.
    pub fn handle_shortcut_help_key(&mut self, code: Key) -> (done: bool)
        ensures
            done == old(self)@.help_open,
            final(self)@ == if old(self)@.help_open {
                old(self)@.help_key(code)
            } else {
                old(self)@
            },
    {
        if !self.shortcut_help_open {
            return false;
        }
        match code {
            Key::Esc => self.close_shortcut_help(),
            Key::Char(c) => {
                if c == 'q' || c == '?' {
                    self.close_shortcut_help();
                } else if c == 'k' {
                    self.scroll_shortcut_help_up(1);
                } else if c == 'j' {
                    self.scroll_shortcut_help_down(1);
                }
            },
            Key::Up => self.scroll_shortcut_help_up(1),
            Key::Down => self.scroll_shortcut_help_down(1),
            Key::PageUp => self.scroll_shortcut_help_up(6),
            Key::PageDown => self.scroll_shortcut_help_down(6),
            Key::Home => {
                self.shortcut_help_scroll = 0;
            },
            Key::End => self.scroll_shortcut_help_down(u16::MAX),
            _ => {},
        }
        true
    }

    /// The mouse wheel while the list of shortcuts may be shown; says whether it was.
    pub fn handle_shortcut_help_mouse(&mut self, wheel: Wheel) -> (done: bool)
        ensures
            done == old(self)@.help_open,
            final(self)@ == if !old(self)@.help_open {
                old(self)@
            } else {
                match wheel {
                    Wheel::Up => old(self)@.help_up(3),
                    Wheel::Down => old(self)@.help_down(3),
                    Wheel::Other => old(self)@,
                }
            },
            !old(self)@.help_open || wheel is Other ==> final(self)@ == old(self)@,
            old(self)@.help_open && wheel is Up ==> final(self)@.help_scroll == if old(
                self,
            )@.help_scroll < 3 {
                0
            } else {
                old(self)@.help_scroll - 3
            },
            old(self)@.help_open && wheel is Down && old(self)@.help_scroll + 3 < HELP_LINES
                ==> final(self)@.help_scroll == old(self)@.help_scroll + 3,
    {
        if !self.shortcut_help_open {
            return false;
        }
        match wheel {
            Wheel::Up => self.scroll_shortcut_help_up(3),
            Wheel::Down => self.scroll_shortcut_help_down(3),
            Wheel::Other => {},
        }
        true
    }
}


// ---------------------------------------------------------------------------
// Keys
// ---------------------------------------------------------------------------
fn type_key(
    typed: Completion,
    key: Key,
    recent_paths: &Vec<String>,
    home: Option<&str>,
) -> (out: Completion)
    ensures
        completion_view(out) == typed_key(
            completion_view(typed),
            key,
            views(recent_paths@),
            opt_str(home),
        ),
{
    let mut buffer = typed.buffer;
    let mut prefix = typed.prefix;
    let mut index = typed.index;
    match key {
        Key::Backspace => {
            let s = chars_of(&buffer);
            if s.len() > 0 {
                assert(s@.subrange(0, s@.len() - 1) == buffer@.drop_last());
                buffer = string_of(part(&s, 0, s.len() - 1));
            }
            prefix = None;
            index = 0;
        },
        Key::Tab => {
            complete_path_input(&mut buffer, &mut prefix, &mut index, recent_paths, home, false);
        },
        Key::BackTab => {
            complete_path_input(&mut buffer, &mut prefix, &mut index, recent_paths, home, true);
        },
        Key::Char(c) => {
            buffer.push(c);
            prefix = None;
            index = 0;
        },
        _ => {},
    }
    Completion { buffer, prefix, index }
}

/// A typed path, as contracts speak of it.
pub open spec fn completion_view(typed: Completion) -> Completion<Seq<char>> {
    Completion { buffer: typed.buffer@, prefix: opt_view(typed.prefix), index: typed.index }
}

impl App {
    /// A key while a path may be typed in; nothing is done where none is. The value of `HOME`
    /// serves to complete paths.
    pub fn handle_input_key(&mut self, key: Key, home: Option<&str>) -> (out: Effect)
        ensures
            (final(self)@, out@) == old(self)@.input_key(key, opt_str(home)),
    {
        let mode = self.input_mode.take();
        match mode {
            None => Effect::Nothing,
            Some(InputMode::NewSessionDirectory {
                buffer,
                remote_enabled,
                completion_prefix,
                completion_index,
            }) => match key {
                Key::Esc => {
                    self.message = "new repo session cancelled".to_owned();
                    Effect::Nothing
                },
                Key::Enter => Effect::StartSession {
                    path: string_of(trimmed(&chars_of(&buffer))),
                    remote_enabled,
                },
                _ => {
                    let typed = type_key(
                        Completion { buffer, prefix: completion_prefix, index: completion_index },
                        key,
                        &self.recent_paths,
                        home,
                    );
                    self.input_mode = Some(
                        InputMode::NewSessionDirectory {
                            buffer: typed.buffer,
                            remote_enabled,
                            completion_prefix: typed.prefix,
                            completion_index: typed.index,
                        },
                    );
                    Effect::Nothing
                },
            },
            Some(InputMode::NewProjectDirectory { buffer, completion_prefix, completion_index }) =>
            match key {
                Key::Esc => {
                    self.message = "new project cancelled".to_owned();
                    Effect::Nothing
                },
                Key::Enter => Effect::AddProject { path: string_of(trimmed(&chars_of(&buffer))) },
                _ => {
                    let typed = type_key(
                        Completion { buffer, prefix: completion_prefix, index: completion_index },
                        key,
                        &self.recent_paths,
                        home,
                    );
                    self.input_mode = Some(
                        InputMode::NewProjectDirectory {
                            buffer: typed.buffer,
                            completion_prefix: typed.prefix,
                            completion_index: typed.index,
                        },
                    );
                    Effect::Nothing
                },
            },
        }
    }

    fn all_names(&self) -> (out: Vec<String>)
        ensures
            views(out@) == session_names(self@.sessions),
    {
        let mut out: Vec<String> = Vec::new();
        let ghost wanted = session_names(views(self.sessions@));
        let mut i: usize = 0;
        while i < self.sessions.len()
            invariant
                i <= self.sessions.len(),
                wanted == session_names(views(self.sessions@)),
                views(out@) == wanted.take(i as int),
            decreases self.sessions.len() - i,
        {
            let ghost before = out@;
            out.push(self.sessions[i].name.clone());
            assert(views(out@) == views(before).push(wanted[i as int]));
            i += 1;
        }
        assert(wanted.take(self.sessions@.len() as int) == wanted);
        out
    }

    fn handle_confirm_key(&mut self, key: Key) -> (out: Effect)
        ensures
            (final(self)@, out@) == old(self)@.confirm_key(key),
    {
        if key == Key::Char('y') || key == Key::Char('Y') {
            Effect::CloseAll { names: self.all_names() }
        } else if key == Key::Esc || key == Key::Char('n') || key == Key::Char('N') {
            self.confirm_close_all = false;
            self.message = "close all cancelled".to_owned();
            Effect::Nothing
        } else {
            Effect::Nothing
        }
    }

    fn ask_to_close_all(&mut self)
        ensures
            final(self)@ == old(self)@.asking_to_close_all(),
    {
        assert(views(self.sessions@).len() == self.sessions@.len());
        if self.sessions.len() == 0 {
            self.message = "no managed sessions to close".to_owned();
        } else {
            self.confirm_close_all = true;
        }
    }

    fn handle_char(&mut self, c: char, shift: bool) -> (out: Effect)
        requires
            old(self)@.fits(),
        ensures
            (final(self)@, out@) == old(self)@.main_key(Key::Char(c), shift),
    {
        if c == 'q' {
            return Effect::Quit;
        } else if c == 'j' {
            self.select_next();
        } else if c == 'k' {
            self.select_previous();
        } else if c == 'o' {
            return self.open_selected();
        } else if c == 'n' {
            return self.new_session();
        } else if c == 'N' {
            self.prompt_new_session_dir(false);
        } else if c == 'P' {
            self.prompt_new_project_dir();
        } else if c == 'd' {
            return self.remove_selected_project();
        } else if c == 'x' {
            return self.close_selected();
        } else if c == 'X' {
            self.ask_to_close_all();
        } else if c == 'r' {
            return Effect::Refresh;
        } else if c == 'w' {
            return self.open_selected_remote_url();
        } else if c == 'p' {
            return self.open_selected_remote_pr();
        }
        Effect::Nothing
    }

    fn handle_main_key(&mut self, key: Key, shift: bool) -> (out: Effect)
        requires
            old(self)@.fits(),
        ensures
            (final(self)@, out@) == old(self)@.main_key(key, shift),
    {
        match key {
            Key::Esc => Effect::Quit,
            Key::BackTab => {
                self.cycle_filter_previous();
                Effect::Nothing
            },
            Key::Tab => {
                if shift {
                    self.cycle_filter_previous();
                } else {
                    self.cycle_filter();
                }
                Effect::Nothing
            },
            Key::Left => {
                self.collapse_selected_group();
                Effect::Nothing
            },
            Key::Right => {
                self.expand_selected_group();
                Effect::Nothing
            },
            Key::Down => {
                self.select_next();
                Effect::Nothing
            },
            Key::Up => {
                self.select_previous();
                Effect::Nothing
            },
            Key::Enter => self.open_selected(),
            Key::Char(c) => self.handle_char(c, shift),
            _ => Effect::Nothing,
        }
    }

    /// A key: changes the state, and says what has to be done. `home` is the value of `HOME`.
    pub fn on_key(&mut self, key: Key, shift: bool, home: Option<&str>) -> (out: Effect)
        requires
            old(self)@.fits(),
        ensures
            (final(self)@, out@) == old(self)@.after_key(key, shift, opt_str(home)),
    {
        if self.input_mode.is_some() {
            return self.handle_input_key(key, home);
        }
        if self.handle_shortcut_help_key(key) {
            return Effect::Nothing;
        }
        if key == Key::Char('?') {
            self.open_shortcut_help();
            return Effect::Nothing;
        }
        if self.confirm_close_all {
            return self.handle_confirm_key(key);
        }
        self.handle_main_key(key, shift)
    }
}


// ---------------------------------------------------------------------------
// What was done in the world
// ---------------------------------------------------------------------------
/// What a run of a program came to.
#[derive(Debug, PartialEq, Eq)]
pub enum Outcome<T = String> {
    /// It ended well.
    Done,
    /// It ended with a status, given in words.
    Exited(T),
    /// It could not be run.
    Failed(T),
}

impl View for Outcome<String> {
    type V = Outcome<Seq<char>>;

    open spec fn view(&self) -> Outcome<Seq<char>> {
        match self {
            Outcome::Done => Outcome::Done,
            Outcome::Exited(status) => Outcome::Exited(status@),
            Outcome::Failed(error) => Outcome::Failed(error@),
        }
    }
}

/// What is said of a run: the words for where it ended well, the words before a status, or the
/// error.
pub open spec fn outcome_text(
    outcome: Outcome<Seq<char>>,
    done: Seq<char>,
    exited: Seq<char>,
) -> Seq<char> {
    match outcome {
        Outcome::Done => done,
        Outcome::Exited(status) => exited + status,
        Outcome::Failed(error) => error,
    }
}

/// The cached hashes without those of the given sessions.
pub open spec fn cache_without(cache: Map<Seq<char>, u64>, names: Seq<Seq<char>>) -> Map<
    Seq<char>,
    u64,
>
    decreases names.len(),
{
    if names.len() == 0 {
        cache
    } else {
        cache_without(cache, names.drop_last()).remove(names.last())
    }
}

/// The tasks that are not in a directory.
pub open spec fn tasks_outside(remote: Seq<RemoteSession<Seq<char>>>, dir: Seq<char>) -> Seq<
    RemoteSession<Seq<char>>,
>
    decreases remote.len(),
{
    if remote.len() == 0 {
        seq![]
    } else if remote.last().project_dir == dir {
        tasks_outside(remote.drop_last(), dir)
    } else {
        tasks_outside(remote.drop_last(), dir).push(remote.last())
    }
}

/// The tasks that are in one of the directories.
pub open spec fn tasks_within(
    remote: Seq<RemoteSession<Seq<char>>>,
    dirs: Set<Seq<char>>,
) -> Seq<RemoteSession<Seq<char>>>
    decreases remote.len(),
{
    if remote.len() == 0 {
        seq![]
    } else if dirs.contains(remote.last().project_dir) {
        tasks_within(remote.drop_last(), dirs).push(remote.last())
    } else {
        tasks_within(remote.drop_last(), dirs)
    }
}

/// The tasks in a directory, as the cache holds them.
pub open spec fn cached_in(remote: Seq<RemoteSession<Seq<char>>>, dir: Seq<char>) -> Seq<
    CachedRemoteSession<Seq<char>>,
>
    decreases remote.len(),
{
    if remote.len() == 0 {
        seq![]
    } else if remote.last().project_dir == dir {
        cached_in(remote.drop_last(), dir).push(cached(remote.last()))
    } else {
        cached_in(remote.drop_last(), dir)
    }
}

/// The projects of a list that have no name yet.
pub open spec fn unlabelled(
    dirs: Seq<Seq<char>>,
    labels: Map<Seq<char>, Seq<char>>,
) -> Seq<Seq<char>>
    decreases dirs.len(),
{
    if dirs.len() == 0 {
        seq![]
    } else if labels.contains_key(dirs.last()) {
        unlabelled(dirs.drop_last(), labels)
    } else {
        unlabelled(dirs.drop_last(), labels).push(dirs.last())
    }
}

/// The tasks of a project that are to be written to the cache.
#[derive(Debug, PartialEq, Eq)]
pub struct CacheUpdate<T = String, L = Vec<CachedRemoteSession<T>>> {
    pub project_dir: T,
    pub sessions: L,
}

/// The tasks of a project that are to be written, as contracts speak of them.
pub type CacheUpdateView = CacheUpdate<Seq<char>, Seq<CachedRemoteSession<Seq<char>>>>;

impl View for CacheUpdate<String, Vec<CachedRemoteSession<String>>> {
    type V = CacheUpdateView;

    open spec fn view(&self) -> CacheUpdateView {
        CacheUpdate { project_dir: self.project_dir@, sessions: views(self.sessions@) }
    }
}

/// What is to be written to the cache for the given projects.
pub open spec fn cache_updates(
    dirs: Seq<Seq<char>>,
    remote: Seq<RemoteSession<Seq<char>>>,
) -> Seq<CacheUpdateView> {
    Seq::new(
        dirs.len(),
        |i: int| CacheUpdate { project_dir: dirs[i], sessions: cached_in(remote, dirs[i]) },
    )
}

/// How far the list of remote tasks is, by the tasks in it.
pub open spec fn listed_state(remote: Seq<RemoteSession<Seq<char>>>) -> RemoteLoadState<Seq<char>> {
    if remote.len() == 0 {
        RemoteLoadState::Empty
    } else {
        RemoteLoadState::Loaded
    }
}

impl AppView {
    /// The state once a session was started.
    pub open spec fn session_started(
        self,
        name: Seq<char>,
        display_name: Seq<char>,
        remote_enabled: bool,
    ) -> AppView {
        AppView {
            message: if remote_enabled {
                "created remote "@ + display_name
            } else {
                "created "@ + display_name
            },
            pending_open: Some(name),
            ..self
        }
    }

    /// The state once a project was removed.
    pub open spec fn without_project(
        self,
        path: Seq<char>,
        display_name: Seq<char>,
        names: Seq<Seq<char>>,
        recent: Seq<Seq<char>>,
    ) -> AppView {
        AppView {
            cache: cache_without(self.cache, names),
            recent,
            removed: self.removed.insert(path),
            remote_sessions: tasks_outside(self.remote_sessions, path),
            labels: self.labels.remove(path),
            collapsed: self.collapsed.remove(path).remove(remote_key(path)),
            message: if names.len() == 0 {
                "removed "@ + display_name
            } else {
                "removed "@ + display_name + " and closed "@ + decimal(names.len())
                    + " session(s)"@
            },
            ..self
        }
    }

    /// The listed tasks still matter: one of the projects that were asked for is followed.
    pub open spec fn is_awaiting(self) -> bool {
        exists|dir: Seq<char>| self.requested.contains(dir) && #[trigger] self.followed().contains(dir)
    }

    /// The state once the tasks were listed, before the selection is put on a row that is there.
    pub open spec fn tasks_listed(
        self,
        result: Result<Seq<RemoteSession<Seq<char>>>, Seq<char>>,
    ) -> AppView {
        let idle = AppView { remote_running: false, requested: Set::empty(), ..self };
        if !self.is_awaiting() {
            AppView { remote_state: listed_state(self.remote_sessions), ..idle }
        } else {
            match result {
                Ok(sessions) => {
                    let kept = tasks_within(sessions, self.followed());
                    AppView { remote_sessions: kept, remote_state: listed_state(kept), ..idle }
                },
                Err(error) => AppView { remote_state: RemoteLoadState::Failed(error), ..idle },
            }
        }
    }

    /// What is to be written to the cache once the tasks were listed.
    pub open spec fn updates_of(
        self,
        result: Result<Seq<RemoteSession<Seq<char>>>, Seq<char>>,
    ) -> Seq<CacheUpdateView> {
        match result {
            Ok(sessions) => if self.is_awaiting() {
                cache_updates(
                    ordered(self.followed()),
                    tasks_within(sessions, self.followed()),
                )
            } else {
                seq![]
            },
            Err(_) => seq![],
        }
    }

    /// The state once the tasks are being listed, where there is a project to list them for and
    /// they are not being listed already.
    pub open spec fn listing_started(self) -> AppView {
        if self.remote_running {
            self
        } else if ordered(self.followed()).len() == 0 {
            AppView { remote_state: RemoteLoadState::Empty, ..self }
        } else {
            AppView {
                requested: self.followed(),
                remote_state: RemoteLoadState::Loading,
                remote_running: true,
                ..self
            }
        }
    }
}

impl App {
    /// Takes the sessions that were listed in place of those known.
    pub fn replace_sessions(&mut self, sessions: Vec<ManagedSession>)
        ensures
            final(self)@ == (AppView { sessions: views(sessions@), ..old(self)@ }),
    {
        self.sessions = sessions;
    }

    /// The projects that are followed and have no name yet, in order.
    pub fn unlabelled_projects(&self) -> (out: Vec<String>)
        ensures
            views(out@) == unlabelled(ordered(self@.followed()), self@.labels),
    {
        let dirs = self.tracked_project_dirs();
        let ghost all = views(dirs@);
        let mut out: Vec<String> = Vec::new();
        let mut i: usize = 0;
        while i < dirs.len()
            invariant
                i <= dirs.len(),
                all == views(dirs@),
                views(out@) == unlabelled(all.take(i as int), self@.labels),
            decreases dirs.len() - i,
        {
            assert(all.take(i + 1).drop_last() == all.take(i as int));
            assert(all.take(i + 1).last() == dirs@[i as int]@);
            if !self.project_labels.contains_key(&dirs[i]) {
                let ghost before = out@;
                out.push(dirs[i].clone());
                assert(views(out@) == views(before).push(dirs@[i as int]@));
            }
            i += 1;
        }
        assert(all.take(dirs@.len() as int) == all);
        out
    }

    /// Gives a project a name, unless it has one.
    pub fn add_label(&mut self, project_dir: &str, label: String)
        ensures
            final(self)@ == (AppView {
                labels: if old(self)@.labels.contains_key(project_dir@) {
                    old(self)@.labels
                } else {
                    old(self)@.labels.insert(project_dir@, label@)
                },
                ..old(self)@
            }),
            final(self)@.labels.contains_key(project_dir@),
            forall|dir: Seq<char>| #[trigger]
                old(self)@.labels.contains_key(dir) ==> final(self)@.labels.contains_key(dir)
                    && final(self)@.labels[dir] == old(self)@.labels[dir],
            !old(self)@.labels.contains_key(project_dir@) ==> final(self)@.labels[project_dir@]
                == label@,
    {
        if !self.project_labels.contains_key(project_dir) {
            let ghost before = self.project_labels@;
            self.project_labels.insert(project_dir, label);
            assert(label_views(before.insert(project_dir@, label)) =~= label_views(before).insert(
                project_dir@,
                label@,
            ));
        }
    }

    /// A project is followed again.
    pub fn project_restored(&mut self, project_dir: &str)
        ensures
            final(self)@ == (AppView {
                removed: old(self)@.removed.remove(project_dir@),
                ..old(self)@
            }),
    {
        self.removed_projects.remove(project_dir);
    }

    /// A path was used: the recent paths are new, and its project is followed again.
    pub fn path_recorded(&mut self, project_dir: &str, recent_paths: Vec<String>)
        ensures
            final(self)@ == (AppView {
                recent: views(recent_paths@),
                removed: old(self)@.removed.remove(project_dir@),
                ..old(self)@
            }),
    {
        self.recent_paths = recent_paths;
        self.removed_projects.remove(project_dir);
    }

    /// A session was started.
    pub fn session_created(&mut self, session: &ManagedSession, remote_enabled: bool)
        ensures
            final(self)@ == old(self)@.session_started(
                session.name@,
                session.display_name@,
                remote_enabled,
            ),
    {
        self.message = if remote_enabled {
            concat("created remote ", &session.display_name)
        } else {
            concat("created ", &session.display_name)
        };
        self.pending_open = Some(session.name.clone());
    }

    /// A project is followed: says so by its name, or by the given one where it has none.
    pub fn project_added(&mut self, project_dir: &str, label: String)
        requires
            old(self)@.fits(),
        ensures
            final(self)@ == old(self)@.saying(
                "added project "@ + if old(self)@.labels.contains_key(project_dir@) {
                    old(self)@.labels[project_dir@]
                } else {
                    label@
                },
            ).clamped(),
    {
        let known = match self.project_labels.get(project_dir) {
            Some(known) => known.clone(),
            None => label,
        };
        self.message = concat("added project ", &known);
        self.clamp_selection();
    }

    /// A session was ended.
    pub fn session_closed(&mut self, name: &str, display_name: &str)
        ensures
            final(self)@ == (AppView {
                cache: old(self)@.cache.remove(name@),
                message: "closed "@ + display_name@,
                ..old(self)@
            }),
    {
        self.cache.remove(name);
        self.message = concat("closed ", display_name);
    }

    /// A project was removed and its sessions were ended.
    pub fn project_removed(
        &mut self,
        path: &str,
        display_name: &str,
        names: &Vec<String>,
        recent_paths: Vec<String>,
    )
        ensures
            final(self)@ == old(self)@.without_project(
                path@,
                display_name@,
                views(names@),
                views(recent_paths@),
            ),
    {
        let ghost before = self@;
        let ghost all = views(names@);
        let mut i: usize = 0;
        while i < names.len()
            invariant
                i <= names.len(),
                all == views(names@),
                self@ == (AppView {
                    cache: cache_without(before.cache, all.take(i as int)),
                    ..before
                }),
            decreases names.len() - i,
        {
            assert(all.take(i + 1).drop_last() == all.take(i as int));
            assert(all.take(i + 1).last() == names@[i as int]@);
            self.cache.remove(&names[i]);
            i += 1;
        }
        assert(all.take(names@.len() as int) == all);
        self.recent_paths = recent_paths;
        self.removed_projects.insert(path);
        self.remote_sessions = keep_outside(&self.remote_sessions, path);
        let ghost labels = self.project_labels@;
        self.project_labels.remove(path);
        assert(label_views(labels.remove(path@)) =~= label_views(labels).remove(path@));
        self.collapsed_groups.remove(path);
        self.collapsed_groups.remove(&remote_group_key(path));
        self.message = if names.len() == 0 {
            concat("removed ", display_name)
        } else {
            let start = concat(&concat("removed ", display_name), " and closed ");
            concat(&concat(&start, &count_text(names.len())), " session(s)")
        };
    }

    /// All sessions were ended.
    pub fn all_closed(&mut self, count: usize)
        ensures
            final(self)@ == (AppView {
                cache: Map::empty(),
                confirm_close_all: false,
                message: "closed "@ + decimal(count as nat) + " managed session(s)"@,
                ..old(self)@
            }),
    {
        self.cache.clear();
        self.confirm_close_all = false;
        self.message = concat(&concat("closed ", &count_text(count)), " managed session(s)");
    }

    /// A remote task was joined in a session.
    pub fn remote_opened(&mut self, display_name: &str, name: &str)
        ensures
            final(self)@ == (AppView {
                message: "opened remote "@ + display_name@,
                pending_open: Some(name@),
                ..old(self)@
            }),
    {
        self.message = concat("opened remote ", display_name);
        self.pending_open = Some(name.to_owned());
    }

    /// A remote task was to be shown in the browser.
    pub fn url_opened(&mut self, display_name: &str, outcome: Outcome)
        ensures
            final(self)@ == old(self)@.saying(
                outcome_text(
                    outcome@,
                    "opened remote "@ + display_name@,
                    "remote browser opener exited with "@,
                ),
            ),
    {
        self.message = match outcome {
            Outcome::Done => concat("opened remote ", display_name),
            Outcome::Exited(status) => concat("remote browser opener exited with ", &status),
            Outcome::Failed(error) => error,
        };
    }

    /// A pull request was to be shown in the browser.
    pub fn pull_request_opened(&mut self, display_name: &str, outcome: Outcome)
        ensures
            final(self)@ == old(self)@.saying(
                outcome_text(
                    outcome@,
                    "opened pull request for "@ + display_name@,
                    "pull request opener exited with "@,
                ),
            ),
    {
        self.message = match outcome {
            Outcome::Done => concat("opened pull request for ", display_name),
            Outcome::Exited(status) => concat("pull request opener exited with ", &status),
            Outcome::Failed(error) => error,
        };
    }

    /// A session is to be shown.
    pub fn show_session(&mut self, name: String)
        ensures
            final(self)@ == (AppView { pending_open: Some(name@), ..old(self)@ }),
    {
        self.pending_open = Some(name);
    }

    /// Takes the name of the session that is to be shown.
    pub fn take_pending(&mut self) -> (out: Option<String>)
        ensures
            opt_view(out) == old(self)@.pending_open,
            final(self)@ == (AppView { pending_open: None, ..old(self)@ }),
    {
        self.pending_open.take()
    }

    /// A session was shown; `attached` is what went wrong with that, `marked` what went wrong with
    /// marking it as looked at.
    pub fn session_left(&mut self, attached: Option<String>, marked: Option<String>)
        ensures
            final(self)@ == old(self)@.saying(
                match (opt_view(attached), opt_view(marked)) {
                    (Some(error), _) => error,
                    (None, Some(error)) => "returned from tmux; could not mark seen: "@ + error,
                    (None, None) => "returned from tmux"@,
                },
            ),
    {
        self.message = match (attached, marked) {
            (Some(error), _) => error,
            (None, Some(error)) => concat("returned from tmux; could not mark seen: ", &error),
            (None, None) => "returned from tmux".to_owned(),
        };
    }

    /// Says something.
    pub fn say(&mut self, message: String)
        ensures
            final(self)@ == old(self)@.saying(message@),
    {
        self.message = message;
    }

    /// The sessions were listed anew; `started` says whether the tasks are now, too.
    pub fn refreshed(&mut self, started: bool)
        ensures
            final(self)@ == old(self)@.saying(
                if started {
                    "refreshing"@
                } else {
                    "refresh already running"@
                },
            ),
    {
        self.message = if started {
            "refreshing".to_owned()
        } else {
            "refresh already running".to_owned()
        };
    }

    /// Gives the projects for which the remote tasks are now to be listed, in order; nothing where
    /// they are being listed or there is none.
    pub fn start_remote_load(&mut self) -> (out: Option<Vec<String>>)
        ensures
            final(self)@ == old(self)@.listing_started(),
            match out {
                Some(dirs) => !old(self)@.remote_running && dirs@.len() > 0 && views(dirs@)
                    == ordered(old(self)@.followed()),
                None => old(self)@.remote_running || ordered(old(self)@.followed()).len() == 0,
            },
    {
        if self.remote_running {
            return None;
        }
        let dirs = self.tracked_project_dirs();
        assert(views(dirs@).len() == dirs@.len());
        if dirs.len() == 0 {
            self.remote_state = RemoteLoadState::Empty;
            return None;
        }
        let requested = set_of(&dirs);
        self.remote_request_projects = requested;
        self.remote_state = RemoteLoadState::Loading;
        self.remote_running = true;
        Some(dirs)
    }

    /// The remote tasks were listed, or could not be: takes them, puts the selection on a row that
    /// is there, and gives what is to be written to the cache.
    pub fn remote_load_finished(&mut self, result: Result<Vec<RemoteSession>, String>) -> (out: Vec<
        CacheUpdate,
    >)
        requires
            old(self)@.fits(),
            match result {
                Ok(sessions) => old(self)@.sessions.len() + sessions@.len() <= usize::MAX,
                Err(_) => true,
            },
        ensures
            final(self)@ == old(self)@.tasks_listed(crate::remote::list_view(result)).clamped(),
            views(out@) == old(self)@.updates_of(crate::remote::list_view(result)),
    {
        let ghost before = self@;
        let mut updates: Vec<CacheUpdate> = Vec::new();
        let dirs = self.tracked_project_dirs();
        let ghost all = views(dirs@);
        assert(all.to_set() == before.followed());
        let awaited = self.remote_request_projects.meets(&dirs);
        proof {
            if awaited {
                let i = choose|i: int|
                    0 <= i < dirs@.len() && before.requested.contains(#[trigger] dirs@[i]@);
                assert(all[i] == dirs@[i]@);
                assert(all.to_set().contains(all[i]));
                assert(before.followed().contains(dirs@[i]@));
            }
            if before.is_awaiting() {
                let dir = choose|dir: Seq<char>|
                    before.requested.contains(dir) && #[trigger] before.followed().contains(dir);
                assert(all.to_set().contains(dir));
                let i = choose|i: int| 0 <= i < all.len() && all[i] == dir;
                assert(dirs@[i]@ == dir);
            }
            assert(awaited == before.is_awaiting());
        }
        self.remote_running = false;
        self.remote_request_projects.clear();
        if !awaited {
            self.remote_state = state_of(&self.remote_sessions);
            assert(views(updates@) == before.updates_of(crate::remote::list_view(result)));
            self.clamp_selection();
            return updates;
        }
        match result {
            Ok(sessions) => {
                let kept = keep_within(&sessions, &dirs);
                proof {
                    kept_are_fewer(views(sessions@), before.followed());
                }
                updates = updates_for(&dirs, &kept);
                self.remote_state = state_of(&kept);
                self.remote_sessions = kept;
            },
            Err(error) => {
                self.remote_state = RemoteLoadState::Failed(error);
            },
        }
        self.clamp_selection();
        updates
    }
}

proof fn kept_are_fewer(remote: Seq<RemoteSession<Seq<char>>>, dirs: Set<Seq<char>>)
    ensures
        tasks_within(remote, dirs).len() <= remote.len(),
    decreases remote.len(),
{
    if remote.len() > 0 {
        kept_are_fewer(remote.drop_last(), dirs);
    }
}

fn set_of(texts: &Vec<String>) -> (out: TextSet)
    ensures
        out@ == views(texts@).to_set(),
{
    let mut out = TextSet::new();
    let ghost all = views(texts@);
    let mut i: usize = 0;
    assert(all.take(0).to_set() =~= Set::<Seq<char>>::empty());
    while i < texts.len()
        invariant
            i <= texts.len(),
            all == views(texts@),
            out@ == all.take(i as int).to_set(),
        decreases texts.len() - i,
    {
        out.insert(&texts[i]);
        proof {
            let was = all.take(i as int);
            let now = all.take(i + 1);
            assert(now == was.push(texts@[i as int]@));
            assert forall|t: Seq<char>| now.contains(t) == (was.contains(t) || t
                == texts@[i as int]@) by {
                if was.contains(t) {
                    let k = choose|k: int| 0 <= k < was.len() && was[k] == t;
                    assert(now[k] == t);
                }
                assert(now[i as int] == texts@[i as int]@);
            }
            assert(now.to_set() =~= was.to_set().insert(texts@[i as int]@));
        }
        i += 1;
    }
    assert(all.take(texts@.len() as int) == all);
    out
}

fn state_of(remote: &Vec<RemoteSession>) -> (out: RemoteLoadState)
    ensures
        out@ == listed_state(views(remote@)),
{
    if remote.len() == 0 {
        RemoteLoadState::Empty
    } else {
        RemoteLoadState::Loaded
    }
}

fn keep_outside(remote: &Vec<RemoteSession>, dir: &str) -> (out: Vec<RemoteSession>)
    ensures
        views(out@) == tasks_outside(views(remote@), dir@),
{
    let mut out: Vec<RemoteSession> = Vec::new();
    let ghost all = views(remote@);
    let mut i: usize = 0;
    while i < remote.len()
        invariant
            i <= remote.len(),
            all == views(remote@),
            views(out@) == tasks_outside(all.take(i as int), dir@),
        decreases remote.len() - i,
    {
        assert(all.take(i + 1).drop_last() == all.take(i as int));
        assert(all.take(i + 1).last() == remote@[i as int]@);
        if !same_text(&remote[i].project_dir, dir) {
            let ghost before = out@;
            out.push(remote[i].clone());
            assert(views(out@) == views(before).push(remote@[i as int]@));
        }
        i += 1;
    }
    assert(all.take(remote@.len() as int) == all);
    out
}

fn keep_within(remote: &Vec<RemoteSession>, dirs: &Vec<String>) -> (out: Vec<RemoteSession>)
    ensures
        views(out@) == tasks_within(views(remote@), views(dirs@).to_set()),
{
    let mut out: Vec<RemoteSession> = Vec::new();
    let ghost all = views(remote@);
    let ghost wanted = views(dirs@).to_set();
    let mut i: usize = 0;
    while i < remote.len()
        invariant
            i <= remote.len(),
            all == views(remote@),
            wanted == views(dirs@).to_set(),
            views(out@) == tasks_within(all.take(i as int), wanted),
        decreases remote.len() - i,
    {
        assert(all.take(i + 1).drop_last() == all.take(i as int));
        assert(all.take(i + 1).last() == remote@[i as int]@);
        if crate::tables::has_text(dirs, &remote[i].project_dir) {
            let ghost before = out@;
            out.push(remote[i].clone());
            assert(views(out@) == views(before).push(remote@[i as int]@));
        }
        i += 1;
    }
    assert(all.take(remote@.len() as int) == all);
    out
}

fn cached_tasks_in(remote: &Vec<RemoteSession>, dir: &str) -> (out: Vec<CachedRemoteSession>)
    ensures
        views(out@) == cached_in(views(remote@), dir@),
{
    let mut out: Vec<CachedRemoteSession> = Vec::new();
    let ghost all = views(remote@);
    let mut i: usize = 0;
    while i < remote.len()
        invariant
            i <= remote.len(),
            all == views(remote@),
            views(out@) == cached_in(all.take(i as int), dir@),
        decreases remote.len() - i,
    {
        assert(all.take(i + 1).drop_last() == all.take(i as int));
        assert(all.take(i + 1).last() == remote@[i as int]@);
        if same_text(&remote[i].project_dir, dir) {
            let ghost before = out@;
            out.push(remote[i].cache_entry());
            assert(views(out@) == views(before).push(cached(remote@[i as int]@)));
        }
        i += 1;
    }
    assert(all.take(remote@.len() as int) == all);
    out
}

fn updates_for(dirs: &Vec<String>, remote: &Vec<RemoteSession>) -> (out: Vec<CacheUpdate>)
    ensures
        views(out@) == cache_updates(views(dirs@), views(remote@)),
{
    let mut out: Vec<CacheUpdate> = Vec::new();
    let ghost wanted = cache_updates(views(dirs@), views(remote@));
    let mut i: usize = 0;
    while i < dirs.len()
        invariant
            i <= dirs.len(),
            wanted == cache_updates(views(dirs@), views(remote@)),
            views(out@) == wanted.take(i as int),
        decreases dirs.len() - i,
    {
        let ghost before = out@;
        let update = CacheUpdate {
            project_dir: dirs[i].clone(),
            sessions: cached_tasks_in(remote, &dirs[i]),
        };
        assert(update@ == wanted[i as int]);
        out.push(update);
        assert(views(out@) == views(before).push(wanted[i as int]));
        i += 1;
    }
    assert(wanted.take(dirs@.len() as int) == wanted);
    out
}

} // verus!
