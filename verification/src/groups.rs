//! The tree of projects: which sessions stand under which project, and the rows that show them.
use crate::order::{
    is_less, is_sorting, sort, sorted_from, text_less, text_less_is_asymmetric, text_less_is_total,
    text_less_is_transitive, Ranked,
};
use crate::paths::{directory_label, fallback_project_label};
use crate::remote::{remote_activity_key, task_activity, RemoteLoadState, RemoteSession};
use crate::status::{label_names_its_status, status_label, status_rank, SessionStatus};
use crate::tables::{has_text, TextMap, TextSet};
use crate::text::{concat, lowered, opt_view, same_text, views};
use crate::tmux::{is_later, later, ManagedSession};
use vstd::prelude::*;

verus! {

/// Which sessions are shown.
#[derive(Debug, Clone, Copy, PartialEq, Eq, Structural)]
pub enum SessionFilter {
    All,
    Waiting,
    Done,
    Busy,
    Idle,
    Remote,
}

impl SessionFilter {
    /// The filter after this one.
    pub open spec fn following(self) -> SessionFilter {
        match self {
            SessionFilter::All => SessionFilter::Waiting,
            SessionFilter::Waiting => SessionFilter::Done,
            SessionFilter::Done => SessionFilter::Busy,
            SessionFilter::Busy => SessionFilter::Idle,
            SessionFilter::Idle => SessionFilter::Remote,
            SessionFilter::Remote => SessionFilter::All,
        }
    }

    /// The filter before this one.
    pub open spec fn preceding(self) -> SessionFilter {
        match self {
            SessionFilter::All => SessionFilter::Remote,
            SessionFilter::Waiting => SessionFilter::All,
            SessionFilter::Done => SessionFilter::Waiting,
            SessionFilter::Busy => SessionFilter::Done,
            SessionFilter::Idle => SessionFilter::Busy,
            SessionFilter::Remote => SessionFilter::Idle,
        }
    }

    /// What the filter is called.
    pub open spec fn name(self) -> Seq<char> {
        match self {
            SessionFilter::All => "All"@,
            SessionFilter::Waiting => "Waiting"@,
            SessionFilter::Done => "Done"@,
            SessionFilter::Busy => "Busy"@,
            SessionFilter::Idle => "Idle"@,
            SessionFilter::Remote => "Remote"@,
        }
    }

    /// The filter shows sessions with the status, if it is one of those by status.
    pub open spec fn is_for(self, status: SessionStatus) -> bool {
        match self {
            SessionFilter::Waiting => status == SessionStatus::Waiting,
            SessionFilter::Done => status == SessionStatus::Done,
            SessionFilter::Busy => status == SessionStatus::Busy,
            SessionFilter::Idle => status == SessionStatus::Idle,
            _ => false,
        }
    }

    /// The filter shows local sessions with the status.
    pub open spec fn shows_local(self, status: SessionStatus) -> bool {
        self == SessionFilter::All || self.is_for(status)
    }

    /// The filter shows remote sessions with the status.
    pub open spec fn shows_remote(self, status: SessionStatus) -> bool {
        self == SessionFilter::All || self == SessionFilter::Remote || self.is_for(status)
    }

    /// The filter shows projects that have no session.
    pub open spec fn is_broad(self) -> bool {
        self == SessionFilter::All || self == SessionFilter::Remote
    }

    /// The filter after this one.
    pub fn next(self) -> (out: SessionFilter)
        ensures
            out == self.following(),
    {
        match self {
            SessionFilter::All => SessionFilter::Waiting,
            SessionFilter::Waiting => SessionFilter::Done,
            SessionFilter::Done => SessionFilter::Busy,
            SessionFilter::Busy => SessionFilter::Idle,
            SessionFilter::Idle => SessionFilter::Remote,
            SessionFilter::Remote => SessionFilter::All,
        }
    }

    /// The filter before this one.
    pub fn previous(self) -> (out: SessionFilter)
        ensures
            out == self.preceding(),
    {
        match self {
            SessionFilter::All => SessionFilter::Remote,
            SessionFilter::Waiting => SessionFilter::All,
            SessionFilter::Done => SessionFilter::Waiting,
            SessionFilter::Busy => SessionFilter::Done,
            SessionFilter::Idle => SessionFilter::Busy,
            SessionFilter::Remote => SessionFilter::Idle,
        }
    }

    /// What the filter is called.
    pub fn label(self) -> (out: &'static str)
        ensures
            out@ == self.name(),
    {
        match self {
            SessionFilter::All => "All",
            SessionFilter::Waiting => "Waiting",
            SessionFilter::Done => "Done",
            SessionFilter::Busy => "Busy",
            SessionFilter::Idle => "Idle",
            SessionFilter::Remote => "Remote",
        }
    }

    /// Whether the filter shows local sessions with the status.
    pub fn matches_local(self, status: SessionStatus) -> (yes: bool)
        ensures
            yes == self.shows_local(status),
    {
        match self {
            SessionFilter::All => true,
            SessionFilter::Waiting => status == SessionStatus::Waiting,
            SessionFilter::Done => status == SessionStatus::Done,
            SessionFilter::Busy => status == SessionStatus::Busy,
            SessionFilter::Idle => status == SessionStatus::Idle,
            SessionFilter::Remote => false,
        }
    }

    /// Whether the filter shows remote sessions with the status.
    pub fn matches_remote(self, status: SessionStatus) -> (yes: bool)
        ensures
            yes == self.shows_remote(status),
    {
        match self {
            SessionFilter::All => true,
            SessionFilter::Remote => true,
            SessionFilter::Waiting => status == SessionStatus::Waiting,
            SessionFilter::Done => status == SessionStatus::Done,
            SessionFilter::Busy => status == SessionStatus::Busy,
            SessionFilter::Idle => status == SessionStatus::Idle,
        }
    }
}

/// Going forward and going back undo each other, and six steps come round.
pub proof fn filters_go_round(filter: SessionFilter)
    ensures
        filter.following().preceding() == filter,
        filter.preceding().following() == filter,
        filter.following().following().following().following().following().following() == filter,
{
}

/// Of the filters by status exactly one shows a session that is not remote, and `All` shows all.
pub proof fn one_filter_shows_a_status(filter: SessionFilter, other: SessionFilter, status: SessionStatus)
    ensures
        SessionFilter::All.shows_local(status),
        SessionFilter::All.shows_remote(status),
        !SessionFilter::Remote.shows_local(status),
        !filter.is_broad() && !other.is_broad() && filter.shows_local(status) && other.shows_local(
            status,
        ) ==> filter == other,
        !filter.is_broad() ==> filter.shows_local(status) == filter.shows_remote(status),
{
}

/// How many sessions there are, by what they are doing and by where they run.
#[derive(Debug, PartialEq, Eq)]
pub struct StatusCounts<N = usize> {
    pub waiting: N,
    pub done: N,
    pub busy: N,
    pub idle: N,
    pub remote: N,
    pub local: N,
}

impl View for StatusCounts<usize> {
    type V = StatusCounts<nat>;

    open spec fn view(&self) -> StatusCounts<nat> {
        StatusCounts {
            waiting: self.waiting as nat,
            done: self.done as nat,
            busy: self.busy as nat,
            idle: self.idle as nat,
            remote: self.remote as nat,
            local: self.local as nat,
        }
    }
}

impl Clone for StatusCounts<usize> {
    fn clone(&self) -> (out: Self)
        ensures
            out == *self,
    {
        StatusCounts {
            waiting: self.waiting,
            done: self.done,
            busy: self.busy,
            idle: self.idle,
            remote: self.remote,
            local: self.local,
        }
    }
}

impl Copy for StatusCounts<usize> {

}

impl Default for StatusCounts<usize> {
    fn default() -> (out: Self)
        ensures
            out@ == no_counts(),
    {
        StatusCounts { waiting: 0, done: 0, busy: 0, idle: 0, remote: 0, local: 0 }
    }
}

/// No session counted yet.
pub open spec fn no_counts() -> StatusCounts<nat> {
    StatusCounts { waiting: 0, done: 0, busy: 0, idle: 0, remote: 0, local: 0 }
}

impl StatusCounts<nat> {
    /// The counts with one session more.
    pub open spec fn plus(self, status: SessionStatus, is_remote: bool) -> StatusCounts<nat> {
        StatusCounts {
            waiting: self.waiting + if status == SessionStatus::Waiting {
                1nat
            } else {
                0
            },
            done: self.done + if status == SessionStatus::Done {
                1nat
            } else {
                0
            },
            busy: self.busy + if status == SessionStatus::Busy {
                1nat
            } else {
                0
            },
            idle: self.idle + if status == SessionStatus::Idle {
                1nat
            } else {
                0
            },
            remote: self.remote + if is_remote {
                1nat
            } else {
                0
            },
            local: self.local + if is_remote {
                0nat
            } else {
                1
            },
        }
    }

    /// The number of sessions counted.
    pub open spec fn total(self) -> nat {
        self.remote + self.local
    }

    /// Each count can be held.
    pub open spec fn fits(self) -> bool {
        self.waiting <= usize::MAX && self.done <= usize::MAX && self.busy <= usize::MAX
            && self.idle <= usize::MAX && self.remote <= usize::MAX && self.local <= usize::MAX
    }

    /// Each session is counted once by what it is doing and once by where it runs.
    pub open spec fn is_balanced(self) -> bool {
        self.waiting + self.done + self.busy + self.idle == self.remote + self.local
    }
}

impl StatusCounts<usize> {
    /// Counts a session.
    pub fn count(&mut self, status: SessionStatus, is_remote: bool)
        requires
            old(self)@.plus(status, is_remote).fits(),
        ensures
            final(self)@ == old(self)@.plus(status, is_remote),
    {
        match status {
            SessionStatus::Waiting => {
                self.waiting = self.waiting + 1;
            },
            SessionStatus::Done => {
                self.done = self.done + 1;
            },
            SessionStatus::Busy => {
                self.busy = self.busy + 1;
            },
            SessionStatus::Idle => {
                self.idle = self.idle + 1;
            },
        }
        if is_remote {
            self.remote = self.remote + 1;
        } else {
            self.local = self.local + 1;
        }
    }
}

/// Why a project shows no session in a place.
#[derive(Debug, PartialEq, Eq)]
pub enum PlaceholderKind<T = String> {
    LocalEmpty,
    RemoteLoading,
    RemoteEmpty,
    RemoteError(T),
}

impl View for PlaceholderKind<String> {
    type V = PlaceholderKind<Seq<char>>;

    open spec fn view(&self) -> PlaceholderKind<Seq<char>> {
        match self {
            PlaceholderKind::LocalEmpty => PlaceholderKind::LocalEmpty,
            PlaceholderKind::RemoteLoading => PlaceholderKind::RemoteLoading,
            PlaceholderKind::RemoteEmpty => PlaceholderKind::RemoteEmpty,
            PlaceholderKind::RemoteError(error) => PlaceholderKind::RemoteError(error@),
        }
    }
}

impl Clone for PlaceholderKind<String> {
    fn clone(&self) -> (out: Self)
        ensures
            out == *self,
    {
        match self {
            PlaceholderKind::LocalEmpty => PlaceholderKind::LocalEmpty,
            PlaceholderKind::RemoteLoading => PlaceholderKind::RemoteLoading,
            PlaceholderKind::RemoteEmpty => PlaceholderKind::RemoteEmpty,
            PlaceholderKind::RemoteError(error) => PlaceholderKind::RemoteError(error.clone()),
        }
    }
}

/// What stands under a project: a session by its place in the list, or a placeholder.
#[derive(Debug, PartialEq, Eq)]
pub enum GroupEntry<T = String> {
    Local(usize),
    RemoteLocal(usize),
    Remote(usize),
    Placeholder(PlaceholderKind<T>),
}

impl View for GroupEntry<String> {
    type V = GroupEntry<Seq<char>>;

    open spec fn view(&self) -> GroupEntry<Seq<char>> {
        match self {
            GroupEntry::Local(i) => GroupEntry::Local(*i),
            GroupEntry::RemoteLocal(i) => GroupEntry::RemoteLocal(*i),
            GroupEntry::Remote(i) => GroupEntry::Remote(*i),
            GroupEntry::Placeholder(kind) => GroupEntry::Placeholder(kind@),
        }
    }
}

impl Clone for GroupEntry<String> {
    fn clone(&self) -> (out: Self)
        ensures
            out == *self,
    {
        match self {
            GroupEntry::Local(i) => GroupEntry::Local(*i),
            GroupEntry::RemoteLocal(i) => GroupEntry::RemoteLocal(*i),
            GroupEntry::Remote(i) => GroupEntry::Remote(*i),
            GroupEntry::Placeholder(kind) => GroupEntry::Placeholder(kind.clone()),
        }
    }
}

impl<T> GroupEntry<T> {
    /// The entry stands directly under its project.
    pub open spec fn is_local(self) -> bool {
        match self {
            GroupEntry::Local(_) => true,
            GroupEntry::Placeholder(PlaceholderKind::LocalEmpty) => true,
            _ => false,
        }
    }

    /// Whether the entry stands directly under its project.
    pub fn local(&self) -> (yes: bool)
        ensures
            yes == self.is_local(),
    {
        match self {
            GroupEntry::Local(_) => true,
            GroupEntry::Placeholder(PlaceholderKind::LocalEmpty) => true,
            _ => false,
        }
    }
}

/// A project with its sessions. `entries` are what stands under it, `last_activity` is in
/// milliseconds since the epoch.
#[derive(Debug, PartialEq, Eq)]
pub struct ProjectGroup<T = String, E = Vec<GroupEntry<T>>, N = usize> {
    pub key: T,
    pub display_name: T,
    pub path: T,
    pub is_current: bool,
    pub entries: E,
    pub counts: StatusCounts<N>,
    pub has_bell: bool,
    pub remote_loading: bool,
    pub last_activity: Option<u128>,
}

/// A project with its sessions, as contracts speak of it.
pub type GroupView = ProjectGroup<Seq<char>, Seq<GroupEntry<Seq<char>>>, nat>;

impl View for ProjectGroup<String, Vec<GroupEntry<String>>, usize> {
    type V = GroupView;

    open spec fn view(&self) -> GroupView {
        ProjectGroup {
            key: self.key@,
            display_name: self.display_name@,
            path: self.path@,
            is_current: self.is_current,
            entries: views(self.entries@),
            counts: self.counts@,
            has_bell: self.has_bell,
            remote_loading: self.remote_loading,
            last_activity: self.last_activity,
        }
    }
}


// ---------------------------------------------------------------------------
// Which sessions stand under which project
// ---------------------------------------------------------------------------
/// All that decides what the tree of projects holds.
pub struct Scene {
    pub sessions: Seq<ManagedSession<Seq<char>>>,
    pub remote: Seq<RemoteSession<Seq<char>>>,
    pub projects: Set<Seq<char>>,
    pub labels: Map<Seq<char>, Seq<char>>,
    pub filter: SessionFilter,
    pub remote_state: RemoteLoadState<Seq<char>>,
    pub current: Seq<char>,
}

/// The names given to projects.
pub open spec fn label_views(labels: Map<Seq<char>, String>) -> Map<Seq<char>, Seq<char>> {
    labels.map_values(|label: String| label@)
}

/// The later of two times.
pub open spec fn latest(a: Option<u128>, b: Option<u128>) -> Option<u128> {
    if is_later(b, a) {
        b
    } else {
        a
    }
}

fn later_of(a: Option<u128>, b: Option<u128>) -> (out: Option<u128>)
    ensures
        out == latest(a, b),
{
    if later(b, a) {
        b
    } else {
        a
    }
}

/// When a session was last active, in milliseconds since the epoch.
pub open spec fn activity_millis(session: ManagedSession<Seq<char>>) -> Option<u128> {
    match session.last_activity {
        Some(time) => Some((time / 1_000_000) as u128),
        None => None,
    }
}

/// The filter shows the session.
pub open spec fn shows_session(filter: SessionFilter, session: ManagedSession<Seq<char>>) -> bool {
    if session.is_remote {
        filter.shows_remote(session.status)
    } else {
        filter.shows_local(session.status)
    }
}

/// The session is shown under the project.
pub open spec fn is_under(
    session: ManagedSession<Seq<char>>,
    filter: SessionFilter,
    key: Seq<char>,
) -> bool {
    shows_session(filter, session) && session.project_dir == key
}

/// The task is shown under the project.
pub open spec fn is_task_under(
    session: RemoteSession<Seq<char>>,
    filter: SessionFilter,
    key: Seq<char>,
) -> bool {
    filter.shows_remote(session.status) && session.project_dir == key
}

/// The entries of the sessions under a project.
pub open spec fn session_entries(
    sessions: Seq<ManagedSession<Seq<char>>>,
    filter: SessionFilter,
    key: Seq<char>,
) -> Seq<GroupEntry<Seq<char>>>
    decreases sessions.len(),
{
    if sessions.len() == 0 {
        seq![]
    } else {
        let rest = session_entries(sessions.drop_last(), filter, key);
        let place = (sessions.len() - 1) as usize;
        if !is_under(sessions.last(), filter, key) {
            rest
        } else if sessions.last().is_remote {
            rest.push(GroupEntry::RemoteLocal(place))
        } else {
            rest.push(GroupEntry::Local(place))
        }
    }
}

/// The entries of the tasks under a project.
pub open spec fn task_entries(
    remote: Seq<RemoteSession<Seq<char>>>,
    filter: SessionFilter,
    key: Seq<char>,
) -> Seq<GroupEntry<Seq<char>>>
    decreases remote.len(),
{
    if remote.len() == 0 {
        seq![]
    } else {
        let rest = task_entries(remote.drop_last(), filter, key);
        if is_task_under(remote.last(), filter, key) {
            rest.push(GroupEntry::Remote((remote.len() - 1) as usize))
        } else {
            rest
        }
    }
}

/// The counts of the sessions under a project.
pub open spec fn session_counts(
    sessions: Seq<ManagedSession<Seq<char>>>,
    filter: SessionFilter,
    key: Seq<char>,
) -> StatusCounts<nat>
    decreases sessions.len(),
{
    if sessions.len() == 0 {
        no_counts()
    } else {
        let rest = session_counts(sessions.drop_last(), filter, key);
        if is_under(sessions.last(), filter, key) {
            rest.plus(sessions.last().status, sessions.last().is_remote)
        } else {
            rest
        }
    }
}

/// The counts with those of the tasks under a project.
pub open spec fn task_counts(
    counts: StatusCounts<nat>,
    remote: Seq<RemoteSession<Seq<char>>>,
    filter: SessionFilter,
    key: Seq<char>,
) -> StatusCounts<nat>
    decreases remote.len(),
{
    if remote.len() == 0 {
        counts
    } else {
        let rest = task_counts(counts, remote.drop_last(), filter, key);
        if is_task_under(remote.last(), filter, key) {
            rest.plus(remote.last().status, true)
        } else {
            rest
        }
    }
}

/// The last activity of the sessions under a project.
pub open spec fn session_activity(
    sessions: Seq<ManagedSession<Seq<char>>>,
    filter: SessionFilter,
    key: Seq<char>,
) -> Option<u128>
    decreases sessions.len(),
{
    if sessions.len() == 0 {
        None
    } else {
        let rest = session_activity(sessions.drop_last(), filter, key);
        if is_under(sessions.last(), filter, key) {
            latest(rest, activity_millis(sessions.last()))
        } else {
            rest
        }
    }
}

/// The last activity, with that of the tasks under a project.
pub open spec fn task_activities(
    activity: Option<u128>,
    remote: Seq<RemoteSession<Seq<char>>>,
    filter: SessionFilter,
    key: Seq<char>,
) -> Option<u128>
    decreases remote.len(),
{
    if remote.len() == 0 {
        activity
    } else {
        let rest = task_activities(activity, remote.drop_last(), filter, key);
        if is_task_under(remote.last(), filter, key) {
            latest(rest, task_activity(remote.last().updated_at))
        } else {
            rest
        }
    }
}

/// What stands in place of the tasks of a tracked project that has none.
pub open spec fn remote_placeholder(
    filter: SessionFilter,
    state: RemoteLoadState<Seq<char>>,
) -> Option<PlaceholderKind<Seq<char>>> {
    if !filter.is_broad() {
        None
    } else {
        match state {
            RemoteLoadState::NotStarted => Some(PlaceholderKind::RemoteLoading),
            RemoteLoadState::Loading => Some(PlaceholderKind::RemoteLoading),
            RemoteLoadState::Empty => if filter == SessionFilter::Remote {
                Some(PlaceholderKind::RemoteEmpty)
            } else {
                None
            },
            RemoteLoadState::Failed(error) => Some(PlaceholderKind::RemoteError(error)),
            RemoteLoadState::Loaded => None,
        }
    }
}

/// One of the entries stands directly under its project.
pub open spec fn has_local(entries: Seq<GroupEntry<Seq<char>>>) -> bool {
    exists|i: int| 0 <= i < entries.len() && (#[trigger] entries[i]).is_local()
}

/// One of the entries stands with the remote ones.
pub open spec fn has_remote(entries: Seq<GroupEntry<Seq<char>>>) -> bool {
    exists|i: int| 0 <= i < entries.len() && !(#[trigger] entries[i]).is_local()
}

impl Scene {
    /// The project is one that is shown even without sessions.
    pub open spec fn is_tracked(self, key: Seq<char>) -> bool {
        self.filter.is_broad() && self.projects.contains(key)
    }

    /// A session is shown under the project.
    pub open spec fn has_session(self, key: Seq<char>) -> bool {
        exists|i: int|
            0 <= i < self.sessions.len() && is_under(#[trigger] self.sessions[i], self.filter, key)
    }

    /// A task is shown under the project.
    pub open spec fn has_task(self, key: Seq<char>) -> bool {
        exists|i: int|
            0 <= i < self.remote.len() && is_task_under(#[trigger] self.remote[i], self.filter, key)
    }

    /// The project is shown.
    pub open spec fn has_group(self, key: Seq<char>) -> bool {
        self.is_tracked(key) || self.has_session(key) || self.has_task(key)
    }

    /// What the project is called.
    pub open spec fn label(self, key: Seq<char>) -> Seq<char> {
        if self.labels.contains_key(key) {
            self.labels[key]
        } else {
            directory_label(key)
        }
    }

    /// One of the sessions under the project says that it is of the current one.
    pub open spec fn has_current_session(self, key: Seq<char>) -> bool {
        exists|i: int|
            0 <= i < self.sessions.len() && is_under(#[trigger] self.sessions[i], self.filter, key)
                && self.sessions[i].is_current_project
    }

    /// One of the sessions under the project rang its bell.
    pub open spec fn has_bell(self, key: Seq<char>) -> bool {
        exists|i: int|
            0 <= i < self.sessions.len() && is_under(#[trigger] self.sessions[i], self.filter, key)
                && self.sessions[i].has_bell
    }

    /// The project is the current one: a session says so, or it lies at the current directory and
    /// does not stand in the tree for its sessions alone.
    pub open spec fn is_current(self, key: Seq<char>) -> bool {
        self.has_current_session(key) || (key == self.current && (self.is_tracked(key)
            || !self.has_session(key)))
    }

    /// The entries of the sessions and tasks under the project.
    pub open spec fn real_entries(self, key: Seq<char>) -> Seq<GroupEntry<Seq<char>>> {
        session_entries(self.sessions, self.filter, key) + task_entries(
            self.remote,
            self.filter,
            key,
        )
    }

    /// The remote tasks of the project are being listed.
    pub open spec fn is_loading(self, key: Seq<char>) -> bool {
        self.is_tracked(key) && remote_placeholder(self.filter, self.remote_state) == Some(
            PlaceholderKind::<Seq<char>>::RemoteLoading,
        )
    }

    /// The entries under the project, with a placeholder for its tasks where it has none.
    pub open spec fn remote_entries(self, key: Seq<char>) -> Seq<GroupEntry<Seq<char>>> {
        let entries = self.real_entries(key);
        match remote_placeholder(self.filter, self.remote_state) {
            Some(kind) => if self.is_tracked(key) && kind
                != PlaceholderKind::<Seq<char>>::RemoteLoading && !has_remote(entries) {
                entries.push(GroupEntry::Placeholder(kind))
            } else {
                entries
            },
            None => entries,
        }
    }

    /// All that stands under the project: where all sessions are shown, a project without local
    /// ones says so first.
    pub open spec fn entries(self, key: Seq<char>) -> Seq<GroupEntry<Seq<char>>> {
        let entries = self.remote_entries(key);
        if self.filter == SessionFilter::All && !has_local(entries) {
            seq![GroupEntry::Placeholder(PlaceholderKind::<Seq<char>>::LocalEmpty)] + entries
        } else {
            entries
        }
    }

    /// The project with its sessions.
    pub open spec fn group(self, key: Seq<char>) -> GroupView {
        ProjectGroup {
            key,
            display_name: self.label(key),
            path: key,
            is_current: self.is_current(key),
            entries: self.entries(key),
            counts: task_counts(
                session_counts(self.sessions, self.filter, key),
                self.remote,
                self.filter,
                key,
            ),
            has_bell: self.has_bell(key),
            remote_loading: self.is_loading(key),
            last_activity: task_activities(
                session_activity(self.sessions, self.filter, key),
                self.remote,
                self.filter,
                key,
            ),
        }
    }
}

/// The order of projects: the last active first, then the current one, then by name; the order of
/// their paths decides the rest.
pub open spec fn group_before(a: GroupView, b: GroupView) -> bool {
    if a.last_activity != b.last_activity {
        is_later(a.last_activity, b.last_activity)
    } else if a.is_current != b.is_current {
        a.is_current
    } else if a.display_name != b.display_name {
        text_less(a.display_name, b.display_name)
    } else {
        text_less(a.key, b.key)
    }
}

/// `groups` are the projects that the scene shows, in order.
pub open spec fn is_tree(groups: Seq<GroupView>, scene: Scene) -> bool {
    &&& forall|i: int| 0 <= i < groups.len() ==> #[trigger] groups[i] == scene.group(groups[i].key)
    &&& forall|i: int| 0 <= i < groups.len() ==> scene.has_group((#[trigger] groups[i]).key)
    &&& forall|key: Seq<char>|
        #[trigger] scene.has_group(key) ==> exists|i: int|
            0 <= i < groups.len() && (#[trigger] groups[i]).key == key
    &&& forall|i: int, j: int| 0 <= i < j < groups.len() ==> group_before(groups[i], groups[j])
}

/// The tree of a scene.
pub open spec fn tree(scene: Scene) -> Seq<GroupView> {
    choose|groups: Seq<GroupView>| is_tree(groups, scene)
}

/// Of two projects at most one comes before the other.
pub proof fn group_before_is_asymmetric(a: GroupView, b: GroupView)
    ensures
        !(group_before(a, b) && group_before(b, a)),
{
    text_less_is_asymmetric(a.display_name, b.display_name);
    text_less_is_asymmetric(a.key, b.key);
}

/// The order of projects can be followed step by step.
pub proof fn group_before_is_transitive(a: GroupView, b: GroupView, c: GroupView)
    requires
        group_before(a, b),
        group_before(b, c),
    ensures
        group_before(a, c),
{
    text_less_is_asymmetric(a.display_name, b.display_name);
    text_less_is_asymmetric(b.display_name, c.display_name);
    text_less_is_asymmetric(a.display_name, c.display_name);
    if text_less(a.display_name, b.display_name) && text_less(b.display_name, c.display_name) {
        text_less_is_transitive(a.display_name, b.display_name, c.display_name);
    }
    if text_less(a.key, b.key) && text_less(b.key, c.key) {
        text_less_is_transitive(a.key, b.key, c.key);
    }
}

/// The tree is determined by the scene.
pub proof fn tree_is_determined(a: Seq<GroupView>, b: Seq<GroupView>, scene: Scene)
    requires
        is_tree(a, scene),
        is_tree(b, scene),
    ensures
        a == b,
{
    same_members_same_order(a, b, scene);
}

/// The place of a project in the tree.
spec fn place_in(groups: Seq<GroupView>, key: Seq<char>) -> int {
    choose|i: int| 0 <= i < groups.len() && (#[trigger] groups[i]).key == key
}

proof fn same_members_same_order(a: Seq<GroupView>, b: Seq<GroupView>, scene: Scene)
    requires
        is_tree(a, scene),
        is_tree(b, scene),
    ensures
        a == b,
{
    prefixes_agree(a, b, scene, a.len() as int);
    prefixes_agree(b, a, scene, b.len() as int);
    assert(a.len() <= b.len());
    assert(b.len() <= a.len());
    assert(a =~= b);
}

/// The first `n` projects of two trees of one scene are the same.
proof fn prefixes_agree(a: Seq<GroupView>, b: Seq<GroupView>, scene: Scene, n: int)
    requires
        is_tree(a, scene),
        is_tree(b, scene),
        0 <= n <= a.len(),
    ensures
        n <= b.len(),
        forall|i: int| 0 <= i < n ==> a[i] == b[i],
    decreases n,
{
    if n > 0 {
        prefixes_agree(a, b, scene, n - 1);
        let x = a[n - 1];
        assert(scene.has_group(x.key));
        let j = place_in(b, x.key);
        assert(0 <= j < b.len() && b[j].key == x.key);
        assert(b[j] == scene.group(b[j].key));
        assert(x == b[j]);
        if j < n - 1 {
            assert(a[j] == b[j]);
            assert(group_before(a[j], a[n - 1]));
            group_before_is_asymmetric(a[j], a[n - 1]);
        } else if j > n - 1 {
            // What stands in `b` before `x` has to stand in `a` too, and before `x`.
            let y = b[n - 1];
            assert(scene.has_group(y.key));
            let k = place_in(a, y.key);
            assert(0 <= k < a.len() && a[k].key == y.key);
            assert(a[k] == scene.group(a[k].key));
            assert(y == a[k]);
            assert(group_before(b[n - 1], b[j]));
            group_before_is_asymmetric(y, x);
            if k < n - 1 {
                assert(a[k] == b[k]);
                assert(group_before(b[k], b[n - 1]));
                group_before_is_asymmetric(b[k], b[n - 1]);
            } else if k > n - 1 {
                assert(group_before(a[n - 1], a[k]));
            }
        }
    }
}


proof fn group_before_is_total(a: GroupView, b: GroupView)
    ensures
        group_before(a, b) || group_before(b, a) || (a.last_activity == b.last_activity
            && a.is_current == b.is_current && a.display_name == b.display_name && a.key == b.key),
{
    text_less_is_total(a.display_name, b.display_name);
    text_less_is_total(a.key, b.key);
}

impl Ranked for ProjectGroup<String, Vec<GroupEntry<String>>, usize> {
    open spec fn before(self, other: Self) -> bool {
        group_before(self@, other@)
    }

    proof fn before_is_asymmetric(a: Self, b: Self) {
        group_before_is_asymmetric(a@, b@);
    }

    proof fn not_before_chains(a: Self, b: Self, c: Self) {
        group_before_is_total(a@, b@);
        group_before_is_total(b@, c@);
        group_before_is_asymmetric(a@, c@);
        if group_before(c@, b@) && group_before(b@, a@) {
            group_before_is_transitive(c@, b@, a@);
        }
    }

    fn is_before(&self, other: &Self) -> (yes: bool) {
        if later(self.last_activity, other.last_activity) {
            true
        } else if later(other.last_activity, self.last_activity) {
            false
        } else if self.is_current != other.is_current {
            self.is_current
        } else if !same_text(&self.display_name, &other.display_name) {
            is_less(&self.display_name, &other.display_name)
        } else {
            is_less(&self.key, &other.key)
        }
    }
}

/// All that decides what the tree of projects holds.
pub open spec fn scene_of(
    sessions: Seq<ManagedSession>,
    remote_sessions: Seq<RemoteSession>,
    projects: Seq<String>,
    labels: Map<Seq<char>, String>,
    filter: SessionFilter,
    remote_state: RemoteLoadState,
    current_dir: Seq<char>,
) -> Scene {
    Scene {
        sessions: views(sessions),
        remote: views(remote_sessions),
        projects: views(projects).to_set(),
        labels: label_views(labels),
        filter,
        remote_state: remote_state@,
        current: current_dir,
    }
}

fn broad(filter: SessionFilter) -> (yes: bool)
    ensures
        yes == filter.is_broad(),
{
    filter == SessionFilter::All || filter == SessionFilter::Remote
}

fn shown(filter: SessionFilter, session: &ManagedSession) -> (yes: bool)
    ensures
        yes == shows_session(filter, session@),
{
    if session.is_remote {
        filter.matches_remote(session.status)
    } else {
        filter.matches_local(session.status)
    }
}

pub(crate) fn add_key(keys: &mut Vec<String>, key: &str)
    requires
        crate::tables::all_differ(views(old(keys)@)),
    ensures
        crate::tables::all_differ(views(final(keys)@)),
        forall|k: Seq<char>|
            views(final(keys)@).contains(k) <==> views(old(keys)@).contains(k) || k == key@,
{
    if has_text(keys, key) {
        return;
    }
    let ghost before = views(keys@);
    keys.push(key.to_owned());
    proof {
        let now = views(keys@);
        assert(now == before.push(key@));
        assert forall|k: Seq<char>| now.contains(k) == (before.contains(k) || k == key@) by {
            if before.contains(k) {
                let i = choose|i: int| 0 <= i < before.len() && before[i] == k;
                assert(now[i] == k);
            }
            assert(now[before.len() as int] == key@);
        }
        assert forall|i: int, j: int| 0 <= i < j < now.len() implies now[i] != now[j] by {
            if j == before.len() {
                assert(before.contains(before[i]));
            }
        }
    }
}

impl Scene {
    /// One of the first `n` sessions is shown under the project.
    spec fn early_session(self, n: int, key: Seq<char>) -> bool {
        exists|i: int| 0 <= i < n && is_under(#[trigger] self.sessions[i], self.filter, key)
    }

    /// One of the first `n` tasks is shown under the project.
    spec fn early_task(self, n: int, key: Seq<char>) -> bool {
        exists|i: int| 0 <= i < n && is_task_under(#[trigger] self.remote[i], self.filter, key)
    }

    proof fn one_session_more(self, n: int)
        requires
            0 <= n < self.sessions.len(),
        ensures
            forall|key: Seq<char>|
                #[trigger] self.early_session(n + 1, key) <==> self.early_session(n, key)
                    || is_under(self.sessions[n], self.filter, key),
    {
        assert forall|key: Seq<char>|
            #[trigger] self.early_session(n + 1, key) <==> self.early_session(n, key) || is_under(
                self.sessions[n],
                self.filter,
                key,
            ) by {
            if self.early_session(n, key) {
                let i = choose|i: int|
                    0 <= i < n && is_under(#[trigger] self.sessions[i], self.filter, key);
                assert(0 <= i < n + 1 && is_under(self.sessions[i], self.filter, key));
            }
        }
    }

    proof fn one_task_more(self, n: int)
        requires
            0 <= n < self.remote.len(),
        ensures
            forall|key: Seq<char>|
                #[trigger] self.early_task(n + 1, key) <==> self.early_task(n, key)
                    || is_task_under(self.remote[n], self.filter, key),
    {
        assert forall|key: Seq<char>|
            #[trigger] self.early_task(n + 1, key) <==> self.early_task(n, key) || is_task_under(
                self.remote[n],
                self.filter,
                key,
            ) by {
            if self.early_task(n, key) {
                let i = choose|i: int|
                    0 <= i < n && is_task_under(#[trigger] self.remote[i], self.filter, key);
                assert(0 <= i < n + 1 && is_task_under(self.remote[i], self.filter, key));
            }
        }
    }
}

fn shown_keys(
    sessions: &Vec<ManagedSession>,
    remote_sessions: &Vec<RemoteSession>,
    projects: &Vec<String>,
    filter: SessionFilter,
    Ghost(scene): Ghost<Scene>,
) -> (keys: Vec<String>)
    requires
        scene.sessions == views(sessions@),
        scene.remote == views(remote_sessions@),
        scene.projects == views(projects@).to_set(),
        scene.filter == filter,
    ensures
        crate::tables::all_differ(views(keys@)),
        forall|k: Seq<char>| views(keys@).contains(k) <==> #[trigger] scene.has_group(k),
{
    let mut keys: Vec<String> = Vec::new();
    let ghost listed = views(projects@);
    if broad(filter) {
        let mut i: usize = 0;
        while i < projects.len()
            invariant
                i <= projects.len(),
                listed == views(projects@),
                crate::tables::all_differ(views(keys@)),
                forall|k: Seq<char>|
                    views(keys@).contains(k) <==> #[trigger] listed.take(i as int).contains(k),
            decreases projects.len() - i,
        {
            let ghost was = listed.take(i as int);
            let ghost now = listed.take(i + 1);
            add_key(&mut keys, &projects[i]);
            assert(now == was.push(projects@[i as int]@));
            assert forall|k: Seq<char>| #[trigger] now.contains(k) == (was.contains(k) || k
                == projects@[i as int]@) by {
                if was.contains(k) {
                    let j = choose|j: int| 0 <= j < was.len() && was[j] == k;
                    assert(now[j] == k);
                }
                assert(now[i as int] == projects@[i as int]@);
            }
            i += 1;
        }
        assert(listed.take(projects@.len() as int) == listed);
    }
    let mut i: usize = 0;
    while i < sessions.len()
        invariant
            i <= sessions.len(),
            scene.sessions == views(sessions@),
            scene.filter == filter,
            crate::tables::all_differ(views(keys@)),
            forall|k: Seq<char>|
                #[trigger] views(keys@).contains(k) <==> scene.is_tracked(k) || scene.early_session(
                    i as int,
                    k,
                ),
        decreases sessions.len() - i,
    {
        assert(scene.sessions[i as int] == sessions@[i as int]@);
        let ghost was = views(keys@);
        proof {
            scene.one_session_more(i as int);
        }
        if shown(filter, &sessions[i]) {
            add_key(&mut keys, &sessions[i].project_dir);
        }
        i += 1;
        assert forall|k: Seq<char>|
            #[trigger] views(keys@).contains(k) <==> scene.is_tracked(k) || scene.early_session(
                i as int,
                k,
            ) by {
            assert(was.contains(k) <==> scene.is_tracked(k) || scene.early_session(i - 1, k));
        }
    }
    let mut i: usize = 0;
    while i < remote_sessions.len()
        invariant
            i <= remote_sessions.len(),
            scene.remote == views(remote_sessions@),
            scene.filter == filter,
            crate::tables::all_differ(views(keys@)),
            forall|k: Seq<char>|
                #[trigger] views(keys@).contains(k) <==> scene.is_tracked(k) || scene.has_session(k)
                    || scene.early_task(i as int, k),
        decreases remote_sessions.len() - i,
    {
        assert(scene.remote[i as int] == remote_sessions@[i as int]@);
        let ghost was = views(keys@);
        proof {
            scene.one_task_more(i as int);
        }
        if filter.matches_remote(remote_sessions[i].status) {
            add_key(&mut keys, &remote_sessions[i].project_dir);
        }
        i += 1;
        assert forall|k: Seq<char>|
            #[trigger] views(keys@).contains(k) <==> scene.is_tracked(k) || scene.has_session(k)
                || scene.early_task(i as int, k) by {
            assert(was.contains(k) <==> scene.is_tracked(k) || scene.has_session(k)
                || scene.early_task(i - 1, k));
        }
    }
    keys
}


/// The sum of both kinds of counts for the first sessions and tasks.
proof fn plus_keeps_balance(counts: StatusCounts<nat>, status: SessionStatus, is_remote: bool)
    requires
        counts.is_balanced(),
    ensures
        counts.plus(status, is_remote).is_balanced(),
        counts.plus(status, is_remote).total() == counts.total() + 1,
{
}

fn any_local(entries: &Vec<GroupEntry>) -> (yes: bool)
    ensures
        yes == has_local(views(entries@)),
{
    let mut i: usize = 0;
    while i < entries.len()
        invariant
            i <= entries.len(),
            forall|j: int| 0 <= j < i ==> !(#[trigger] views(entries@)[j]).is_local(),
        decreases entries.len() - i,
    {
        if entries[i].local() {
            assert(views(entries@)[i as int].is_local());
            return true;
        }
        assert(!views(entries@)[i as int].is_local());
        i += 1;
    }
    false
}

fn any_remote(entries: &Vec<GroupEntry>) -> (yes: bool)
    ensures
        yes == has_remote(views(entries@)),
{
    let mut i: usize = 0;
    while i < entries.len()
        invariant
            i <= entries.len(),
            forall|j: int| 0 <= j < i ==> (#[trigger] views(entries@)[j]).is_local(),
        decreases entries.len() - i,
    {
        if !entries[i].local() {
            assert(!views(entries@)[i as int].is_local());
            return true;
        }
        assert(views(entries@)[i as int].is_local());
        i += 1;
    }
    false
}

fn placeholder_of(filter: SessionFilter, state: &RemoteLoadState) -> (out: Option<PlaceholderKind>)
    ensures
        opt_view(out) == remote_placeholder(filter, state@),
{
    if !broad(filter) {
        return None;
    }
    match state {
        RemoteLoadState::NotStarted => Some(PlaceholderKind::RemoteLoading),
        RemoteLoadState::Loading => Some(PlaceholderKind::RemoteLoading),
        RemoteLoadState::Empty => if filter == SessionFilter::Remote {
            Some(PlaceholderKind::RemoteEmpty)
        } else {
            None
        },
        RemoteLoadState::Failed(error) => Some(PlaceholderKind::RemoteError(error.clone())),
        RemoteLoadState::Loaded => None,
    }
}

/// What the sessions and tasks of a project come to.
struct Gathering {
    entries: Vec<GroupEntry>,
    counts: StatusCounts,
    activity: Option<u128>,
    any_session: bool,
    any_current: bool,
    any_bell: bool,
}

fn gather_sessions(
    key: &str,
    sessions: &Vec<ManagedSession>,
    filter: SessionFilter,
    Ghost(scene): Ghost<Scene>,
) -> (out: Gathering)
    requires
        scene.sessions == views(sessions@),
        scene.filter == filter,
    ensures
        views(out.entries@) == session_entries(scene.sessions, filter, key@),
        out.counts@ == session_counts(scene.sessions, filter, key@),
        out.counts@.is_balanced(),
        out.counts@.total() <= sessions@.len(),
        out.activity == session_activity(scene.sessions, filter, key@),
        out.any_session == scene.has_session(key@),
        out.any_current == scene.has_current_session(key@),
        out.any_bell == scene.has_bell(key@),
{
    let ghost all = scene.sessions;
    let mut entries: Vec<GroupEntry> = Vec::new();
    let mut counts: StatusCounts = StatusCounts::default();
    let mut activity: Option<u128> = None;
    let mut any_session = false;
    let mut any_current = false;
    let mut any_bell = false;
    let mut i: usize = 0;
    while i < sessions.len()
        invariant
            i <= sessions.len(),
            all == views(sessions@),
            views(entries@) == session_entries(all.take(i as int), filter, key@),
            counts@ == session_counts(all.take(i as int), filter, key@),
            counts@.is_balanced(),
            counts@.total() <= i,
            activity == session_activity(all.take(i as int), filter, key@),
            any_session == exists|j: int| 0 <= j < i && is_under(#[trigger] all[j], filter, key@),
            any_current == exists|j: int|
                0 <= j < i && is_under(#[trigger] all[j], filter, key@)
                    && all[j].is_current_project,
            any_bell == exists|j: int|
                0 <= j < i && is_under(#[trigger] all[j], filter, key@) && all[j].has_bell,
        decreases sessions.len() - i,
    {
        let session = &sessions[i];
        let ghost was = all.take(i as int);
        let ghost now = all.take(i + 1);
        assert(now.drop_last() == was);
        assert(now.last() == session@);
        assert(all[i as int] == session@);
        if shown(filter, session) && same_text(&session.project_dir, key) {
            assert(is_under(all[i as int], filter, key@));
            any_session = true;
            if session.is_current_project {
                any_current = true;
            }
            if session.has_bell {
                any_bell = true;
            }
            proof {
                plus_keeps_balance(counts@, session.status, session.is_remote);
            }
            counts.count(session.status, session.is_remote);
            let millis: Option<u128> = match session.last_activity {
                Some(time) => Some(time / 1_000_000),
                None => None,
            };
            activity = later_of(activity, millis);
            let entry = if session.is_remote {
                GroupEntry::RemoteLocal(i)
            } else {
                GroupEntry::Local(i)
            };
            let ghost before = entries@;
            entries.push(entry);
            assert(views(entries@) == views(before).push(entry@));
        } else {
            assert(!is_under(all[i as int], filter, key@));
        }
        i += 1;
    }
    assert(all.take(sessions@.len() as int) == all);
    Gathering { entries, counts, activity, any_session, any_current, any_bell }
}

fn gather_tasks(
    key: &str,
    remote_sessions: &Vec<RemoteSession>,
    filter: SessionFilter,
    gathering: Gathering,
) -> (out: Gathering)
    requires
        gathering.counts@.is_balanced(),
        gathering.counts@.total() + remote_sessions@.len() <= usize::MAX,
    ensures
        views(out.entries@) == views(gathering.entries@) + task_entries(
            views(remote_sessions@),
            filter,
            key@,
        ),
        out.counts@ == task_counts(gathering.counts@, views(remote_sessions@), filter, key@),
        out.activity == task_activities(
            gathering.activity,
            views(remote_sessions@),
            filter,
            key@,
        ),
        out.any_session == gathering.any_session,
        out.any_current == gathering.any_current,
        out.any_bell == gathering.any_bell,
{
    let ghost start = gathering;
    let ghost all = views(remote_sessions@);
    let mut entries = gathering.entries;
    let mut counts = gathering.counts;
    let mut activity = gathering.activity;
    let mut i: usize = 0;
    assert(views(entries@) + Seq::<GroupEntry<Seq<char>>>::empty() == views(entries@));
    while i < remote_sessions.len()
        invariant
            i <= remote_sessions.len(),
            all == views(remote_sessions@),
            views(entries@) == views(start.entries@) + task_entries(all.take(i as int), filter, key@),
            counts@ == task_counts(start.counts@, all.take(i as int), filter, key@),
            counts@.is_balanced(),
            counts@.total() <= start.counts@.total() + i,
            start.counts@.total() + remote_sessions@.len() <= usize::MAX,
            activity == task_activities(start.activity, all.take(i as int), filter, key@),
        decreases remote_sessions.len() - i,
    {
        let session = &remote_sessions[i];
        let ghost was = all.take(i as int);
        let ghost now = all.take(i + 1);
        assert(now.drop_last() == was);
        assert(now.last() == session@);
        if filter.matches_remote(session.status) && same_text(&session.project_dir, key) {
            proof {
                plus_keeps_balance(counts@, session.status, true);
            }
            counts.count(session.status, true);
            activity = later_of(activity, remote_activity_key(session));
            let ghost before = entries@;
            let entry: GroupEntry = GroupEntry::Remote(i);
            entries.push(entry);
            assert(views(entries@) == views(before).push(entry@));
            assert(views(start.entries@) + task_entries(now, filter, key@) == (views(
                start.entries@,
            ) + task_entries(was, filter, key@)).push(entry@));
        }
        i += 1;
    }
    assert(all.take(remote_sessions@.len() as int) == all);
    Gathering {
        entries,
        counts,
        activity,
        any_session: gathering.any_session,
        any_current: gathering.any_current,
        any_bell: gathering.any_bell,
    }
}

fn build_group(
    key: &str,
    sessions: &Vec<ManagedSession>,
    remote_sessions: &Vec<RemoteSession>,
    projects: &Vec<String>,
    project_labels: &TextMap<String>,
    filter: SessionFilter,
    remote_state: &RemoteLoadState,
    current_dir: &str,
) -> (out: ProjectGroup)
    requires
        sessions@.len() + remote_sessions@.len() <= usize::MAX,
    ensures
        out@ == scene_of(
            sessions@,
            remote_sessions@,
            projects@,
            project_labels@,
            filter,
            *remote_state,
            current_dir@,
        ).group(key@),
{
    let ghost scene = scene_of(
        sessions@,
        remote_sessions@,
        projects@,
        project_labels@,
        filter,
        *remote_state,
        current_dir@,
    );
    let first = gather_sessions(key, sessions, filter, Ghost(scene));
    let gathering = gather_tasks(key, remote_sessions, filter, first);
    let mut entries = gathering.entries;
    assert(views(entries@) == scene.real_entries(key@));
    let is_tracked = broad(filter) && has_text(projects, key);
    let mut remote_loading = false;
    match placeholder_of(filter, remote_state) {
        Some(kind) => {
            let loading = match &kind {
                PlaceholderKind::RemoteLoading => true,
                _ => false,
            };
            if is_tracked && loading {
                remote_loading = true;
            }
            if is_tracked && !loading && !any_remote(&entries) {
                let ghost before = entries@;
                let entry = GroupEntry::Placeholder(kind);
                entries.push(entry);
                assert(views(entries@) == views(before).push(entry@));
            }
        },
        None => {},
    }
    assert(views(entries@) == scene.remote_entries(key@));
    if filter == SessionFilter::All && !any_local(&entries) {
        let ghost before = entries@;
        let entry: GroupEntry = GroupEntry::Placeholder(PlaceholderKind::LocalEmpty);
        entries.insert(0, entry);
        assert(views(entries@) == seq![entry@] + views(before));
    }
    assert(views(entries@) == scene.entries(key@));
    let display_name = match project_labels.get(key) {
        Some(label) => label.clone(),
        None => fallback_project_label(key),
    };
    let is_current = gathering.any_current || (same_text(key, current_dir) && (is_tracked
        || !gathering.any_session));
    ProjectGroup {
        key: key.to_owned(),
        display_name,
        path: key.to_owned(),
        is_current,
        entries,
        counts: gathering.counts,
        has_bell: gathering.any_bell,
        remote_loading,
        last_activity: gathering.activity,
    }
}

/// The projects with their sessions and tasks, in order: those that are followed, where the filter
/// shows them even without sessions, and those of the sessions and tasks that it shows.
pub fn project_groups(
    sessions: &Vec<ManagedSession>,
    remote_sessions: &Vec<RemoteSession>,
    tracked_projects: &Vec<String>,
    project_labels: &TextMap<String>,
    filter: SessionFilter,
    remote_state: &RemoteLoadState,
    current_dir: &str,
) -> (out: Vec<ProjectGroup>)
    requires
        sessions@.len() + remote_sessions@.len() <= usize::MAX,
    ensures
        is_tree(
            views(out@),
            scene_of(
                sessions@,
                remote_sessions@,
                tracked_projects@,
                project_labels@,
                filter,
                *remote_state,
                current_dir@,
            ),
        ),
        views(out@) == tree(
            scene_of(
                sessions@,
                remote_sessions@,
                tracked_projects@,
                project_labels@,
                filter,
                *remote_state,
                current_dir@,
            ),
        ),
{
    let ghost scene = scene_of(
        sessions@,
        remote_sessions@,
        tracked_projects@,
        project_labels@,
        filter,
        *remote_state,
        current_dir@,
    );
    let keys = shown_keys(sessions, remote_sessions, tracked_projects, filter, Ghost(scene));
    let mut groups: Vec<ProjectGroup> = Vec::new();
    let mut i: usize = 0;
    while i < keys.len()
        invariant
            i <= keys.len(),
            sessions@.len() + remote_sessions@.len() <= usize::MAX,
            scene == scene_of(
                sessions@,
                remote_sessions@,
                tracked_projects@,
                project_labels@,
                filter,
                *remote_state,
                current_dir@,
            ),
            groups@.len() == i,
            forall|k: int| 0 <= k < i ==> (#[trigger] groups@[k])@ == scene.group(keys@[k]@),
        decreases keys.len() - i,
    {
        groups.push(
            build_group(
                &keys[i],
                sessions,
                remote_sessions,
                tracked_projects,
                project_labels,
                filter,
                remote_state,
                current_dir,
            ),
        );
        i += 1;
    }
    let ghost built = groups@;
    sort(&mut groups);
    proof {
        sorted_groups_are_a_tree(built, groups@, views(keys@), scene);
        tree_is_determined(views(groups@), tree(scene), scene);
    }
    groups
}

proof fn sorted_groups_are_a_tree(
    built: Seq<ProjectGroup>,
    groups: Seq<ProjectGroup>,
    keys: Seq<Seq<char>>,
    scene: Scene,
)
    requires
        sorted_from(built, groups),
        built.len() == keys.len(),
        forall|k: int| 0 <= k < keys.len() ==> (#[trigger] built[k])@ == scene.group(keys[k]),
        crate::tables::all_differ(keys),
        forall|k: Seq<char>| keys.contains(k) <==> #[trigger] scene.has_group(k),
    ensures
        is_tree(views(groups), scene),
{
    let places = choose|places: Seq<int>| is_sorting(built, groups, places);
    let out = views(groups);
    assert forall|i: int| 0 <= i < out.len() implies #[trigger] out[i] == scene.group(
        keys[places[i]],
    ) && 0 <= places[i] < keys.len() by {
        assert(groups[i] == built[places[i]]);
        assert(built[places[i]]@ == scene.group(keys[places[i]]));
    }
    assert forall|i: int| 0 <= i < out.len() implies scene.has_group((#[trigger] out[i]).key) by {
        assert(keys.contains(keys[places[i]]));
    }
    assert forall|key: Seq<char>| #[trigger] scene.has_group(key) implies exists|i: int|
        0 <= i < out.len() && (#[trigger] out[i]).key == key by {
        assert(keys.contains(key));
        let k = choose|k: int| 0 <= k < keys.len() && keys[k] == key;
        crate::order::arrangement_is_complete(places, keys.len() as int, k);
        let i = choose|i: int| 0 <= i < keys.len() && #[trigger] places[i] == k;
        assert(out[i].key == key);
    }
    assert forall|i: int, j: int| 0 <= i < j < out.len() implies group_before(out[i], out[j]) by {
        assert(groups[i].before(groups[j]) || !groups[j].before(groups[i]));
        group_before_is_total(out[i], out[j]);
        assert(places[i] != places[j]);
        assert(keys[places[i]] != keys[places[j]]) by {
            if places[i] < places[j] {
                assert(keys[places[i]] != keys[places[j]]);
            } else {
                assert(keys[places[j]] != keys[places[i]]);
            }
        }
    }
}


// ---------------------------------------------------------------------------
// The rows of the tree
// ---------------------------------------------------------------------------
/// A row of the tree. Projects, sessions and tasks are named by their places.
#[derive(Debug, PartialEq, Eq)]
pub enum TreeRow<T = String> {
    Group { group_index: usize },
    RemoteGroup { group_index: usize, is_last: bool },
    LocalSession {
        group_index: usize,
        session_index: usize,
        is_last: bool,
        is_remote: bool,
        under_remote: bool,
    },
    RemoteSession { group_index: usize, remote_index: usize, is_last: bool, under_remote: bool },
    Placeholder {
        group_index: usize,
        kind: PlaceholderKind<T>,
        is_last: bool,
        under_remote: bool,
    },
}

impl View for TreeRow<String> {
    type V = TreeRow<Seq<char>>;

    open spec fn view(&self) -> TreeRow<Seq<char>> {
        match self {
            TreeRow::Group { group_index } => TreeRow::Group { group_index: *group_index },
            TreeRow::RemoteGroup { group_index, is_last } => TreeRow::RemoteGroup {
                group_index: *group_index,
                is_last: *is_last,
            },
            TreeRow::LocalSession {
                group_index,
                session_index,
                is_last,
                is_remote,
                under_remote,
            } => TreeRow::LocalSession {
                group_index: *group_index,
                session_index: *session_index,
                is_last: *is_last,
                is_remote: *is_remote,
                under_remote: *under_remote,
            },
            TreeRow::RemoteSession { group_index, remote_index, is_last, under_remote } =>
            TreeRow::RemoteSession {
                group_index: *group_index,
                remote_index: *remote_index,
                is_last: *is_last,
                under_remote: *under_remote,
            },
            TreeRow::Placeholder { group_index, kind, is_last, under_remote } =>
            TreeRow::Placeholder {
                group_index: *group_index,
                kind: kind@,
                is_last: *is_last,
                under_remote: *under_remote,
            },
        }
    }
}

impl Clone for TreeRow<String> {
    fn clone(&self) -> (out: Self)
        ensures
            out == *self,
    {
        match self {
            TreeRow::Group { group_index } => TreeRow::Group { group_index: *group_index },
            TreeRow::RemoteGroup { group_index, is_last } => TreeRow::RemoteGroup {
                group_index: *group_index,
                is_last: *is_last,
            },
            TreeRow::LocalSession {
                group_index,
                session_index,
                is_last,
                is_remote,
                under_remote,
            } => TreeRow::LocalSession {
                group_index: *group_index,
                session_index: *session_index,
                is_last: *is_last,
                is_remote: *is_remote,
                under_remote: *under_remote,
            },
            TreeRow::RemoteSession { group_index, remote_index, is_last, under_remote } =>
            TreeRow::RemoteSession {
                group_index: *group_index,
                remote_index: *remote_index,
                is_last: *is_last,
                under_remote: *under_remote,
            },
            TreeRow::Placeholder { group_index, kind, is_last, under_remote } =>
            TreeRow::Placeholder {
                group_index: *group_index,
                kind: kind.clone(),
                is_last: *is_last,
                under_remote: *under_remote,
            },
        }
    }
}

impl<T> TreeRow<T> {
    /// The place of the project to which the row belongs.
    pub open spec fn group_place(self) -> usize {
        match self {
            TreeRow::Group { group_index } => group_index,
            TreeRow::RemoteGroup { group_index, .. } => group_index,
            TreeRow::LocalSession { group_index, .. } => group_index,
            TreeRow::RemoteSession { group_index, .. } => group_index,
            TreeRow::Placeholder { group_index, .. } => group_index,
        }
    }

    /// The row is about remote sessions.
    pub open spec fn is_remote_row(self) -> bool {
        match self {
            TreeRow::Group { .. } => false,
            TreeRow::RemoteGroup { .. } => true,
            TreeRow::LocalSession { is_remote, under_remote, .. } => is_remote || under_remote,
            TreeRow::RemoteSession { .. } => true,
            TreeRow::Placeholder { kind, under_remote, .. } => under_remote || !(kind is LocalEmpty),
        }
    }

    /// The place of the project to which the row belongs.
    pub fn group_index(&self) -> (out: usize)
        ensures
            out == self.group_place(),
    {
        match self {
            TreeRow::Group { group_index } => *group_index,
            TreeRow::RemoteGroup { group_index, .. } => *group_index,
            TreeRow::LocalSession { group_index, .. } => *group_index,
            TreeRow::RemoteSession { group_index, .. } => *group_index,
            TreeRow::Placeholder { group_index, .. } => *group_index,
        }
    }

    /// Whether the row is about remote sessions.
    pub fn is_remote_context(&self) -> (yes: bool)
        ensures
            yes == self.is_remote_row(),
    {
        match self {
            TreeRow::Group { .. } => false,
            TreeRow::RemoteGroup { .. } => true,
            TreeRow::LocalSession { is_remote, under_remote, .. } => *is_remote || *under_remote,
            TreeRow::RemoteSession { .. } => true,
            TreeRow::Placeholder { kind, under_remote, .. } => {
                *under_remote || match kind {
                    PlaceholderKind::LocalEmpty => false,
                    _ => true,
                }
            },
        }
    }
}

/// The key under which the remote part of a project is folded.
pub open spec fn remote_key(key: Seq<char>) -> Seq<char> {
    key + "::remote"@
}

/// The key under which the remote part of a project is folded.
pub fn remote_group_key(group_key: &str) -> (out: String)
    ensures
        out@ == remote_key(group_key@),
{
    concat(group_key, "::remote")
}

/// The entries that stand directly under their project.
pub open spec fn local_part(entries: Seq<GroupEntry<Seq<char>>>) -> Seq<GroupEntry<Seq<char>>>
    decreases entries.len(),
{
    if entries.len() == 0 {
        seq![]
    } else if entries.last().is_local() {
        local_part(entries.drop_last()).push(entries.last())
    } else {
        local_part(entries.drop_last())
    }
}

/// The entries that stand with the remote ones.
pub open spec fn remote_part(entries: Seq<GroupEntry<Seq<char>>>) -> Seq<GroupEntry<Seq<char>>>
    decreases entries.len(),
{
    if entries.len() == 0 {
        seq![]
    } else if entries.last().is_local() {
        remote_part(entries.drop_last())
    } else {
        remote_part(entries.drop_last()).push(entries.last())
    }
}

/// The row of an entry.
pub open spec fn entry_row(
    entry: GroupEntry<Seq<char>>,
    group_index: usize,
    is_last: bool,
    under_remote: bool,
) -> TreeRow<Seq<char>> {
    match entry {
        GroupEntry::Local(session_index) => TreeRow::LocalSession {
            group_index,
            session_index,
            is_last,
            is_remote: false,
            under_remote,
        },
        GroupEntry::RemoteLocal(session_index) => TreeRow::LocalSession {
            group_index,
            session_index,
            is_last,
            is_remote: true,
            under_remote,
        },
        GroupEntry::Remote(remote_index) => TreeRow::RemoteSession {
            group_index,
            remote_index,
            is_last,
            under_remote,
        },
        GroupEntry::Placeholder(kind) => TreeRow::Placeholder {
            group_index,
            kind,
            is_last,
            under_remote,
        },
    }
}

/// The rows of entries; the last of them is marked where `closes` says that nothing follows.
pub open spec fn entry_rows(
    entries: Seq<GroupEntry<Seq<char>>>,
    group_index: usize,
    closes: bool,
    under_remote: bool,
) -> Seq<TreeRow<Seq<char>>> {
    Seq::new(
        entries.len(),
        |i: int| entry_row(entries[i], group_index, closes && i + 1 == entries.len(), under_remote),
    )
}

/// The remote sessions of a project stand in a part of their own.
pub open spec fn has_subtree(group: GroupView, filter: SessionFilter) -> bool {
    remote_part(group.entries).len() > 0 && filter != SessionFilter::Remote
}

/// The rows of the remote part of a project.
pub open spec fn remote_rows(
    group: GroupView,
    group_index: usize,
    collapsed: Set<Seq<char>>,
    filter: SessionFilter,
) -> Seq<TreeRow<Seq<char>>> {
    let subtree = has_subtree(group, filter);
    let rows = entry_rows(remote_part(group.entries), group_index, true, subtree);
    if !subtree {
        rows
    } else if collapsed.contains(remote_key(group.key)) {
        seq![TreeRow::RemoteGroup { group_index, is_last: true }]
    } else {
        seq![TreeRow::<Seq<char>>::RemoteGroup { group_index, is_last: true }] + rows
    }
}

/// The rows of a project.
pub open spec fn group_rows(
    group: GroupView,
    group_index: usize,
    collapsed: Set<Seq<char>>,
    filter: SessionFilter,
) -> Seq<TreeRow<Seq<char>>> {
    if collapsed.contains(group.key) {
        seq![TreeRow::Group { group_index }]
    } else {
        seq![TreeRow::<Seq<char>>::Group { group_index }] + entry_rows(
            local_part(group.entries),
            group_index,
            !has_subtree(group, filter),
            false,
        ) + remote_rows(group, group_index, collapsed, filter)
    }
}

/// The rows of the projects.
pub open spec fn rows_of(
    groups: Seq<GroupView>,
    collapsed: Set<Seq<char>>,
    filter: SessionFilter,
) -> Seq<TreeRow<Seq<char>>>
    decreases groups.len(),
{
    if groups.len() == 0 {
        seq![]
    } else {
        rows_of(groups.drop_last(), collapsed, filter) + group_rows(
            groups.last(),
            (groups.len() - 1) as usize,
            collapsed,
            filter,
        )
    }
}

impl ProjectGroup<String, Vec<GroupEntry<String>>, usize> {
    /// The entries that stand directly under the project.
    pub fn local_entries(&self) -> (out: Vec<GroupEntry>)
        ensures
            views(out@) == local_part(self@.entries),
    {
        let mut out: Vec<GroupEntry> = Vec::new();
        let ghost all = views(self.entries@);
        let mut i: usize = 0;
        while i < self.entries.len()
            invariant
                i <= self.entries.len(),
                all == views(self.entries@),
                views(out@) == local_part(all.take(i as int)),
            decreases self.entries.len() - i,
        {
            assert(all.take(i + 1).drop_last() == all.take(i as int));
            assert(all.take(i + 1).last() == self.entries@[i as int]@);
            if self.entries[i].local() {
                let ghost before = out@;
                out.push(self.entries[i].clone());
                assert(views(out@) == views(before).push(self.entries@[i as int]@));
            }
            i += 1;
        }
        assert(all.take(self.entries@.len() as int) == all);
        out
    }

    /// The entries that stand with the remote ones.
    pub fn remote_entries(&self) -> (out: Vec<GroupEntry>)
        ensures
            views(out@) == remote_part(self@.entries),
    {
        let mut out: Vec<GroupEntry> = Vec::new();
        let ghost all = views(self.entries@);
        let mut i: usize = 0;
        while i < self.entries.len()
            invariant
                i <= self.entries.len(),
                all == views(self.entries@),
                views(out@) == remote_part(all.take(i as int)),
            decreases self.entries.len() - i,
        {
            assert(all.take(i + 1).drop_last() == all.take(i as int));
            assert(all.take(i + 1).last() == self.entries@[i as int]@);
            if !self.entries[i].local() {
                let ghost before = out@;
                out.push(self.entries[i].clone());
                assert(views(out@) == views(before).push(self.entries@[i as int]@));
            }
            i += 1;
        }
        assert(all.take(self.entries@.len() as int) == all);
        out
    }
}

fn row_of(entry: &GroupEntry, group_index: usize, is_last: bool, under_remote: bool) -> (out: TreeRow)
    ensures
        out@ == entry_row(entry@, group_index, is_last, under_remote),
{
    match entry {
        GroupEntry::Local(session_index) => TreeRow::LocalSession {
            group_index,
            session_index: *session_index,
            is_last,
            is_remote: false,
            under_remote,
        },
        GroupEntry::RemoteLocal(session_index) => TreeRow::LocalSession {
            group_index,
            session_index: *session_index,
            is_last,
            is_remote: true,
            under_remote,
        },
        GroupEntry::Remote(remote_index) => TreeRow::RemoteSession {
            group_index,
            remote_index: *remote_index,
            is_last,
            under_remote,
        },
        GroupEntry::Placeholder(kind) => TreeRow::Placeholder {
            group_index,
            kind: kind.clone(),
            is_last,
            under_remote,
        },
    }
}

fn push_rows(
    rows: &mut Vec<TreeRow>,
    entries: &Vec<GroupEntry>,
    group_index: usize,
    closes: bool,
    under_remote: bool,
)
    ensures
        views(final(rows)@) == views(old(rows)@) + entry_rows(
            views(entries@),
            group_index,
            closes,
            under_remote,
        ),
{
    let ghost start = views(rows@);
    let ghost wanted = entry_rows(views(entries@), group_index, closes, under_remote);
    let mut i: usize = 0;
    while i < entries.len()
        invariant
            i <= entries.len(),
            wanted == entry_rows(views(entries@), group_index, closes, under_remote),
            views(rows@) == start + wanted.take(i as int),
        decreases entries.len() - i,
    {
        let ghost before = rows@;
        let row = row_of(&entries[i], group_index, closes && i + 1 == entries.len(), under_remote);
        rows.push(row);
        assert(views(rows@) == views(before).push(row@));
        assert(wanted.take(i + 1) == wanted.take(i as int).push(row@));
        i += 1;
    }
    assert(wanted.take(entries@.len() as int) == wanted);
}

fn push_row(rows: &mut Vec<TreeRow>, row: TreeRow)
    ensures
        views(final(rows)@) == views(old(rows)@) + seq![row@],
{
    let ghost before = rows@;
    rows.push(row);
    assert(views(rows@) == views(before) + seq![row@]);
}

fn push_group_rows(
    rows: &mut Vec<TreeRow>,
    group: &ProjectGroup,
    group_index: usize,
    collapsed_groups: &TextSet,
    filter: SessionFilter,
)
    ensures
        views(final(rows)@) == views(old(rows)@) + group_rows(
            group@,
            group_index,
            collapsed_groups@,
            filter,
        ),
{
    let ghost start = views(rows@);
    push_row(rows, TreeRow::Group { group_index });
    if collapsed_groups.contains(&group.key) {
        return;
    }
    let local_entries = group.local_entries();
    let remote_entries = group.remote_entries();
    let subtree = remote_entries.len() > 0 && filter != SessionFilter::Remote;
    assert(views(remote_entries@).len() == remote_entries@.len());
    assert(subtree == has_subtree(group@, filter));
    push_rows(rows, &local_entries, group_index, !subtree, false);
    if subtree {
        push_row(rows, TreeRow::RemoteGroup { group_index, is_last: true });
        if collapsed_groups.contains(&remote_group_key(&group.key)) {
            assert(views(rows@) == start + group_rows(
                group@,
                group_index,
                collapsed_groups@,
                filter,
            ));
            return;
        }
    }
    push_rows(rows, &remote_entries, group_index, true, subtree);
    assert(views(rows@) == start + group_rows(group@, group_index, collapsed_groups@, filter));
}

/// The rows of the projects, without those under a folded one.
pub fn tree_rows(groups: &Vec<ProjectGroup>, collapsed_groups: &TextSet, filter: SessionFilter) -> (out:
    Vec<TreeRow>)
    ensures
        views(out@) == rows_of(views(groups@), collapsed_groups@, filter),
{
    let mut rows: Vec<TreeRow> = Vec::new();
    let ghost all = views(groups@);
    let mut i: usize = 0;
    while i < groups.len()
        invariant
            i <= groups.len(),
            all == views(groups@),
            views(rows@) == rows_of(all.take(i as int), collapsed_groups@, filter),
        decreases groups.len() - i,
    {
        assert(all.take(i + 1).drop_last() == all.take(i as int));
        assert(all.take(i + 1).last() == groups@[i as int]@);
        push_group_rows(&mut rows, &groups[i], i, collapsed_groups, filter);
        i += 1;
    }
    assert(all.take(groups@.len() as int) == all);
    rows
}


// ---------------------------------------------------------------------------
// What holds of the tree
// ---------------------------------------------------------------------------
/// The entry names a session or a task that is there.
pub open spec fn entry_fits(entry: GroupEntry<Seq<char>>, sessions: nat, remote: nat) -> bool {
    match entry {
        GroupEntry::Local(i) => i < sessions,
        GroupEntry::RemoteLocal(i) => i < sessions,
        GroupEntry::Remote(i) => i < remote,
        GroupEntry::Placeholder(_) => true,
    }
}

/// All entries name sessions and tasks that are there.
pub open spec fn entries_fit(
    entries: Seq<GroupEntry<Seq<char>>>,
    sessions: nat,
    remote: nat,
) -> bool {
    forall|i: int| 0 <= i < entries.len() ==> entry_fits(#[trigger] entries[i], sessions, remote)
}

/// The row names a project, and a session or a task, that are there.
pub open spec fn row_fits(row: TreeRow<Seq<char>>, groups: nat, sessions: nat, remote: nat) -> bool {
    row.group_place() < groups && match row {
        TreeRow::LocalSession { session_index, .. } => session_index < sessions,
        TreeRow::RemoteSession { remote_index, .. } => remote_index < remote,
        _ => true,
    }
}

/// All rows name projects, sessions and tasks that are there.
pub open spec fn rows_fit(
    rows: Seq<TreeRow<Seq<char>>>,
    groups: nat,
    sessions: nat,
    remote: nat,
) -> bool {
    forall|i: int| 0 <= i < rows.len() ==> row_fits(#[trigger] rows[i], groups, sessions, remote)
}

proof fn session_entries_fit(
    sessions: Seq<ManagedSession<Seq<char>>>,
    filter: SessionFilter,
    key: Seq<char>,
    n: nat,
    remote: nat,
)
    requires
        sessions.len() <= n <= usize::MAX,
    ensures
        entries_fit(session_entries(sessions, filter, key), n, remote),
    decreases sessions.len(),
{
    if sessions.len() > 0 {
        session_entries_fit(sessions.drop_last(), filter, key, n, remote);
    }
}

proof fn task_entries_fit(
    remote: Seq<RemoteSession<Seq<char>>>,
    filter: SessionFilter,
    key: Seq<char>,
    sessions: nat,
    n: nat,
)
    requires
        remote.len() <= n <= usize::MAX,
    ensures
        entries_fit(task_entries(remote, filter, key), sessions, n),
    decreases remote.len(),
{
    if remote.len() > 0 {
        task_entries_fit(remote.drop_last(), filter, key, sessions, n);
    }
}

/// What stands under a project names sessions and tasks that are there.
pub proof fn group_entries_fit(scene: Scene, key: Seq<char>)
    requires
        scene.sessions.len() <= usize::MAX,
        scene.remote.len() <= usize::MAX,
    ensures
        entries_fit(scene.group(key).entries, scene.sessions.len(), scene.remote.len()),
{
    let ns = scene.sessions.len();
    let nr = scene.remote.len();
    session_entries_fit(scene.sessions, scene.filter, key, ns, nr);
    task_entries_fit(scene.remote, scene.filter, key, ns, nr);
    assert(entries_fit(scene.real_entries(key), ns, nr));
    assert(entries_fit(scene.remote_entries(key), ns, nr));
}

proof fn parts_fit(entries: Seq<GroupEntry<Seq<char>>>, sessions: nat, remote: nat)
    requires
        entries_fit(entries, sessions, remote),
    ensures
        entries_fit(local_part(entries), sessions, remote),
        entries_fit(remote_part(entries), sessions, remote),
    decreases entries.len(),
{
    if entries.len() > 0 {
        let rest = entries.drop_last();
        assert forall|i: int| 0 <= i < rest.len() implies entry_fits(
            #[trigger] rest[i],
            sessions,
            remote,
        ) by {
            assert(entries[i] == rest[i]);
        }
        parts_fit(rest, sessions, remote);
        assert(entry_fits(entries[entries.len() - 1], sessions, remote));
    }
}

proof fn entry_rows_fit(
    entries: Seq<GroupEntry<Seq<char>>>,
    group_index: usize,
    closes: bool,
    under_remote: bool,
    groups: nat,
    sessions: nat,
    remote: nat,
)
    requires
        entries_fit(entries, sessions, remote),
        group_index < groups,
    ensures
        rows_fit(entry_rows(entries, group_index, closes, under_remote), groups, sessions, remote),
{
    let rows = entry_rows(entries, group_index, closes, under_remote);
    assert forall|i: int| 0 <= i < rows.len() implies row_fits(
        #[trigger] rows[i],
        groups,
        sessions,
        remote,
    ) by {
        assert(entry_fits(entries[i], sessions, remote));
    }
}

proof fn group_rows_fit(
    group: GroupView,
    group_index: usize,
    collapsed: Set<Seq<char>>,
    filter: SessionFilter,
    groups: nat,
    sessions: nat,
    remote: nat,
)
    requires
        entries_fit(group.entries, sessions, remote),
        group_index < groups,
    ensures
        rows_fit(group_rows(group, group_index, collapsed, filter), groups, sessions, remote),
{
    let subtree = has_subtree(group, filter);
    parts_fit(group.entries, sessions, remote);
    entry_rows_fit(
        local_part(group.entries),
        group_index,
        !subtree,
        false,
        groups,
        sessions,
        remote,
    );
    entry_rows_fit(
        remote_part(group.entries),
        group_index,
        true,
        subtree,
        groups,
        sessions,
        remote,
    );
    assert(rows_fit(remote_rows(group, group_index, collapsed, filter), groups, sessions, remote));
}

/// Every row of projects whose entries fit names what is there.
pub proof fn all_rows_fit(
    groups: Seq<GroupView>,
    collapsed: Set<Seq<char>>,
    filter: SessionFilter,
    n: nat,
    sessions: nat,
    remote: nat,
)
    requires
        groups.len() <= n <= usize::MAX,
        forall|i: int|
            0 <= i < groups.len() ==> entries_fit((#[trigger] groups[i]).entries, sessions, remote),
    ensures
        rows_fit(rows_of(groups, collapsed, filter), n, sessions, remote),
    decreases groups.len(),
{
    if groups.len() > 0 {
        let rest = groups.drop_last();
        assert forall|i: int| 0 <= i < rest.len() implies entries_fit(
            (#[trigger] rest[i]).entries,
            sessions,
            remote,
        ) by {
            assert(rest[i] == groups[i]);
        }
        all_rows_fit(rest, collapsed, filter, n, sessions, remote);
        assert(entries_fit(groups[groups.len() - 1].entries, sessions, remote));
        group_rows_fit(
            groups.last(),
            (groups.len() - 1) as usize,
            collapsed,
            filter,
            n,
            sessions,
            remote,
        );
    }
}

/// Every row of a tree names a project, and a session or a task, that are there.
pub proof fn tree_rows_fit(
    groups: Seq<GroupView>,
    scene: Scene,
    collapsed: Set<Seq<char>>,
)
    requires
        is_tree(groups, scene),
        groups.len() <= usize::MAX,
        scene.sessions.len() <= usize::MAX,
        scene.remote.len() <= usize::MAX,
    ensures
        rows_fit(
            rows_of(groups, collapsed, scene.filter),
            groups.len(),
            scene.sessions.len(),
            scene.remote.len(),
        ),
{
    assert forall|i: int| 0 <= i < groups.len() implies entries_fit(
        (#[trigger] groups[i]).entries,
        scene.sessions.len(),
        scene.remote.len(),
    ) by {
        group_entries_fit(scene, groups[i].key);
        assert(groups[i] == scene.group(groups[i].key));
    }
    all_rows_fit(
        groups,
        collapsed,
        scene.filter,
        groups.len(),
        scene.sessions.len(),
        scene.remote.len(),
    );
}

/// Each project has a row of its own, whatever is folded.
pub proof fn each_group_has_a_row(
    groups: Seq<GroupView>,
    collapsed: Set<Seq<char>>,
    filter: SessionFilter,
    place: int,
)
    requires
        0 <= place < groups.len() <= usize::MAX,
    ensures
        rows_of(groups, collapsed, filter).contains(TreeRow::Group { group_index: place as usize }),
    decreases groups.len(),
{
    let row = TreeRow::<Seq<char>>::Group { group_index: place as usize };
    let rows = rows_of(groups, collapsed, filter);
    let early = rows_of(groups.drop_last(), collapsed, filter);
    if place == groups.len() - 1 {
        assert(rows[early.len() as int] == row);
    } else {
        each_group_has_a_row(groups.drop_last(), collapsed, filter, place);
        let i = choose|i: int| 0 <= i < early.len() && early[i] == row;
        assert(rows[i] == row);
    }
}

proof fn shown_session_has_its_entry(
    sessions: Seq<ManagedSession<Seq<char>>>,
    filter: SessionFilter,
    key: Seq<char>,
    place: int,
)
    requires
        0 <= place < sessions.len() <= usize::MAX,
        is_under(sessions[place], filter, key),
    ensures
        session_entries(sessions, filter, key).contains(
            if sessions[place].is_remote {
                GroupEntry::RemoteLocal(place as usize)
            } else {
                GroupEntry::Local(place as usize)
            },
        ),
    decreases sessions.len(),
{
    let entry = if sessions[place].is_remote {
        GroupEntry::<Seq<char>>::RemoteLocal(place as usize)
    } else {
        GroupEntry::<Seq<char>>::Local(place as usize)
    };
    let all = session_entries(sessions, filter, key);
    let rest = session_entries(sessions.drop_last(), filter, key);
    if place == sessions.len() - 1 {
        assert(all[rest.len() as int] == entry);
    } else {
        assert(sessions.drop_last()[place] == sessions[place]);
        shown_session_has_its_entry(sessions.drop_last(), filter, key, place);
        let i = choose|i: int| 0 <= i < rest.len() && rest[i] == entry;
        assert(all[i] == entry);
    }
}

/// Every session that the filter shows stands under its project.
pub proof fn shown_sessions_stand_under_their_project(scene: Scene, place: int)
    requires
        0 <= place < scene.sessions.len() <= usize::MAX,
        shows_session(scene.filter, scene.sessions[place]),
    ensures
        scene.has_group(scene.sessions[place].project_dir),
        scene.group(scene.sessions[place].project_dir).entries.contains(
            if scene.sessions[place].is_remote {
                GroupEntry::RemoteLocal(place as usize)
            } else {
                GroupEntry::Local(place as usize)
            },
        ),
{
    let key = scene.sessions[place].project_dir;
    let entry = if scene.sessions[place].is_remote {
        GroupEntry::<Seq<char>>::RemoteLocal(place as usize)
    } else {
        GroupEntry::<Seq<char>>::Local(place as usize)
    };
    assert(is_under(scene.sessions[place], scene.filter, key));
    shown_session_has_its_entry(scene.sessions, scene.filter, key, place);
    let own = session_entries(scene.sessions, scene.filter, key);
    let i = choose|i: int| 0 <= i < own.len() && own[i] == entry;
    assert(scene.real_entries(key)[i] == entry);
    assert(scene.remote_entries(key)[i] == entry);
    let all = scene.entries(key);
    if all == scene.remote_entries(key) {
        assert(all[i] == entry);
    } else {
        assert(all[i + 1] == entry);
    }
}

proof fn session_counts_balance(
    sessions: Seq<ManagedSession<Seq<char>>>,
    filter: SessionFilter,
    key: Seq<char>,
)
    ensures
        session_counts(sessions, filter, key).is_balanced(),
        session_counts(sessions, filter, key).total() == session_entries(
            sessions,
            filter,
            key,
        ).len(),
    decreases sessions.len(),
{
    if sessions.len() > 0 {
        session_counts_balance(sessions.drop_last(), filter, key);
    }
}

proof fn task_counts_balance(
    counts: StatusCounts<nat>,
    remote: Seq<RemoteSession<Seq<char>>>,
    filter: SessionFilter,
    key: Seq<char>,
)
    requires
        counts.is_balanced(),
    ensures
        task_counts(counts, remote, filter, key).is_balanced(),
        task_counts(counts, remote, filter, key).total() == counts.total() + task_entries(
            remote,
            filter,
            key,
        ).len(),
    decreases remote.len(),
{
    if remote.len() > 0 {
        task_counts_balance(counts, remote.drop_last(), filter, key);
    }
}

/// The counts of a project are those of the sessions and tasks under it: each is counted once by
/// what it is doing and once by where it runs.
pub proof fn group_counts_match_its_entries(scene: Scene, key: Seq<char>)
    ensures
        scene.group(key).counts.is_balanced(),
        scene.group(key).counts.total() == scene.real_entries(key).len(),
{
    session_counts_balance(scene.sessions, scene.filter, key);
    task_counts_balance(
        session_counts(scene.sessions, scene.filter, key),
        scene.remote,
        scene.filter,
        key,
    );
}

/// Where all sessions are shown, no project is without an entry.
pub proof fn all_shown_groups_have_entries(scene: Scene, key: Seq<char>)
    requires
        scene.filter == SessionFilter::All,
    ensures
        scene.group(key).entries.len() > 0,
        has_local(scene.group(key).entries),
{
    let entries = scene.remote_entries(key);
    if !has_local(entries) {
        assert(scene.entries(key)[0].is_local());
    }
}

// ---------------------------------------------------------------------------
// What stands under a project
// ---------------------------------------------------------------------------
/// A filter lets a session through: `All` every one, `Remote` every remote one, each of the others
/// those that are doing what it is called after.
pub open spec fn lets_through(filter: SessionFilter, status: SessionStatus, is_remote: bool) -> bool {
    ||| filter is All
    ||| filter is Remote && is_remote
    ||| filter is Waiting && status is Waiting
    ||| filter is Done && status is Done
    ||| filter is Busy && status is Busy
    ||| filter is Idle && status is Idle
}

/// The session at a place belongs under a project and is let through.
pub open spec fn belongs(scene: Scene, key: Seq<char>, place: int) -> bool {
    &&& 0 <= place < scene.sessions.len()
    &&& scene.sessions[place].project_dir == key
    &&& lets_through(
        scene.filter,
        scene.sessions[place].status,
        scene.sessions[place].is_remote,
    )
}

/// The task at a place belongs under a project and is let through.
pub open spec fn task_belongs(scene: Scene, key: Seq<char>, place: int) -> bool {
    &&& 0 <= place < scene.remote.len()
    &&& scene.remote[place].project_dir == key
    &&& lets_through(scene.filter, scene.remote[place].status, true)
}

/// How often an entry stands among entries.
pub open spec fn occurrences(
    entries: Seq<GroupEntry<Seq<char>>>,
    entry: GroupEntry<Seq<char>>,
) -> nat {
    entries.to_multiset().count(entry)
}

proof fn occurrences_of_push(
    entries: Seq<GroupEntry<Seq<char>>>,
    last: GroupEntry<Seq<char>>,
    entry: GroupEntry<Seq<char>>,
)
    ensures
        occurrences(entries.push(last), entry) == occurrences(entries, entry) + if last == entry {
            1nat
        } else {
            0
        },
{
    entries.to_multiset_ensures();
    assert(entries.push(last).to_multiset() =~= entries.to_multiset().insert(last));
}

proof fn occurrences_of_sum(
    a: Seq<GroupEntry<Seq<char>>>,
    b: Seq<GroupEntry<Seq<char>>>,
    entry: GroupEntry<Seq<char>>,
)
    ensures
        occurrences(a + b, entry) == occurrences(a, entry) + occurrences(b, entry),
{
    vstd::seq_lib::lemma_multiset_commutative(a, b);
}

proof fn occurrences_of_none(entry: GroupEntry<Seq<char>>)
    ensures
        occurrences(seq![], entry) == 0,
{
    Seq::<GroupEntry<Seq<char>>>::empty().to_multiset_ensures();
    assert(Seq::<GroupEntry<Seq<char>>>::empty().to_multiset().len() == 0);
}

proof fn session_entries_occur(
    sessions: Seq<ManagedSession<Seq<char>>>,
    filter: SessionFilter,
    key: Seq<char>,
    place: usize,
    kind: PlaceholderKind<Seq<char>>,
)
    requires
        sessions.len() <= usize::MAX,
    ensures
        ({
            let entries = session_entries(sessions, filter, key);
            let under = place < sessions.len() && sessions[place as int].project_dir == key
                && lets_through(
                filter,
                sessions[place as int].status,
                sessions[place as int].is_remote,
            );
            &&& occurrences(entries, GroupEntry::Local(place)) == if under
                && !sessions[place as int].is_remote {
                1nat
            } else {
                0
            }
            &&& occurrences(entries, GroupEntry::RemoteLocal(place)) == if under
                && sessions[place as int].is_remote {
                1nat
            } else {
                0
            }
            &&& occurrences(entries, GroupEntry::Remote(place)) == 0
            &&& occurrences(entries, GroupEntry::Placeholder(kind)) == 0
        }),
    decreases sessions.len(),
{
    if sessions.len() == 0 {
        occurrences_of_none(GroupEntry::Local(place));
        occurrences_of_none(GroupEntry::RemoteLocal(place));
        occurrences_of_none(GroupEntry::Remote(place));
        occurrences_of_none(GroupEntry::Placeholder(kind));
    } else {
        let rest = session_entries(sessions.drop_last(), filter, key);
        session_entries_occur(sessions.drop_last(), filter, key, place, kind);
        let last = if sessions.last().is_remote {
            GroupEntry::<Seq<char>>::RemoteLocal((sessions.len() - 1) as usize)
        } else {
            GroupEntry::<Seq<char>>::Local((sessions.len() - 1) as usize)
        };
        occurrences_of_push(rest, last, GroupEntry::Local(place));
        occurrences_of_push(rest, last, GroupEntry::RemoteLocal(place));
        occurrences_of_push(rest, last, GroupEntry::Remote(place));
        occurrences_of_push(rest, last, GroupEntry::Placeholder(kind));
    }
}

proof fn task_entries_occur(
    remote: Seq<RemoteSession<Seq<char>>>,
    filter: SessionFilter,
    key: Seq<char>,
    place: usize,
    kind: PlaceholderKind<Seq<char>>,
)
    requires
        remote.len() <= usize::MAX,
    ensures
        ({
            let entries = task_entries(remote, filter, key);
            let under = place < remote.len() && remote[place as int].project_dir == key
                && lets_through(filter, remote[place as int].status, true);
            &&& occurrences(entries, GroupEntry::Remote(place)) == if under {
                1nat
            } else {
                0
            }
            &&& occurrences(entries, GroupEntry::Local(place)) == 0
            &&& occurrences(entries, GroupEntry::RemoteLocal(place)) == 0
            &&& occurrences(entries, GroupEntry::Placeholder(kind)) == 0
        }),
    decreases remote.len(),
{
    if remote.len() == 0 {
        occurrences_of_none(GroupEntry::Local(place));
        occurrences_of_none(GroupEntry::RemoteLocal(place));
        occurrences_of_none(GroupEntry::Remote(place));
        occurrences_of_none(GroupEntry::Placeholder(kind));
    } else {
        let rest = task_entries(remote.drop_last(), filter, key);
        task_entries_occur(remote.drop_last(), filter, key, place, kind);
        let last = GroupEntry::<Seq<char>>::Remote((remote.len() - 1) as usize);
        occurrences_of_push(rest, last, GroupEntry::Local(place));
        occurrences_of_push(rest, last, GroupEntry::RemoteLocal(place));
        occurrences_of_push(rest, last, GroupEntry::Remote(place));
        occurrences_of_push(rest, last, GroupEntry::Placeholder(kind));
    }
}

proof fn real_entries_occur(
    scene: Scene,
    key: Seq<char>,
    place: usize,
    kind: PlaceholderKind<Seq<char>>,
)
    requires
        scene.sessions.len() <= usize::MAX,
        scene.remote.len() <= usize::MAX,
    ensures
        ({
            let entries = scene.real_entries(key);
            let sessions = scene.sessions;
            &&& occurrences(entries, GroupEntry::Local(place)) == if belongs(
                scene,
                key,
                place as int,
            ) && !sessions[place as int].is_remote {
                1nat
            } else {
                0
            }
            &&& occurrences(entries, GroupEntry::RemoteLocal(place)) == if belongs(
                scene,
                key,
                place as int,
            ) && sessions[place as int].is_remote {
                1nat
            } else {
                0
            }
            &&& occurrences(entries, GroupEntry::Remote(place)) == if task_belongs(
                scene,
                key,
                place as int,
            ) {
                1nat
            } else {
                0
            }
            &&& occurrences(entries, GroupEntry::Placeholder(kind)) == 0
        }),
{
    let a = session_entries(scene.sessions, scene.filter, key);
    let b = task_entries(scene.remote, scene.filter, key);
    session_entries_occur(scene.sessions, scene.filter, key, place, kind);
    task_entries_occur(scene.remote, scene.filter, key, place, kind);
    occurrences_of_sum(a, b, GroupEntry::Local(place));
    occurrences_of_sum(a, b, GroupEntry::RemoteLocal(place));
    occurrences_of_sum(a, b, GroupEntry::Remote(place));
    occurrences_of_sum(a, b, GroupEntry::Placeholder(kind));
}

proof fn some_occur(entries: Seq<GroupEntry<Seq<char>>>, entry: GroupEntry<Seq<char>>)
    ensures
        entries.contains(entry) <==> occurrences(entries, entry) > 0,
{
    entries.to_multiset_ensures();
}

/// Under a project stand exactly the sessions and tasks of its directory that the filter lets
/// through: each of them once, at its own place in the lists, and no other.
pub proof fn each_belongs_under_its_project_once(scene: Scene, key: Seq<char>, place: usize)
    requires
        scene.sessions.len() <= usize::MAX,
        scene.remote.len() <= usize::MAX,
    ensures
        occurrences(scene.group(key).entries, GroupEntry::Local(place)) == if belongs(
            scene,
            key,
            place as int,
        ) && !scene.sessions[place as int].is_remote {
            1nat
        } else {
            0
        },
        occurrences(scene.group(key).entries, GroupEntry::RemoteLocal(place)) == if belongs(
            scene,
            key,
            place as int,
        ) && scene.sessions[place as int].is_remote {
            1nat
        } else {
            0
        },
        occurrences(scene.group(key).entries, GroupEntry::Remote(place)) == if task_belongs(
            scene,
            key,
            place as int,
        ) {
            1nat
        } else {
            0
        },
{
    let none = PlaceholderKind::<Seq<char>>::LocalEmpty;
    real_entries_occur(scene, key, place, none);
    placeholders_hide_nothing(scene, key, GroupEntry::Local(place));
    placeholders_hide_nothing(scene, key, GroupEntry::RemoteLocal(place));
    placeholders_hide_nothing(scene, key, GroupEntry::Remote(place));
}

proof fn placeholders_hide_nothing(
    scene: Scene,
    key: Seq<char>,
    entry: GroupEntry<Seq<char>>,
)
    requires
        !(entry is Placeholder),
    ensures
        occurrences(scene.entries(key), entry) == occurrences(scene.real_entries(key), entry),
{
    let own = scene.real_entries(key);
    let more = scene.remote_entries(key);
    if more != own {
        occurrences_of_push(own, more.last(), entry);
        assert(more == own.push(more.last()));
    }
    let head = GroupEntry::Placeholder(PlaceholderKind::<Seq<char>>::LocalEmpty);
    if scene.entries(key) != more {
        occurrences_of_sum(seq![head], more, entry);
        occurrences_of_none(entry);
        occurrences_of_push(seq![], head, entry);
        assert(Seq::<GroupEntry<Seq<char>>>::empty().push(head) == seq![head]);
    }
}

/// A session or task that is let through stands in the tree, under the project of its directory; a
/// project that only stands there for its directory is one that is followed.
pub proof fn projects_are_those_of_their_sessions(scene: Scene, key: Seq<char>)
    ensures
        scene.has_group(key) <==> {
            ||| (scene.filter is All || scene.filter is Remote) && scene.projects.contains(key)
            ||| exists|place: int| #[trigger] belongs(scene, key, place)
            ||| exists|place: int| #[trigger] task_belongs(scene, key, place)
        },
{
    if scene.has_session(key) {
        let i = choose|i: int|
            0 <= i < scene.sessions.len() && is_under(
                #[trigger] scene.sessions[i],
                scene.filter,
                key,
            );
        assert(belongs(scene, key, i));
    }
    if scene.has_task(key) {
        let i = choose|i: int|
            0 <= i < scene.remote.len() && is_task_under(
                #[trigger] scene.remote[i],
                scene.filter,
                key,
            );
        assert(task_belongs(scene, key, i));
    }
    if exists|place: int| #[trigger] belongs(scene, key, place) {
        let i = choose|place: int| #[trigger] belongs(scene, key, place);
        assert(is_under(scene.sessions[i], scene.filter, key));
    }
    if exists|place: int| #[trigger] task_belongs(scene, key, place) {
        let i = choose|place: int| #[trigger] task_belongs(scene, key, place);
        assert(is_task_under(scene.remote[i], scene.filter, key));
    }
}

/// Where all sessions are shown, a project says that it has no local session exactly where none of
/// them lies in its directory. A project that is followed says once that its tasks could not be
/// listed, or under `Remote` that there are none, exactly where nothing remote stands under it.
pub proof fn placeholders_stand_for_what_is_missing(
    scene: Scene,
    key: Seq<char>,
    error: Seq<char>,
)
    requires
        scene.sessions.len() <= usize::MAX,
        scene.remote.len() <= usize::MAX,
    ensures
        ({
            let entries = scene.group(key).entries;
            let nothing_local = forall|place: int|
                #[trigger] belongs(scene, key, place) ==> scene.sessions[place].is_remote;
            let nothing_remote = (forall|place: int|
                #[trigger] belongs(scene, key, place) ==> !scene.sessions[place].is_remote) && (
            forall|place: int| !#[trigger] task_belongs(scene, key, place));
            let followed = (scene.filter is All || scene.filter is Remote)
                && scene.projects.contains(key);
            &&& occurrences(entries, GroupEntry::Placeholder(PlaceholderKind::LocalEmpty))
                == if scene.filter is All && nothing_local {
                1nat
            } else {
                0
            }
            &&& occurrences(entries, GroupEntry::Placeholder(PlaceholderKind::RemoteError(error)))
                == if followed && nothing_remote && scene.remote_state == RemoteLoadState::Failed(
                error,
            ) {
                1nat
            } else {
                0
            }
            &&& occurrences(entries, GroupEntry::Placeholder(PlaceholderKind::RemoteEmpty))
                == if followed && nothing_remote && scene.filter is Remote
                && scene.remote_state is Empty {
                1nat
            } else {
                0
            }
            &&& occurrences(entries, GroupEntry::Placeholder(PlaceholderKind::RemoteLoading)) == 0
        }),
{
    let own = scene.real_entries(key);
    let more = scene.remote_entries(key);
    let local = GroupEntry::Placeholder(PlaceholderKind::<Seq<char>>::LocalEmpty);
    let failed = GroupEntry::Placeholder(PlaceholderKind::RemoteError(error));
    let empty = GroupEntry::Placeholder(PlaceholderKind::<Seq<char>>::RemoteEmpty);
    let loading = GroupEntry::Placeholder(PlaceholderKind::<Seq<char>>::RemoteLoading);
    real_entries_occur(scene, key, 0, PlaceholderKind::LocalEmpty);
    real_entries_occur(scene, key, 0, PlaceholderKind::RemoteError(error));
    real_entries_occur(scene, key, 0, PlaceholderKind::RemoteEmpty);
    real_entries_occur(scene, key, 0, PlaceholderKind::RemoteLoading);
    parts_of_real_entries(scene, key);
    if more != own {
        occurrences_of_push(own, more.last(), local);
        occurrences_of_push(own, more.last(), failed);
        occurrences_of_push(own, more.last(), empty);
        occurrences_of_push(own, more.last(), loading);
        assert(more == own.push(more.last()));
        assert(!more.last().is_local());
    }
    assert(has_local(more) == has_local(own)) by {
        if has_local(more) {
            let i = choose|i: int| 0 <= i < more.len() && (#[trigger] more[i]).is_local();
            assert(more[i] == own[i]);
        }
        if has_local(own) {
            let i = choose|i: int| 0 <= i < own.len() && (#[trigger] own[i]).is_local();
            assert(more[i] == own[i]);
        }
    }
    if scene.entries(key) != more {
        assert(Seq::<GroupEntry<Seq<char>>>::empty().push(local) == seq![local]);
        occurrences_of_sum(seq![local], more, local);
        occurrences_of_sum(seq![local], more, failed);
        occurrences_of_sum(seq![local], more, empty);
        occurrences_of_sum(seq![local], more, loading);
        occurrences_of_none(local);
        occurrences_of_none(failed);
        occurrences_of_none(empty);
        occurrences_of_none(loading);
        occurrences_of_push(seq![], local, local);
        occurrences_of_push(seq![], local, failed);
        occurrences_of_push(seq![], local, empty);
        occurrences_of_push(seq![], local, loading);
    }
}

proof fn parts_of_real_entries(scene: Scene, key: Seq<char>)
    requires
        scene.sessions.len() <= usize::MAX,
        scene.remote.len() <= usize::MAX,
    ensures
        has_local(scene.real_entries(key)) <==> exists|place: int|
            #[trigger] belongs(scene, key, place) && !scene.sessions[place].is_remote,
        has_remote(scene.real_entries(key)) <==> {
            ||| exists|place: int|
                #[trigger] belongs(scene, key, place) && scene.sessions[place].is_remote
            ||| exists|place: int| #[trigger] task_belongs(scene, key, place)
        },
{
    let own = scene.real_entries(key);
    if has_local(own) {
        let i = choose|i: int| 0 <= i < own.len() && (#[trigger] own[i]).is_local();
        place_of_entry(scene, key, i);
    }
    if has_remote(own) {
        let i = choose|i: int| 0 <= i < own.len() && !(#[trigger] own[i]).is_local();
        place_of_entry(scene, key, i);
    }
    if exists|place: int|
        #[trigger] belongs(scene, key, place) && !scene.sessions[place].is_remote {
        let p = choose|place: int|
            #[trigger] belongs(scene, key, place) && !scene.sessions[place].is_remote;
        let entry = GroupEntry::<Seq<char>>::Local(p as usize);
        real_entries_occur(scene, key, p as usize, PlaceholderKind::LocalEmpty);
        some_occur(own, entry);
        let i = choose|i: int| 0 <= i < own.len() && own[i] == entry;
        assert(own[i].is_local());
    }
    if exists|place: int|
        #[trigger] belongs(scene, key, place) && scene.sessions[place].is_remote {
        let p = choose|place: int|
            #[trigger] belongs(scene, key, place) && scene.sessions[place].is_remote;
        let entry = GroupEntry::<Seq<char>>::RemoteLocal(p as usize);
        real_entries_occur(scene, key, p as usize, PlaceholderKind::LocalEmpty);
        some_occur(own, entry);
        let i = choose|i: int| 0 <= i < own.len() && own[i] == entry;
        assert(!own[i].is_local());
    }
    if exists|place: int| #[trigger] task_belongs(scene, key, place) {
        let p = choose|place: int| #[trigger] task_belongs(scene, key, place);
        let entry = GroupEntry::<Seq<char>>::Remote(p as usize);
        real_entries_occur(scene, key, p as usize, PlaceholderKind::LocalEmpty);
        some_occur(own, entry);
        let i = choose|i: int| 0 <= i < own.len() && own[i] == entry;
        assert(!own[i].is_local());
    }
}

proof fn place_of_entry(scene: Scene, key: Seq<char>, i: int)
    requires
        scene.sessions.len() <= usize::MAX,
        scene.remote.len() <= usize::MAX,
        0 <= i < scene.real_entries(key).len(),
    ensures
        match scene.real_entries(key)[i] {
            GroupEntry::Local(p) => belongs(scene, key, p as int)
                && !scene.sessions[p as int].is_remote,
            GroupEntry::RemoteLocal(p) => belongs(scene, key, p as int)
                && scene.sessions[p as int].is_remote,
            GroupEntry::Remote(p) => task_belongs(scene, key, p as int),
            GroupEntry::Placeholder(_) => false,
        },
{
    let own = scene.real_entries(key);
    let entry = own[i];
    assert(own.contains(entry));
    some_occur(own, entry);
    match entry {
        GroupEntry::Local(p) => real_entries_occur(scene, key, p, PlaceholderKind::LocalEmpty),
        GroupEntry::RemoteLocal(p) => real_entries_occur(
            scene,
            key,
            p,
            PlaceholderKind::LocalEmpty,
        ),
        GroupEntry::Remote(p) => real_entries_occur(scene, key, p, PlaceholderKind::LocalEmpty),
        GroupEntry::Placeholder(kind) => real_entries_occur(scene, key, 0, kind),
    }
}

/// A project counts what stands under it: by what each session and task is doing, and by whether it
/// is remote.
pub proof fn counts_are_those_of_what_stands_under_it(scene: Scene, key: Seq<char>)
    ensures
        scene.group(key).counts.waiting == scene.sessions.filter(
            |s: ManagedSession<Seq<char>>|
                s.project_dir == key && lets_through(scene.filter, s.status, s.is_remote) && s.status is Waiting,
        ).len() + scene.remote.filter(
            |t: RemoteSession<Seq<char>>|
                t.project_dir == key && lets_through(scene.filter, t.status, true) && t.status is Waiting,
        ).len(),
        scene.group(key).counts.done == scene.sessions.filter(
            |s: ManagedSession<Seq<char>>|
                s.project_dir == key && lets_through(scene.filter, s.status, s.is_remote) && s.status is Done,
        ).len() + scene.remote.filter(
            |t: RemoteSession<Seq<char>>|
                t.project_dir == key && lets_through(scene.filter, t.status, true) && t.status is Done,
        ).len(),
        scene.group(key).counts.busy == scene.sessions.filter(
            |s: ManagedSession<Seq<char>>|
                s.project_dir == key && lets_through(scene.filter, s.status, s.is_remote) && s.status is Busy,
        ).len() + scene.remote.filter(
            |t: RemoteSession<Seq<char>>|
                t.project_dir == key && lets_through(scene.filter, t.status, true) && t.status is Busy,
        ).len(),
        scene.group(key).counts.idle == scene.sessions.filter(
            |s: ManagedSession<Seq<char>>|
                s.project_dir == key && lets_through(scene.filter, s.status, s.is_remote) && s.status is Idle,
        ).len() + scene.remote.filter(
            |t: RemoteSession<Seq<char>>|
                t.project_dir == key && lets_through(scene.filter, t.status, true) && t.status is Idle,
        ).len(),
        scene.group(key).counts.remote == scene.sessions.filter(
            |s: ManagedSession<Seq<char>>|
                s.project_dir == key && lets_through(scene.filter, s.status, s.is_remote) && s.is_remote,
        ).len() + scene.remote.filter(
            |t: RemoteSession<Seq<char>>|
                t.project_dir == key && lets_through(scene.filter, t.status, true) && true,
        ).len(),
        scene.group(key).counts.local == scene.sessions.filter(
            |s: ManagedSession<Seq<char>>|
                s.project_dir == key && lets_through(scene.filter, s.status, s.is_remote)
                    && !s.is_remote,
        ).len(),
{
    session_counts_are_filters(scene.sessions, scene.filter, key);
    task_counts_are_filters(
        session_counts(scene.sessions, scene.filter, key),
        scene.remote,
        scene.filter,
        key,
    );
}

proof fn session_counts_are_filters(
    sessions: Seq<ManagedSession<Seq<char>>>,
    filter: SessionFilter,
    key: Seq<char>,
)
    ensures
        session_counts(sessions, filter, key).waiting == sessions.filter(
            |s: ManagedSession<Seq<char>>|
                s.project_dir == key && lets_through(filter, s.status, s.is_remote) && s.status is Waiting,
        ).len(),
        session_counts(sessions, filter, key).done == sessions.filter(
            |s: ManagedSession<Seq<char>>|
                s.project_dir == key && lets_through(filter, s.status, s.is_remote) && s.status is Done,
        ).len(),
        session_counts(sessions, filter, key).busy == sessions.filter(
            |s: ManagedSession<Seq<char>>|
                s.project_dir == key && lets_through(filter, s.status, s.is_remote) && s.status is Busy,
        ).len(),
        session_counts(sessions, filter, key).idle == sessions.filter(
            |s: ManagedSession<Seq<char>>|
                s.project_dir == key && lets_through(filter, s.status, s.is_remote) && s.status is Idle,
        ).len(),
        session_counts(sessions, filter, key).remote == sessions.filter(
            |s: ManagedSession<Seq<char>>|
                s.project_dir == key && lets_through(filter, s.status, s.is_remote) && s.is_remote,
        ).len(),
        session_counts(sessions, filter, key).local == sessions.filter(
            |s: ManagedSession<Seq<char>>|
                s.project_dir == key && lets_through(filter, s.status, s.is_remote) && !s.is_remote,
        ).len(),
    decreases sessions.len(),
{
    reveal(Seq::filter);
    if sessions.len() > 0 {
        session_counts_are_filters(sessions.drop_last(), filter, key);
    }
}

proof fn task_counts_are_filters(
    counts: StatusCounts<nat>,
    remote: Seq<RemoteSession<Seq<char>>>,
    filter: SessionFilter,
    key: Seq<char>,
)
    ensures
        task_counts(counts, remote, filter, key).waiting == counts.waiting + remote.filter(
            |t: RemoteSession<Seq<char>>|
                t.project_dir == key && lets_through(filter, t.status, true) && t.status is Waiting,
        ).len(),
        task_counts(counts, remote, filter, key).done == counts.done + remote.filter(
            |t: RemoteSession<Seq<char>>|
                t.project_dir == key && lets_through(filter, t.status, true) && t.status is Done,
        ).len(),
        task_counts(counts, remote, filter, key).busy == counts.busy + remote.filter(
            |t: RemoteSession<Seq<char>>|
                t.project_dir == key && lets_through(filter, t.status, true) && t.status is Busy,
        ).len(),
        task_counts(counts, remote, filter, key).idle == counts.idle + remote.filter(
            |t: RemoteSession<Seq<char>>|
                t.project_dir == key && lets_through(filter, t.status, true) && t.status is Idle,
        ).len(),
        task_counts(counts, remote, filter, key).remote == counts.remote + remote.filter(
            |t: RemoteSession<Seq<char>>|
                t.project_dir == key && lets_through(filter, t.status, true) && true,
        ).len(),
        task_counts(counts, remote, filter, key).local == counts.local,
    decreases remote.len(),
{
    reveal(Seq::filter);
    if remote.len() > 0 {
        task_counts_are_filters(counts, remote.drop_last(), filter, key);
    }
}

/// A project was last active when the last of what stands under it was, in milliseconds: nothing
/// under it was active later, and something was active then. It is not known where none is.
pub proof fn last_activity_is_that_of_the_last_active(scene: Scene, key: Seq<char>)
    ensures
        ({
            let last = scene.group(key).last_activity;
            &&& forall|place: int| #[trigger]
                belongs(scene, key, place) && scene.sessions[place].last_activity is Some
                    ==> last is Some && scene.sessions[place].last_activity->0 / 1_000_000
                    <= last->0
            &&& forall|place: int| #[trigger]
                task_belongs(scene, key, place) && task_activity(
                    scene.remote[place].updated_at,
                ) is Some ==> last is Some && task_activity(scene.remote[place].updated_at)->0
                    <= last->0
            &&& last is Some ==> {
                ||| exists|place: int| #[trigger]
                    belongs(scene, key, place) && scene.sessions[place].last_activity is Some
                        && scene.sessions[place].last_activity->0 / 1_000_000 == last->0
                ||| exists|place: int| #[trigger]
                    task_belongs(scene, key, place) && task_activity(
                        scene.remote[place].updated_at,
                    ) == last
            }
        }),
{
    let middle = session_activity(scene.sessions, scene.filter, key);
    assert(scene.sessions.take(scene.sessions.len() as int) == scene.sessions);
    assert(scene.remote.take(scene.remote.len() as int) == scene.remote);
    session_activity_is_last(scene, scene.sessions, key);
    task_activity_is_last(scene, middle, scene.remote, key);
}

proof fn session_activity_is_last(
    scene: Scene,
    sessions: Seq<ManagedSession<Seq<char>>>,
    key: Seq<char>,
)
    requires
        sessions.len() <= scene.sessions.len(),
        sessions == scene.sessions.take(sessions.len() as int),
    ensures
        ({
            let last = session_activity(sessions, scene.filter, key);
            &&& forall|place: int| #[trigger]
                belongs(scene, key, place) && place < sessions.len()
                    && scene.sessions[place].last_activity is Some ==> last is Some
                    && scene.sessions[place].last_activity->0 / 1_000_000 <= last->0
            &&& last is Some ==> exists|place: int| #[trigger]
                belongs(scene, key, place) && place < sessions.len()
                    && scene.sessions[place].last_activity is Some
                    && scene.sessions[place].last_activity->0 / 1_000_000 == last->0
        }),
    decreases sessions.len(),
{
    if sessions.len() > 0 {
        let rest = sessions.drop_last();
        assert(rest == scene.sessions.take(rest.len() as int));
        session_activity_is_last(scene, rest, key);
        let n = sessions.len() - 1;
        assert(sessions.last() == scene.sessions[n]);
        let before = session_activity(rest, scene.filter, key);
        let last = session_activity(sessions, scene.filter, key);
        assert(belongs(scene, key, n) == is_under(sessions.last(), scene.filter, key));
        if last is Some && last == before {
            let p = choose|place: int| #[trigger]
                belongs(scene, key, place) && place < rest.len()
                    && scene.sessions[place].last_activity is Some
                    && scene.sessions[place].last_activity->0 / 1_000_000 == last->0;
            assert(belongs(scene, key, p));
        }
        assert forall|place: int| #[trigger]
            belongs(scene, key, place) && place < sessions.len()
                && scene.sessions[place].last_activity is Some implies last is Some
            && scene.sessions[place].last_activity->0 / 1_000_000 <= last->0 by {
            if place < n {
                assert(belongs(scene, key, place) && place < rest.len());
            }
        }
    }
}

proof fn task_activity_is_last(
    scene: Scene,
    activity: Option<u128>,
    remote: Seq<RemoteSession<Seq<char>>>,
    key: Seq<char>,
)
    requires
        remote.len() <= scene.remote.len(),
        remote == scene.remote.take(remote.len() as int),
    ensures
        ({
            let last = task_activities(activity, remote, scene.filter, key);
            &&& activity is Some ==> last is Some && activity->0 <= last->0
            &&& forall|place: int| #[trigger]
                task_belongs(scene, key, place) && place < remote.len() && task_activity(
                    scene.remote[place].updated_at,
                ) is Some ==> last is Some && task_activity(scene.remote[place].updated_at)->0
                    <= last->0
            &&& last is Some && last != activity ==> exists|place: int| #[trigger]
                task_belongs(scene, key, place) && place < remote.len() && task_activity(
                    scene.remote[place].updated_at,
                ) == last
        }),
    decreases remote.len(),
{
    if remote.len() > 0 {
        let rest = remote.drop_last();
        assert(rest == scene.remote.take(rest.len() as int));
        task_activity_is_last(scene, activity, rest, key);
        let n = remote.len() - 1;
        assert(remote.last() == scene.remote[n]);
        let before = task_activities(activity, rest, scene.filter, key);
        let last = task_activities(activity, remote, scene.filter, key);
        assert(task_belongs(scene, key, n) == is_task_under(remote.last(), scene.filter, key));
        if last is Some && last == before && last != activity {
            let p = choose|place: int| #[trigger]
                task_belongs(scene, key, place) && place < rest.len() && task_activity(
                    scene.remote[place].updated_at,
                ) == last;
            assert(task_belongs(scene, key, p));
        }
        assert forall|place: int| #[trigger]
            task_belongs(scene, key, place) && place < remote.len() && task_activity(
                scene.remote[place].updated_at,
            ) is Some implies last is Some && task_activity(scene.remote[place].updated_at)->0
            <= last->0 by {
            if place < n {
                assert(task_belongs(scene, key, place) && place < rest.len());
            }
        }
    }
}

/// A project rings where a session under it does. It is the current one where a session under it
/// says so, or where it lies at the current directory and is followed or has no session shown. Its
/// tasks are being listed where it is followed and the list is not there yet. It is called by its
/// label, or by its directory where it has none.
pub proof fn project_tells_of_its_sessions(scene: Scene, key: Seq<char>)
    ensures
        ({
            let group = scene.group(key);
            let followed = (scene.filter is All || scene.filter is Remote)
                && scene.projects.contains(key);
            &&& group.key == key && group.path == key
            &&& group.has_bell <==> exists|place: int| #[trigger]
                belongs(scene, key, place) && scene.sessions[place].has_bell
            &&& group.is_current <==> {
                ||| exists|place: int| #[trigger]
                    belongs(scene, key, place) && scene.sessions[place].is_current_project
                ||| key == scene.current && (followed || forall|place: int|
                    !#[trigger] belongs(scene, key, place))
            }
            &&& group.remote_loading <==> followed && (scene.remote_state is NotStarted
                || scene.remote_state is Loading)
            &&& scene.labels.contains_key(key) ==> group.display_name == scene.labels[key]
            &&& !scene.labels.contains_key(key) ==> group.display_name == directory_label(key)
        }),
{
    assert forall|place: int| #[trigger] belongs(scene, key, place) implies is_under(
        scene.sessions[place],
        scene.filter,
        key,
    ) by {}
    assert forall|i: int|
        0 <= i < scene.sessions.len() && is_under(
            #[trigger] scene.sessions[i],
            scene.filter,
            key,
        ) implies belongs(scene, key, i) by {}
}

/// The projects of a tree differ. They come by their last activity, the latest first and those
/// without any at the end; of those level in that the current one first, then by name.
pub proof fn projects_come_by_activity(groups: Seq<GroupView>, scene: Scene, i: int, j: int)
    requires
        is_tree(groups, scene),
        0 <= i < j < groups.len(),
    ensures
        groups[i].key != groups[j].key,
        groups[j].last_activity is Some ==> groups[i].last_activity is Some
            && groups[i].last_activity->0 >= groups[j].last_activity->0,
        groups[i].last_activity == groups[j].last_activity && groups[j].is_current
            ==> groups[i].is_current,
        groups[i].last_activity == groups[j].last_activity && groups[i].is_current
            == groups[j].is_current ==> !text_less(groups[j].display_name, groups[i].display_name),
{
    assert(group_before(groups[i], groups[j]));
    text_less_is_asymmetric(groups[i].display_name, groups[j].display_name);
    text_less_is_asymmetric(groups[i].key, groups[j].key);
    assert(groups[i] == scene.group(groups[i].key));
    assert(groups[j] == scene.group(groups[j].key));
    group_before_is_asymmetric(groups[i], groups[j]);
}

/// The place of an entry among sessions first and tasks then.
pub open spec fn entry_place(entry: GroupEntry<Seq<char>>) -> (int, int) {
    match entry {
        GroupEntry::Local(p) => (0, p as int),
        GroupEntry::RemoteLocal(p) => (0, p as int),
        GroupEntry::Remote(p) => (1, p as int),
        GroupEntry::Placeholder(PlaceholderKind::LocalEmpty) => (-1, 0),
        GroupEntry::Placeholder(_) => (2, 0),
    }
}

/// Under a project the sessions come in the order of their list, then the tasks in the order of
/// theirs. A word on missing local sessions comes first, one on missing tasks last.
pub proof fn entries_keep_the_order_of_the_lists(scene: Scene, key: Seq<char>, i: int, j: int)
    requires
        scene.sessions.len() <= usize::MAX,
        scene.remote.len() <= usize::MAX,
        0 <= i < j < scene.group(key).entries.len(),
    ensures
        ({
            let (a, x) = entry_place(scene.group(key).entries[i]);
            let (b, y) = entry_place(scene.group(key).entries[j]);
            a < b || (a == b && x < y)
        }),
{
    let own = scene.real_entries(key);
    let first = session_entries(scene.sessions, scene.filter, key);
    let then = task_entries(scene.remote, scene.filter, key);
    session_entries_ascend(scene.sessions, scene.filter, key);
    task_entries_ascend(scene.remote, scene.filter, key);
    let more = scene.remote_entries(key);
    assert forall|k: int, l: int| 0 <= k < l < more.len() implies ({
        let (a, x) = entry_place(#[trigger] more[k]);
        let (b, y) = entry_place(#[trigger] more[l]);
        (a < b || (a == b && x < y)) && 0 <= a
    }) by {
        if l < own.len() {
            assert(more[k] == own[k] && more[l] == own[l]);
            if l < first.len() {
                assert(own[k] == first[k] && own[l] == first[l]);
            } else if k < first.len() {
                assert(own[k] == first[k] && own[l] == then[l - first.len()]);
            } else {
                assert(own[k] == then[k - first.len()] && own[l] == then[l - first.len()]);
            }
        } else {
            assert(more[k] == own[k]);
            if k < first.len() {
                assert(own[k] == first[k]);
            } else {
                assert(own[k] == then[k - first.len()]);
            }
        }
    }
    let all = scene.entries(key);
    if all == more {
        assert(all[i] == more[i] && all[j] == more[j]);
    } else {
        assert(all[j] == more[j - 1]);
        if i > 0 {
            assert(all[i] == more[i - 1]);
        } else {
            let l = j - 1;
            if l < own.len() {
                assert(more[l] == own[l]);
                if l < first.len() {
                    assert(own[l] == first[l]);
                } else {
                    assert(own[l] == then[l - first.len()]);
                }
            }
        }
    }
}

proof fn session_entries_ascend(
    sessions: Seq<ManagedSession<Seq<char>>>,
    filter: SessionFilter,
    key: Seq<char>,
)
    requires
        sessions.len() <= usize::MAX,
    ensures
        ({
            let entries = session_entries(sessions, filter, key);
            &&& forall|k: int| 0 <= k < entries.len() ==> entry_place(#[trigger] entries[k]).0 == 0
                && 0 <= entry_place(entries[k]).1 < sessions.len()
            &&& forall|k: int, l: int| 0 <= k < l < entries.len() ==> entry_place(
                #[trigger] entries[k],
            ).1 < entry_place(#[trigger] entries[l]).1
        }),
    decreases sessions.len(),
{
    if sessions.len() > 0 {
        session_entries_ascend(sessions.drop_last(), filter, key);
        let rest = session_entries(sessions.drop_last(), filter, key);
        let entries = session_entries(sessions, filter, key);
        assert forall|k: int| 0 <= k < entries.len() implies entry_place(#[trigger] entries[k]).0
            == entry_place(entries.last()).0 && 0 <= entry_place(entries[k]).1 < sessions.len() by {
            if k < rest.len() {
                assert(entries[k] == rest[k]);
            }
        }
        assert forall|k: int, l: int| 0 <= k < l < entries.len() implies entry_place(
            #[trigger] entries[k],
        ).1 < entry_place(#[trigger] entries[l]).1 by {
            assert(entries[k] == rest[k]);
            if l < rest.len() {
                assert(entries[l] == rest[l]);
            }
        }
    }
}

proof fn task_entries_ascend(
    remote: Seq<RemoteSession<Seq<char>>>,
    filter: SessionFilter,
    key: Seq<char>,
)
    requires
        remote.len() <= usize::MAX,
    ensures
        ({
            let entries = task_entries(remote, filter, key);
            &&& forall|k: int| 0 <= k < entries.len() ==> entry_place(#[trigger] entries[k]).0 == 1
                && 0 <= entry_place(entries[k]).1 < remote.len()
            &&& forall|k: int, l: int| 0 <= k < l < entries.len() ==> entry_place(
                #[trigger] entries[k],
            ).1 < entry_place(#[trigger] entries[l]).1
        }),
    decreases remote.len(),
{
    if remote.len() > 0 {
        task_entries_ascend(remote.drop_last(), filter, key);
        let rest = task_entries(remote.drop_last(), filter, key);
        let entries = task_entries(remote, filter, key);
        assert forall|k: int| 0 <= k < entries.len() implies entry_place(#[trigger] entries[k]).0
            == entry_place(entries.last()).0 && 0 <= entry_place(entries[k]).1 < remote.len() by {
            if k < rest.len() {
                assert(entries[k] == rest[k]);
            }
        }
        assert forall|k: int, l: int| 0 <= k < l < entries.len() implies entry_place(
            #[trigger] entries[k],
        ).1 < entry_place(#[trigger] entries[l]).1 by {
            assert(entries[k] == rest[k]);
            if l < rest.len() {
                assert(entries[l] == rest[l]);
            }
        }
    }
}

/// A filter by status is called by the word for the status that it shows, and shows no other. From
/// `All` the filters by status follow in the order of the list, then `Remote`.
pub proof fn filters_are_called_after_what_they_show(filter: SessionFilter, status: SessionStatus)
    ensures
        filter.shows_local(status) == lets_through(filter, status, false),
        filter.shows_remote(status) == lets_through(filter, status, true),
        !(filter is All) && !(filter is Remote) ==> (filter.shows_local(status) <==> lowered(
            filter.name(),
        ) == status_label(status)),
        !(filter is All) && !(filter is Remote) && filter.shows_local(status)
            ==> if status_rank(status) < 3 {
            forall|other: SessionStatus| #[trigger]
                filter.following().shows_local(other) <==> status_rank(other) == status_rank(status)
                    + 1
        } else {
            filter.following() is Remote
        },
        filter is All ==> filter.following().shows_local(SessionStatus::Waiting)
            && !(filter.following() is All),
        filter is All ==> filter.name() == "All"@,
        filter is Remote ==> filter.name() == "Remote"@,
{
    reveal_strlit("Waiting");
    reveal_strlit("Done");
    reveal_strlit("Busy");
    reveal_strlit("Idle");
    reveal_strlit("waiting");
    reveal_strlit("done");
    reveal_strlit("busy");
    reveal_strlit("idle");
    let small = lowered(filter.name());
    match filter {
        SessionFilter::Waiting => assert(small =~= "waiting"@),
        SessionFilter::Done => assert(small =~= "done"@),
        SessionFilter::Busy => assert(small =~= "busy"@),
        SessionFilter::Idle => assert(small =~= "idle"@),
        _ => {},
    }
    label_names_its_status(status);
    assert("waiting"@[0] == 'w' && "done"@[0] == 'd' && "busy"@[0] == 'b' && "idle"@[0] == 'i');
}

// ---------------------------------------------------------------------------
// What the rows show
// ---------------------------------------------------------------------------
/// The entry stands directly under its project: a session that is not remote, or the word on there
/// being none.
pub open spec fn is_direct(entry: GroupEntry<Seq<char>>) -> bool {
    entry is Local || entry == GroupEntry::Placeholder(PlaceholderKind::<Seq<char>>::LocalEmpty)
}

/// The row shows the entry of the project at a place, and tells whether it is the last of its part
/// and whether it stands in the remote part.
pub open spec fn row_shows(
    row: TreeRow<Seq<char>>,
    entry: GroupEntry<Seq<char>>,
    group: int,
    last: bool,
    inner: bool,
) -> bool {
    match row {
        TreeRow::LocalSession { group_index, session_index, is_last, is_remote, under_remote } => {
            &&& group_index == group
            &&& is_last == last
            &&& under_remote == inner
            &&& is_remote ==> entry == GroupEntry::<Seq<char>>::RemoteLocal(session_index)
            &&& !is_remote ==> entry == GroupEntry::<Seq<char>>::Local(session_index)
        },
        TreeRow::RemoteSession { group_index, remote_index, is_last, under_remote } => {
            &&& group_index == group
            &&& is_last == last
            &&& under_remote == inner
            &&& entry == GroupEntry::<Seq<char>>::Remote(remote_index)
        },
        TreeRow::Placeholder { group_index, kind, is_last, under_remote } => {
            &&& group_index == group
            &&& is_last == last
            &&& under_remote == inner
            &&& entry == GroupEntry::Placeholder(kind)
        },
        _ => false,
    }
}

proof fn parts_are_filters(entries: Seq<GroupEntry<Seq<char>>>)
    ensures
        local_part(entries) == entries.filter(|entry: GroupEntry<Seq<char>>| is_direct(entry)),
        remote_part(entries) == entries.filter(|entry: GroupEntry<Seq<char>>| !is_direct(entry)),
    decreases entries.len(),
{
    reveal(Seq::filter);
    if entries.len() > 0 {
        parts_are_filters(entries.drop_last());
    }
}

/// A project has a row of its own. Where it is folded there is no other. Else its direct entries
/// follow, each in a row of its own, in order; then the remote ones, likewise. Unless only remote
/// ones are shown, these stand in a part with a row of its own, which can be folded too. The last
/// row of each part is marked.
pub proof fn rows_of_a_project(
    group: GroupView,
    place: usize,
    collapsed: Set<Seq<char>>,
    filter: SessionFilter,
)
    ensures
        ({
            let rows = group_rows(group, place, collapsed, filter);
            let direct = group.entries.filter(|entry: GroupEntry<Seq<char>>| is_direct(entry));
            let other = group.entries.filter(|entry: GroupEntry<Seq<char>>| !is_direct(entry));
            let n = direct.len() as int;
            let m = other.len() as int;
            let parted = m > 0 && !(filter is Remote);
            let folded = collapsed.contains(group.key + "::remote"@);
            &&& rows.len() > 0 && rows[0] == (TreeRow::<Seq<char>>::Group { group_index: place })
            &&& collapsed.contains(group.key) ==> rows.len() == 1
            &&& !collapsed.contains(group.key) ==> {
                &&& rows.len() == 1 + n + if parted {
                    1 + if folded {
                        0
                    } else {
                        m
                    }
                } else {
                    m
                }
                &&& forall|i: int| 0 <= i < n ==> row_shows(
                    #[trigger] rows[1 + i],
                    direct[i],
                    place as int,
                    i == n - 1 && !parted,
                    false,
                )
                &&& parted ==> rows[1 + n] == (TreeRow::<Seq<char>>::RemoteGroup {
                    group_index: place,
                    is_last: true,
                })
                &&& parted && !folded ==> forall|i: int| 0 <= i < m ==> row_shows(
                    #[trigger] rows[2 + n + i],
                    other[i],
                    place as int,
                    i == m - 1,
                    true,
                )
                &&& !parted ==> forall|i: int| 0 <= i < m ==> row_shows(
                    #[trigger] rows[1 + n + i],
                    other[i],
                    place as int,
                    i == m - 1,
                    false,
                )
            }
        }),
{
    parts_are_filters(group.entries);
}

/// The rows of the projects come one project after the other, and those of a project are its own.
pub proof fn rows_belong_to_their_projects(
    groups: Seq<GroupView>,
    collapsed: Set<Seq<char>>,
    filter: SessionFilter,
    place: int,
)
    requires
        0 <= place < groups.len(),
        groups.len() <= usize::MAX,
    ensures
        rows_of(groups, collapsed, filter).filter(
            |row: TreeRow<Seq<char>>| row.group_place() == place,
        ) == group_rows(groups[place], place as usize, collapsed, filter),
        forall|i: int, j: int|
            0 <= i <= j < rows_of(groups, collapsed, filter).len() ==> (#[trigger] rows_of(
                groups,
                collapsed,
                filter,
            )[i]).group_place() <= (#[trigger] rows_of(groups, collapsed, filter)[j]).group_place()
                < groups.len(),
    decreases groups.len(),
{
    let of = |row: TreeRow<Seq<char>>| row.group_place() == place;
    let rest = groups.drop_last();
    let n = (groups.len() - 1) as usize;
    let early = rows_of(rest, collapsed, filter);
    let late = group_rows(groups.last(), n, collapsed, filter);
    let all = rows_of(groups, collapsed, filter);
    own_rows(groups.last(), n, collapsed, filter);
    Seq::filter_distributes_over_add(early, late, of);
    if rest.len() > 0 {
        rows_belong_to_their_projects(
            rest,
            collapsed,
            filter,
            if place < rest.len() {
                place
            } else {
                0
            },
        );
    }
    assert forall|i: int| 0 <= i < early.len() implies (#[trigger] early[i]).group_place()
        < rest.len() by {
        assert(early[i].group_place() <= early[i].group_place());
    }
    if place < n {
        late.lemma_all_neg_filter_empty(of);
        assert(early.filter(of) + late.filter(of) == early.filter(of));
    } else {
        early.lemma_all_neg_filter_empty(of);
        kept_whole(late, of);
        assert(early.filter(of) + late.filter(of) == late);
    }
    assert forall|i: int, j: int| 0 <= i <= j < all.len() implies (
    #[trigger] all[i]).group_place() <= (#[trigger] all[j]).group_place() < groups.len() by {
        if j < early.len() {
            assert(all[i] == early[i] && all[j] == early[j]);
        } else {
            assert(all[j] == late[j - early.len()]);
            if i < early.len() {
                assert(all[i] == early[i]);
            } else {
                assert(all[i] == late[i - early.len()]);
            }
        }
    }
}

proof fn own_rows(
    group: GroupView,
    place: usize,
    collapsed: Set<Seq<char>>,
    filter: SessionFilter,
)
    ensures
        forall|i: int|
            0 <= i < group_rows(group, place, collapsed, filter).len() ==> (#[trigger] group_rows(
                group,
                place,
                collapsed,
                filter,
            )[i]).group_place() == place,
{
}

proof fn kept_whole<V>(values: Seq<V>, pred: spec_fn(V) -> bool)
    requires
        forall|i: int| 0 <= i < values.len() ==> pred(#[trigger] values[i]),
    ensures
        values.filter(pred) == values,
    decreases values.len(),
{
    reveal(Seq::filter);
    if values.len() > 0 {
        let rest = values.drop_last();
        assert forall|i: int| 0 <= i < rest.len() implies pred(#[trigger] rest[i]) by {
            assert(rest[i] == values[i]);
        }
        kept_whole(rest, pred);
        assert(pred(values[values.len() - 1]));
        assert(rest.push(values.last()) == values);
    }
}

} // verus!
