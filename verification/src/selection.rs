//! What every key keeps: the selection is on a row that is there.
use crate::app::{
    cache_updates, cache_without, cached_in, group_row_place, is_under_remote, names_in,
    outcome_text, remote_row_place, tasks_outside, tasks_within, unlabelled, AppView, EffectView,
    InputMode, Outcome, HELP_LINES,
};
use crate::groups::{
    each_group_has_a_row, entry_rows, group_rows, has_subtree, local_part, remote_key, remote_part,
    remote_rows, rows_of, GroupView, PlaceholderKind, SessionFilter, TreeRow,
};
use crate::keys::Key;
use crate::projects::{completed, lists, list_is_determined, ordered, Completion};
use crate::remote::{RemoteLoadState, RemoteSession};
use crate::store::CachedRemoteSession;
use crate::text::trim;
use crate::tmux::ManagedSession;
use vstd::prelude::*;

verus! {

impl AppView {
    /// The selection is on a row that is there, or on the first where there is none.
    pub open spec fn is_settled(self) -> bool {
        self.selected_row < self.rows().len() || (self.rows().len() == 0 && self.selected_row == 0)
    }
}

/// What the search for the row of a project finds.
proof fn group_row_is_found(rows: Seq<TreeRow<Seq<char>>>, place: usize)
    ensures
        0 <= group_row_place(rows, place) <= rows.len(),
        rows.contains(TreeRow::Group { group_index: place }) ==> group_row_place(rows, place)
            < rows.len(),
    decreases rows.len(),
{
    if rows.len() > 0 && !(rows[0] is Group && rows[0].group_place() == place) {
        let row = TreeRow::<Seq<char>>::Group { group_index: place };
        group_row_is_found(rows.skip(1), place);
        if rows.contains(row) {
            let i = choose|i: int| 0 <= i < rows.len() && rows[i] == row;
            assert(rows.skip(1)[i - 1] == row);
        }
    }
}

/// What the search for the row of the remote part of a project finds.
proof fn remote_row_is_found(rows: Seq<TreeRow<Seq<char>>>, place: usize)
    ensures
        0 <= remote_row_place(rows, place) <= rows.len(),
        rows.contains(TreeRow::RemoteGroup { group_index: place, is_last: true })
            ==> remote_row_place(rows, place) < rows.len(),
    decreases rows.len(),
{
    if rows.len() > 0 && !(rows[0] is RemoteGroup && rows[0].group_place() == place) {
        let row = TreeRow::<Seq<char>>::RemoteGroup { group_index: place, is_last: true };
        remote_row_is_found(rows.skip(1), place);
        if rows.contains(row) {
            let i = choose|i: int| 0 <= i < rows.len() && rows[i] == row;
            assert(rows.skip(1)[i - 1] == row);
        }
    }
}

/// An unfolded project whose remote sessions stand apart has a row for them.
pub proof fn remote_part_has_a_row(
    groups: Seq<GroupView>,
    collapsed: Set<Seq<char>>,
    filter: SessionFilter,
    place: int,
)
    requires
        0 <= place < groups.len() <= usize::MAX,
        !collapsed.contains(groups[place].key),
        has_subtree(groups[place], filter),
    ensures
        rows_of(groups, collapsed, filter).contains(
            TreeRow::RemoteGroup { group_index: place as usize, is_last: true },
        ),
    decreases groups.len(),
{
    let row = TreeRow::<Seq<char>>::RemoteGroup { group_index: place as usize, is_last: true };
    let rows = rows_of(groups, collapsed, filter);
    let early = rows_of(groups.drop_last(), collapsed, filter);
    if place == groups.len() - 1 {
        let group = groups.last();
        let local = entry_rows(local_part(group.entries), place as usize, false, false);
        let own = group_rows(group, place as usize, collapsed, filter);
        assert(remote_rows(group, place as usize, collapsed, filter)[0] == row);
        assert(own[1 + local.len() as int] == row);
        assert(rows[early.len() + 1 + local.len() as int] == row);
    } else {
        remote_part_has_a_row(groups.drop_last(), collapsed, filter, place);
        let i = choose|i: int| 0 <= i < early.len() && early[i] == row;
        assert(rows[i] == row);
    }
}

/// A row for the remote sessions of a project stands under an unfolded project that has some.
pub proof fn remote_row_has_its_part(
    groups: Seq<GroupView>,
    collapsed: Set<Seq<char>>,
    filter: SessionFilter,
    i: int,
)
    requires
        groups.len() <= usize::MAX,
        0 <= i < rows_of(groups, collapsed, filter).len(),
        rows_of(groups, collapsed, filter)[i] is RemoteGroup,
    ensures
        ({
            let place = rows_of(groups, collapsed, filter)[i].group_place();
            &&& place < groups.len()
            &&& !collapsed.contains(groups[place as int].key)
            &&& has_subtree(groups[place as int], filter)
        }),
    decreases groups.len(),
{
    let rows = rows_of(groups, collapsed, filter);
    let rest = groups.drop_last();
    let early = rows_of(rest, collapsed, filter);
    if i < early.len() {
        assert(rows[i] == early[i]);
        remote_row_has_its_part(rest, collapsed, filter, i);
        let place = rows[i].group_place();
        assert(rest[place as int] == groups[place as int]);
    } else {
        let group = groups.last();
        let place = (groups.len() - 1) as usize;
        let own = group_rows(group, place, collapsed, filter);
        let k = i - early.len();
        assert(rows[i] == own[k]);
        if !collapsed.contains(group.key) {
            let subtree = has_subtree(group, filter);
            let local = entry_rows(local_part(group.entries), place, !subtree, false);
            let remote = entry_rows(remote_part(group.entries), place, true, subtree);
            if k > 0 && k < 1 + local.len() {
                assert(own[k] == local[k - 1]);
            } else if k >= 1 + local.len() {
                assert(own[k] == remote_rows(group, place, collapsed, filter)[k - 1 - local.len()]);
                if !subtree {
                    assert(own[k] == remote[k - 1 - local.len()]);
                } else if k > 1 + local.len() {
                    assert(own[k] == remote[k - 2 - local.len()]);
                }
            }
        }
    }
}

/// The tree does not depend on what is folded or selected.
proof fn folding_keeps_the_tree(app: AppView, collapsed: Set<Seq<char>>)
    ensures
        (AppView { collapsed, ..app }).groups() == app.groups(),
        (AppView { collapsed, ..app }).rows() == rows_of(app.groups(), collapsed, app.filter),
{
    assert((AppView { collapsed, ..app }).scene() == app.scene());
}

proof fn selecting_keeps_the_rows(app: AppView, selected_row: usize)
    ensures
        (AppView { selected_row, ..app }).rows() == app.rows(),
{
    assert((AppView { selected_row, ..app }).scene() == app.scene());
}

/// Going to the row of a project settles the selection.
proof fn on_group_is_settled(app: AppView, place: usize)
    requires
        place < app.groups().len() <= usize::MAX,
        app.rows().len() <= usize::MAX,
    ensures
        app.on_group(place).is_settled(),
{
    each_group_has_a_row(app.groups(), app.collapsed, app.filter, place as int);
    group_row_is_found(app.rows(), place);
    selecting_keeps_the_rows(app, group_row_place(app.rows(), place) as usize);
}

proof fn on_remote_group_is_settled(app: AppView, place: usize)
    requires
        place < app.groups().len() <= usize::MAX,
        app.rows().len() <= usize::MAX,
        (!app.collapsed.contains(app.groups()[place as int].key) && has_subtree(
            app.groups()[place as int],
            app.filter,
        )) || app.is_settled(),
    ensures
        app.on_remote_group(place).is_settled(),
{
    remote_row_is_found(app.rows(), place);
    let found = remote_row_place(app.rows(), place);
    if !app.collapsed.contains(app.groups()[place as int].key) && has_subtree(
        app.groups()[place as int],
        app.filter,
    ) {
        remote_part_has_a_row(app.groups(), app.collapsed, app.filter, place as int);
    }
    if found < app.rows().len() {
        selecting_keeps_the_rows(app, found as usize);
    }
}

/// No key of the project is the key of its own remote part.
proof fn remote_key_differs(key: Seq<char>)
    ensures
        remote_key(key) != key,
{
    reveal_strlit("::remote");
    assert(remote_key(key).len() == key.len() + 8);
}

/// The numbers of rows and projects fit in a machine word, whatever is folded and filtered.
pub open spec fn rows_fit_in_memory(app: AppView) -> bool {
    forall|collapsed: Set<Seq<char>>, filter: SessionFilter|
        {
            let next = #[trigger] with_parts(app, collapsed, filter);
            next.groups().len() <= usize::MAX && next.rows().len() <= usize::MAX
        }
}

/// The state with other parts folded and another filter.
pub open spec fn with_parts(app: AppView, collapsed: Set<Seq<char>>, filter: SessionFilter) -> AppView {
    AppView { collapsed, filter, ..app }
}

proof fn fold_and_go(app: AppView, next: AppView, collapsed: Set<Seq<char>>)
    requires
        rows_fit_in_memory(app),
        next == (AppView { collapsed, ..app }),
    ensures
        next.groups() == app.groups(),
        next.groups().len() <= usize::MAX,
        next.rows().len() <= usize::MAX,
{
    folding_keeps_the_tree(app, collapsed);
    assert(with_parts(app, collapsed, app.filter) == next);
}

proof fn collapsing_is_settled(app: AppView)
    requires
        app.is_settled(),
        rows_fit_in_memory(app),
    ensures
        app.collapsing().is_settled(),
{
    match (app.row(), app.group()) {
        (Some(row), Some(group)) => {
            let place = row.group_place();
            fold_and_go(app, app, app.collapsed);
            if row is RemoteGroup && !app.collapsed.contains(remote_key(group.key)) {
                let next = app.folding(remote_key(group.key));
                fold_and_go(app, next, next.collapsed);
                remote_row_has_its_part(
                    app.groups(),
                    app.collapsed,
                    app.filter,
                    app.selected_row as int,
                );
                remote_key_differs(group.key);
                on_remote_group_is_settled(next, place);
            } else if row is Group || row is RemoteGroup {
                let next = app.folding(group.key);
                fold_and_go(app, next, next.collapsed);
                on_group_is_settled(next, place);
            } else if is_under_remote(row) {
                on_remote_group_is_settled(app, place);
            } else {
                on_group_is_settled(app, place);
            }
        },
        _ => {},
    }
}

/// Unfolding takes no row away from a project.
proof fn unfolding_keeps_rows(groups: Seq<GroupView>, collapsed: Set<Seq<char>>, key: Seq<char>, filter: SessionFilter)
    ensures
        rows_of(groups, collapsed, filter).len() <= rows_of(
            groups,
            collapsed.remove(key),
            filter,
        ).len(),
    decreases groups.len(),
{
    if groups.len() > 0 {
        unfolding_keeps_rows(groups.drop_last(), collapsed, key, filter);
    }
}

proof fn expanding_is_settled(app: AppView)
    requires
        app.is_settled(),
        rows_fit_in_memory(app),
    ensures
        app.expanding().is_settled(),
{
    match (app.row(), app.group()) {
        (Some(row), Some(group)) => {
            let place = row.group_place();
            if row is RemoteGroup || (is_under_remote(row) && !(row is Placeholder)) {
                let next = app.unfolding(remote_key(group.key));
                fold_and_go(app, next, next.collapsed);
                unfolding_keeps_rows(
                    app.groups(),
                    app.collapsed,
                    remote_key(group.key),
                    app.filter,
                );
                folding_keeps_the_tree(app, next.collapsed);
                on_remote_group_is_settled(next, place);
            } else {
                let next = app.unfolding(group.key);
                fold_and_go(app, next, next.collapsed);
                on_group_is_settled(next, place);
            }
        },
        _ => {},
    }
}

proof fn toggling_is_settled(app: AppView)
    requires
        app.is_settled(),
        rows_fit_in_memory(app),
    ensures
        app.parent_toggled().is_settled(),
{
    match (app.row(), app.group()) {
        (Some(row), Some(group)) => {
            let place = row.group_place();
            fold_and_go(app, app, app.collapsed);
            if row is Group && group.entries.len() > 0 {
                let next = app.toggling(group.key);
                fold_and_go(app, next, next.collapsed);
                on_group_is_settled(next, place);
            } else if row is RemoteGroup && remote_part(group.entries).len() > 0 {
                let next = app.toggling(remote_key(group.key));
                fold_and_go(app, next, next.collapsed);
                remote_row_has_its_part(
                    app.groups(),
                    app.collapsed,
                    app.filter,
                    app.selected_row as int,
                );
                remote_key_differs(group.key);
                on_remote_group_is_settled(next, place);
            }
        },
        _ => {},
    }
}

/// The rows depend on the tree, what is folded and the filter only.
proof fn same_rows(a: AppView, b: AppView)
    requires
        a.scene() == b.scene(),
        a.collapsed == b.collapsed,
    ensures
        a.rows() == b.rows(),
{
}

/// Clamping settles the selection, and leaves a settled one where it is.
pub proof fn clamping_settles(app: AppView)
    requires
        app.rows().len() <= usize::MAX,
    ensures
        app.clamped().is_settled(),
        app.is_settled() ==> app.clamped() == app,
{
    selecting_keeps_the_rows(app, app.clamped().selected_row);
}

/// Where the selection is on a row that is there, it is so after every key.
pub proof fn keys_keep_the_selection(
    app: AppView,
    key: Key,
    shift: bool,
    home: Option<Seq<char>>,
)
    requires
        app.is_settled(),
        rows_fit_in_memory(app),
    ensures
        app.after_key(key, shift, home).0.is_settled(),
{
    let next = app.after_key(key, shift, home).0;
    fold_and_go(app, app, app.collapsed);
    if app.input is Some || app.help_open || key == Key::Char('?') || app.confirm_close_all {
        same_rows(app, next);
    } else if key == Key::Left {
        collapsing_is_settled(app);
    } else if key == Key::Right {
        expanding_is_settled(app);
    } else if key == Key::Enter || key == Key::Char('o') {
        toggling_is_settled(app);
        if !app.is_on_parent() {
            same_rows(app, next);
        }
    } else if key == Key::Tab || key == Key::BackTab {
        // The first row is selected.
    } else if key == Key::Down || key == Key::Char('j') || key == Key::Up || key == Key::Char('k') {
        selecting_keeps_the_rows(app, next.selected_row);
    } else {
        same_rows(app, next);
    }
}

/// While a path is typed in, no key but Enter asks for anything to be done, and only the path and
/// the message change.
pub proof fn typing_only_types(app: AppView, key: Key, shift: bool, home: Option<Seq<char>>)
    requires
        app.input is Some,
        key != Key::Enter,
    ensures
        ({
            let after = app.after_key(key, shift, home);
            &&& after.1 == EffectView::Nothing
            &&& after.0 == (AppView { input: after.0.input, message: after.0.message, ..app })
            &&& key == Key::Esc ==> after.0.input is None
            &&& key != Key::Esc ==> after.0.input is Some && after.0.message == app.message
        }),
{
}

/// Folding or unfolding twice changes nothing.
pub proof fn toggling_twice_restores(app: AppView, key: Seq<char>)
    ensures
        app.toggling(key).toggling(key) == app,
{
    if app.collapsed.contains(key) {
        assert(app.collapsed.remove(key).insert(key) =~= app.collapsed);
    } else {
        assert(app.collapsed.insert(key).remove(key) =~= app.collapsed);
    }
}

/// A project that was removed is not followed, and nothing of it is kept.
pub proof fn removed_project_is_forgotten(
    app: AppView,
    path: Seq<char>,
    display_name: Seq<char>,
    names: Seq<Seq<char>>,
    recent: Seq<Seq<char>>,
)
    ensures
        ({
            let next = app.without_project(path, display_name, names, recent);
            &&& !next.followed().contains(path)
            &&& !next.labels.contains_key(path)
            &&& !next.collapsed.contains(path)
            &&& !next.collapsed.contains(remote_key(path))
            &&& forall|i: int|
                0 <= i < next.remote_sessions.len() ==> (
                #[trigger] next.remote_sessions[i]).project_dir != path
        }),
{
    outside_means_outside(app.remote_sessions, path);
}

proof fn outside_means_outside(
    remote: Seq<RemoteSession<Seq<char>>>,
    dir: Seq<char>,
)
    ensures
        forall|i: int|
            0 <= i < tasks_outside(remote, dir).len() ==> (
            #[trigger] tasks_outside(remote, dir)[i]).project_dir != dir,
    decreases remote.len(),
{
    if remote.len() > 0 {
        outside_means_outside(remote.drop_last(), dir);
    }
}

proof fn within_means_within(
    remote: Seq<RemoteSession<Seq<char>>>,
    dirs: Set<Seq<char>>,
)
    ensures
        forall|i: int|
            0 <= i < tasks_within(remote, dirs).len() ==> dirs.contains(
                (#[trigger] tasks_within(remote, dirs)[i]).project_dir,
            ),
    decreases remote.len(),
{
    if remote.len() > 0 {
        within_means_within(remote.drop_last(), dirs);
    }
}

/// Once the tasks were listed, those that are kept are of projects that were followed, and they can
/// be listed again.
pub proof fn listed_tasks_are_followed(
    app: AppView,
    result: Result<Seq<RemoteSession<Seq<char>>>, Seq<char>>,
)
    requires
        app.is_awaiting(),
        result is Ok,
    ensures
        ({
            let next = app.tasks_listed(result);
            &&& !next.remote_running
            &&& forall|i: int|
                0 <= i < next.remote_sessions.len() ==> app.followed().contains(
                    (#[trigger] next.remote_sessions[i]).project_dir,
                )
        }),
{
    within_means_within(result->Ok_0, app.followed());
}

// ---------------------------------------------------------------------------
// What keys do
// ---------------------------------------------------------------------------
/// Nothing is typed in, no question is open and the shortcuts are not shown.
pub open spec fn is_plain(app: AppView) -> bool {
    app.input is None && !app.help_open && !app.confirm_close_all
}

/// The selected row.
pub open spec fn selected(app: AppView) -> TreeRow<Seq<char>> {
    app.rows()[app.selected_row as int]
}

/// The project at the place that a row names, where the rows are those of the projects.
pub open spec fn project_of_row(app: AppView) -> GroupView {
    app.groups()[selected(app).group_place() as int]
}

/// On the row of a session: Enter and `o` show that session, `x` ends it, and neither changes
/// anything else.
pub proof fn keys_on_a_session(app: AppView, key: Key, shift: bool, home: Option<Seq<char>>)
    requires
        is_plain(app),
        app.selected_row < app.rows().len(),
        selected(app) is LocalSession,
        selected(app)->session_index < app.sessions.len(),
    ensures
        ({
            let session = app.sessions[selected(app)->session_index as int];
            let (after, effect) = app.after_key(key, shift, home);
            &&& key == Key::Enter || key == Key::Char('o') ==> effect == EffectView::Nothing
                && after == (AppView { pending_open: Some(session.name), ..app })
            &&& key == Key::Char('x') ==> after == app && effect == (EffectView::CloseSession {
                name: session.name,
                display_name: session.display_name,
            })
            &&& key == Key::Char('w') || key == Key::Char('p') ==> effect == EffectView::Nothing
                && after == (AppView { message: after.message, ..app })
        }),
{
}

/// On the row of a task: Enter and `o` join it, `w` shows it in the browser, `p` shows its pull
/// request where it has one, and it cannot be ended.
pub proof fn keys_on_a_task(app: AppView, key: Key, shift: bool, home: Option<Seq<char>>)
    requires
        is_plain(app),
        app.selected_row < app.rows().len(),
        selected(app) is RemoteSession,
        selected(app)->remote_index < app.remote_sessions.len(),
    ensures
        ({
            let task = app.remote_sessions[selected(app)->remote_index as int];
            let (after, effect) = app.after_key(key, shift, home);
            &&& key == Key::Enter || key == Key::Char('o') ==> after == app && effect == (
            EffectView::OpenRemote { id: task.id, display_name: task.display_name })
            &&& key == Key::Char('w') ==> after == app && effect == (EffectView::OpenUrl {
                id: task.id,
                display_name: task.display_name,
                url: task.url,
            })
            &&& key == Key::Char('p') && task.pr_url is Some ==> after == app && effect == (
            EffectView::OpenPullRequest {
                display_name: task.display_name,
                pr_url: task.pr_url->0,
            })
            &&& key == Key::Char('p') && task.pr_url is None ==> effect == EffectView::Nothing
                && after == (AppView {
                message: task.display_name + " has no pull request"@,
                ..app
            })
            &&& key == Key::Char('x') ==> effect == EffectView::Nothing && after == (AppView {
                message: "remote sessions cannot be closed locally"@,
                ..app
            })
        }),
{
}

/// A row is about remote sessions: that of the remote part, a task, a session with remote control
/// or in the remote part, and a word on missing tasks.
pub open spec fn is_about_remote(row: TreeRow<Seq<char>>) -> bool {
    match row {
        TreeRow::Group { .. } => false,
        TreeRow::RemoteGroup { .. } => true,
        TreeRow::RemoteSession { .. } => true,
        TreeRow::LocalSession { is_remote, under_remote, .. } => is_remote || under_remote,
        TreeRow::Placeholder { kind, under_remote, .. } => under_remote || kind
            != PlaceholderKind::<Seq<char>>::LocalEmpty,
    }
}

/// On any row: `n` starts a session in the project of the row, with remote control where the program
/// was started with it or the row is about remote sessions; `d` removes that project and ends the
/// sessions in its directory. Where nothing is selected, `n` starts one in the current directory,
/// and `d` does nothing.
pub proof fn keys_on_a_project(app: AppView, shift: bool, home: Option<Seq<char>>)
    requires
        is_plain(app),
        app.selected_row < app.rows().len() ==> selected(app).group_place() < app.groups().len(),
    ensures
        ({
            let there = app.selected_row < app.rows().len();
            let path = project_of_row(app).path;
            let (started, start) = app.after_key(Key::Char('n'), shift, home);
            let (removed, remove) = app.after_key(Key::Char('d'), shift, home);
            &&& started == app
            &&& start == (EffectView::NewSession {
                path: if there {
                    path
                } else {
                    app.current_dir
                },
                remote_enabled: app.remote_enabled || (there && is_about_remote(selected(app))),
            })
            &&& there ==> removed == app && remove == (EffectView::RemoveProject {
                path,
                display_name: project_of_row(app).display_name,
                names: app.sessions.filter(
                    |session: ManagedSession<Seq<char>>| session.project_dir == path,
                ).map_values(|session: ManagedSession<Seq<char>>| session.name),
            })
            &&& !there ==> remove == EffectView::Nothing
        }),
{
    if app.selected_row < app.rows().len() {
        names_are_those_in_the_directory(app.sessions, project_of_row(app).path);
    }
}

/// A session in the directory has the name.
pub open spec fn is_name_in(
    sessions: Seq<ManagedSession<Seq<char>>>,
    dir: Seq<char>,
    name: Seq<char>,
) -> bool {
    exists|i: int|
        0 <= i < sessions.len() && (#[trigger] sessions[i]).project_dir == dir && sessions[i].name
            == name
}

/// The names of the sessions in a directory, in the order of the list: each session in it is among
/// them, and no other.
pub proof fn names_are_those_in_the_directory(
    sessions: Seq<ManagedSession<Seq<char>>>,
    dir: Seq<char>,
)
    ensures
        names_in(sessions, dir) == sessions.filter(
            |session: ManagedSession<Seq<char>>| session.project_dir == dir,
        ).map_values(|session: ManagedSession<Seq<char>>| session.name),
        forall|i: int|
            0 <= i < sessions.len() && (#[trigger] sessions[i]).project_dir == dir ==> names_in(
                sessions,
                dir,
            ).contains(sessions[i].name),
        forall|k: int|
            0 <= k < names_in(sessions, dir).len() ==> is_name_in(
                sessions,
                dir,
                #[trigger] names_in(sessions, dir)[k],
            ),
    decreases sessions.len(),
{
    reveal(Seq::filter);
    let within = |session: ManagedSession<Seq<char>>| session.project_dir == dir;
    let name = |session: ManagedSession<Seq<char>>| session.name;
    let names = names_in(sessions, dir);
    if sessions.len() == 0 {
        assert(sessions.filter(within).map_values(name) == names);
    } else {
        let rest = sessions.drop_last();
        let last = sessions.last();
        let before = names_in(rest, dir);
        names_are_those_in_the_directory(rest, dir);
        if within(last) {
            assert(rest.filter(within).push(last).map_values(name) == rest.filter(
                within,
            ).map_values(name).push(last.name));
        }
        assert forall|i: int|
            0 <= i < sessions.len() && (#[trigger] sessions[i]).project_dir
                == dir implies names.contains(sessions[i].name) by {
            if i < rest.len() {
                assert(rest[i] == sessions[i]);
                let k = choose|k: int| 0 <= k < before.len() && before[k] == sessions[i].name;
                assert(names[k] == sessions[i].name);
            } else {
                assert(names[before.len() as int] == last.name);
            }
        }
        assert forall|k: int| 0 <= k < names.len() implies is_name_in(
            sessions,
            dir,
            #[trigger] names[k],
        ) by {
            if k < before.len() {
                assert(names[k] == before[k]);
                let i = choose|i: int|
                    0 <= i < rest.len() && (#[trigger] rest[i]).project_dir == dir && rest[i].name
                        == before[k];
                assert(sessions[i] == rest[i]);
            } else {
                assert(sessions[sessions.len() - 1] == last);
            }
        }
    }
}

/// Nothing is ended, started or left unless it was asked for. The program ends with `q` or Escape
/// only; one session is ended with `x` only, those of a project with `d`; all are ended only after a
/// question, with `y`, and then all of them.
pub proof fn nothing_is_ended_unasked(
    app: AppView,
    key: Key,
    shift: bool,
    home: Option<Seq<char>>,
)
    ensures
        ({
            let (after, effect) = app.after_key(key, shift, home);
            &&& effect is Quit ==> is_plain(app) && (key == Key::Esc || key == Key::Char('q'))
            &&& effect is CloseSession ==> is_plain(app) && key == Key::Char('x')
            &&& effect is RemoveProject ==> is_plain(app) && key == Key::Char('d')
            &&& effect is NewSession ==> is_plain(app) && key == Key::Char('n')
            &&& effect is CloseAll ==> app.confirm_close_all && app.input is None && !app.help_open
                && (key == Key::Char('y') || key == Key::Char('Y')) && effect->CloseAll_names
                == app.sessions.map_values(|session: ManagedSession<Seq<char>>| session.name)
            &&& effect is StartSession || effect is AddProject ==> app.input is Some && key
                == Key::Enter
            &&& after.confirm_close_all && !app.confirm_close_all ==> is_plain(app) && key
                == Key::Char('X') && app.sessions.len() > 0
            &&& after.sessions == app.sessions && after.remote_sessions == app.remote_sessions
            &&& after.recent == app.recent && after.removed == app.removed && after.labels
                == app.labels && after.cache == app.cache && after.current_dir == app.current_dir
        }),
{
    let (after, effect) = app.after_key(key, shift, home);
    if effect is CloseAll {
        assert(effect->CloseAll_names =~= app.sessions.map_values(
            |session: ManagedSession<Seq<char>>| session.name,
        ));
    }
}

/// The question whether to end all sessions is answered: `y` ends them, `n` and Escape do not and
/// the question is gone, and no other key does anything. It is asked with `X` where there is one.
pub proof fn all_are_ended_on_a_yes(app: AppView, key: Key, shift: bool, home: Option<Seq<char>>)
    requires
        app.input is None,
        !app.help_open,
        key != Key::Char('?'),
    ensures
        ({
            let (after, effect) = app.after_key(key, shift, home);
            &&& app.confirm_close_all && (key == Key::Char('y') || key == Key::Char('Y')) ==> effect
                is CloseAll && after == app
            &&& app.confirm_close_all && (key == Key::Char('n') || key == Key::Char('N') || key
                == Key::Esc) ==> effect is Nothing && !after.confirm_close_all && after == (
            AppView { confirm_close_all: false, message: after.message, ..app })
            &&& app.confirm_close_all && key != Key::Char('y') && key != Key::Char('Y') && key
                != Key::Char('n') && key != Key::Char('N') && key != Key::Esc ==> effect is Nothing
                && after == app
            &&& !app.confirm_close_all && key == Key::Char('X') ==> after.confirm_close_all == (
            app.sessions.len() > 0) && effect is Nothing
        }),
{
}

/// The keys that move: down and `j` to the next row, up and `k` to the one before, and neither off
/// the list. Tab takes the next filter and shift with Tab the one before, from the first row.
pub proof fn keys_that_move(app: AppView, key: Key, shift: bool, home: Option<Seq<char>>)
    requires
        is_plain(app),
        app.selected_row < app.rows().len() <= usize::MAX,
    ensures
        ({
            let (after, effect) = app.after_key(key, shift, home);
            &&& key == Key::Down || key == Key::Char('j') ==> effect is Nothing && after == (
            AppView { selected_row: after.selected_row, ..app }) && after.selected_row == if
                app.selected_row + 1 < app.rows().len() {
                app.selected_row + 1
            } else {
                app.selected_row as int
            }
            &&& key == Key::Up || key == Key::Char('k') ==> effect is Nothing && after == (AppView {
                selected_row: after.selected_row,
                ..app
            }) && after.selected_row == if app.selected_row > 0 {
                app.selected_row - 1
            } else {
                0
            }
            &&& key == Key::Tab || key == Key::BackTab ==> effect is Nothing && after == (AppView {
                selected_row: 0,
                filter: if key == Key::BackTab || shift {
                    app.filter.preceding()
                } else {
                    app.filter.following()
                },
                ..app
            })
            &&& key == Key::Char('r') ==> effect is Refresh && after == app
            &&& key == Key::Char('?') ==> effect is Nothing && after == (AppView {
                help_open: true,
                help_scroll: 0,
                ..app
            })
        }),
{
}

/// What the search for the row of a project finds is such a row.
proof fn found_row_is_the_projects(rows: Seq<TreeRow<Seq<char>>>, place: usize)
    ensures
        ({
            let i = group_row_place(rows, place);
            i < rows.len() ==> rows[i] == (TreeRow::<Seq<char>>::Group { group_index: place })
        }),
        ({
            let i = remote_row_place(rows, place);
            i < rows.len() ==> rows[i] is RemoteGroup && rows[i].group_place() == place
        }),
        0 <= group_row_place(rows, place) <= rows.len(),
        0 <= remote_row_place(rows, place) <= rows.len(),
    decreases rows.len(),
{
    if rows.len() > 0 {
        found_row_is_the_projects(rows.skip(1), place);
        if rows[0] is Group && rows[0].group_place() == place {
            assert(rows[0] == (TreeRow::<Seq<char>>::Group { group_index: place }));
        }
    }
}

/// The left arrow on the row of a project folds it; on the row of a session or task that stands
/// directly under a project it goes to the row of that project. The right arrow on the row of a
/// project unfolds it. Either way that row is selected, and nothing else changes.
pub proof fn arrows_fold_and_unfold(app: AppView, shift: bool, home: Option<Seq<char>>)
    requires
        is_plain(app),
        app.selected_row < app.rows().len(),
        selected(app).group_place() < app.groups().len() <= usize::MAX,
        rows_fit_in_memory(app),
    ensures
        ({
            let row = selected(app);
            let key = project_of_row(app).key;
            let place = row.group_place();
            let (left, none) = app.after_key(Key::Left, shift, home);
            let (right, nothing) = app.after_key(Key::Right, shift, home);
            let parent = TreeRow::<Seq<char>>::Group { group_index: place };
            &&& none is Nothing && nothing is Nothing
            &&& left == (AppView {
                collapsed: left.collapsed,
                selected_row: left.selected_row,
                ..app
            })
            &&& right == (AppView {
                collapsed: right.collapsed,
                selected_row: right.selected_row,
                ..app
            })
            &&& row is Group ==> {
                &&& left.collapsed == app.collapsed.insert(key)
                &&& right.collapsed == app.collapsed.remove(key)
                &&& left.selected_row < left.rows().len() && selected(left) == parent
                &&& right.selected_row < right.rows().len() && selected(right) == parent
            }
            &&& row is RemoteGroup ==> {
                &&& left.collapsed == if app.collapsed.contains(key + "::remote"@) {
                    app.collapsed.insert(key)
                } else {
                    app.collapsed.insert(key + "::remote"@)
                }
                &&& right.collapsed == app.collapsed.remove(key + "::remote"@)
            }
            &&& !(row is Group) && !(row is RemoteGroup) ==> {
                &&& left.collapsed == app.collapsed
                &&& !is_under_remote(row) ==> left.selected_row < left.rows().len() && selected(
                    left,
                ) == parent
            }
        }),
{
    let row = selected(app);
    let place = row.group_place();
    let key = project_of_row(app).key;
    fold_and_go(app, app, app.collapsed);
    let folded = app.folding(key);
    fold_and_go(app, folded, folded.collapsed);
    let opened = app.unfolding(key);
    fold_and_go(app, opened, opened.collapsed);
    project_row_is_reached(app, place);
    project_row_is_reached(folded, place);
    project_row_is_reached(opened, place);
}

proof fn project_row_is_reached(app: AppView, place: usize)
    requires
        place < app.groups().len() <= usize::MAX,
        app.rows().len() <= usize::MAX,
    ensures
        ({
            let next = app.on_group(place);
            &&& next.selected_row < next.rows().len()
            &&& selected(next) == (TreeRow::<Seq<char>>::Group { group_index: place })
            &&& next == (AppView { selected_row: next.selected_row, ..app })
        }),
{
    each_group_has_a_row(app.groups(), app.collapsed, app.filter, place as int);
    group_row_is_found(app.rows(), place);
    found_row_is_the_projects(app.rows(), place);
    selecting_keeps_the_rows(app, group_row_place(app.rows(), place) as usize);
}

/// Enter on the row of a project that has something under it folds it where it is unfolded and
/// unfolds it where it is folded; likewise for its remote part.
pub proof fn enter_folds_and_unfolds(app: AppView, shift: bool, home: Option<Seq<char>>)
    requires
        is_plain(app),
        app.selected_row < app.rows().len(),
        selected(app).group_place() < app.groups().len(),
        project_of_row(app).entries.len() > 0,
        remote_part(project_of_row(app).entries).len() > 0 || !(selected(app) is RemoteGroup),
        selected(app) is Group || selected(app) is RemoteGroup,
    ensures
        ({
            let key = if selected(app) is Group {
                project_of_row(app).key
            } else {
                project_of_row(app).key + "::remote"@
            };
            let (after, effect) = app.after_key(Key::Enter, shift, home);
            &&& effect is Nothing
            &&& after.collapsed.contains(key) == !app.collapsed.contains(key)
            &&& forall|other: Seq<char>|
                other != key ==> #[trigger] after.collapsed.contains(other)
                    == app.collapsed.contains(other)
            &&& after == (AppView {
                collapsed: after.collapsed,
                selected_row: after.selected_row,
                ..app
            })
        }),
{
}

/// While a path is typed in, a character is put behind it and Backspace takes the last one away;
/// Enter asks for a session there, with remote control as was asked for, or for the project to be
/// followed, by the path without the white space around it.
pub proof fn typed_path_is_taken(app: AppView, c: char, shift: bool, home: Option<Seq<char>>)
    ensures
        match app.input {
            Some(InputMode::NewSessionDirectory { buffer, remote_enabled, .. }) => {
                let (after, effect) = app.after_key(Key::Char(c), shift, home);
                let (back, _) = app.after_key(Key::Backspace, shift, home);
                let (done, asked) = app.after_key(Key::Enter, shift, home);
                &&& after.input == Some(
                    InputMode::NewSessionDirectory {
                        buffer: buffer.push(c),
                        remote_enabled,
                        completion_prefix: None,
                        completion_index: 0,
                    },
                )
                &&& back.input == Some(
                    InputMode::NewSessionDirectory {
                        buffer: if buffer.len() > 0 {
                            buffer.drop_last()
                        } else {
                            buffer
                        },
                        remote_enabled,
                        completion_prefix: None,
                        completion_index: 0,
                    },
                )
                &&& done == (AppView { input: None, ..app })
                &&& asked == (EffectView::StartSession { path: trim(buffer), remote_enabled })
            },
            Some(InputMode::NewProjectDirectory { buffer, .. }) => {
                let (after, effect) = app.after_key(Key::Char(c), shift, home);
                let (back, _) = app.after_key(Key::Backspace, shift, home);
                let (done, asked) = app.after_key(Key::Enter, shift, home);
                &&& after.input == Some(
                    InputMode::NewProjectDirectory {
                        buffer: buffer.push(c),
                        completion_prefix: None,
                        completion_index: 0,
                    },
                )
                &&& back.input == Some(
                    InputMode::NewProjectDirectory {
                        buffer: if buffer.len() > 0 {
                            buffer.drop_last()
                        } else {
                            buffer
                        },
                        completion_prefix: None,
                        completion_index: 0,
                    },
                )
                &&& done == (AppView { input: None, ..app })
                &&& asked == (EffectView::AddProject { path: trim(buffer) })
            },
            None => true,
        },
{
}

/// `N` asks for the directory of a session without remote control, `P` for that of a project; both
/// start from an empty path.
pub proof fn paths_are_asked_for(app: AppView, shift: bool, home: Option<Seq<char>>)
    requires
        is_plain(app),
    ensures
        app.after_key(Key::Char('N'), shift, home).1 is Nothing,
        app.after_key(Key::Char('P'), shift, home).1 is Nothing,
        app.after_key(Key::Char('N'), shift, home).0.input == Some(
            InputMode::NewSessionDirectory {
                buffer: Seq::<char>::empty(),
                remote_enabled: false,
                completion_prefix: None,
                completion_index: 0,
            },
        ),
        app.after_key(Key::Char('P'), shift, home).0.input == Some(
            InputMode::NewProjectDirectory {
                buffer: Seq::<char>::empty(),
                completion_prefix: None,
                completion_index: 0,
            },
        ),
{
    reveal_strlit("");
    assert(""@ =~= Seq::<char>::empty());
}

/// While the shortcuts are shown, keys move the list and nothing else: a line with the arrows, `j`
/// and `k`, six with the page keys, to the ends with Home and End, never off it; Escape, `q` and `?`
/// close it.
pub proof fn shortcuts_are_scrolled(app: AppView, key: Key, shift: bool, home: Option<Seq<char>>)
    requires
        app.input is None,
        app.help_open,
        app.help_scroll < HELP_LINES,
    ensures
        ({
            let (after, effect) = app.after_key(key, shift, home);
            let at = app.help_scroll as int;
            let last = HELP_LINES - 1;
            let up = |by: int| if at < by { 0 } else { at - by };
            let down = |by: int| if at + by > last { last } else { at + by };
            &&& effect is Nothing
            &&& after == (AppView {
                help_open: after.help_open,
                help_scroll: after.help_scroll,
                ..app
            })
            &&& after.help_open == !(key == Key::Esc || key == Key::Char('q') || key == Key::Char(
                '?',
            ))
            &&& after.help_open ==> after.help_scroll == match key {
                Key::Up => up(1),
                Key::Char('k') => up(1),
                Key::Down => down(1),
                Key::Char('j') => down(1),
                Key::PageUp => up(6),
                Key::PageDown => down(6),
                Key::Home => 0,
                Key::End => last,
                _ => at,
            }
        }),
{
}

// ---------------------------------------------------------------------------
// What is known after something was done
// ---------------------------------------------------------------------------
/// The tasks of other directories, and the tasks of given ones, are those of the list, in order.
pub proof fn tasks_are_kept_by_directory(
    remote: Seq<RemoteSession<Seq<char>>>,
    dir: Seq<char>,
    dirs: Set<Seq<char>>,
)
    ensures
        tasks_outside(remote, dir) == remote.filter(
            |task: RemoteSession<Seq<char>>| task.project_dir != dir,
        ),
        tasks_within(remote, dirs) == remote.filter(
            |task: RemoteSession<Seq<char>>| dirs.contains(task.project_dir),
        ),
    decreases remote.len(),
{
    reveal(Seq::filter);
    if remote.len() > 0 {
        tasks_are_kept_by_directory(remote.drop_last(), dir, dirs);
    }
}

/// What is written for a project holds its tasks and no other, in order, with nothing lost.
pub proof fn cached_tasks_are_those_of_the_project(
    dirs: Seq<Seq<char>>,
    remote: Seq<RemoteSession<Seq<char>>>,
    i: int,
)
    requires
        0 <= i < dirs.len(),
    ensures
        cache_updates(dirs, remote).len() == dirs.len(),
        cache_updates(dirs, remote)[i].project_dir == dirs[i],
        ({
            let dir = dirs[i];
            let own = remote.filter(|task: RemoteSession<Seq<char>>| task.project_dir == dir);
            let written = cache_updates(dirs, remote)[i].sessions;
            &&& written.len() == own.len()
            &&& forall|k: int| 0 <= k < own.len() ==> same_task(#[trigger] written[k], own[k])
        }),
{
    cached_in_is_a_filter(remote, dirs[i]);
}

/// A task in the cache has the parts of a task.
pub open spec fn same_task(
    entry: CachedRemoteSession<Seq<char>>,
    task: RemoteSession<Seq<char>>,
) -> bool {
    entry.id == task.id && entry.display_name == task.display_name && entry.project_dir
        == task.project_dir && entry.repository == task.repository && entry.status == task.status
        && entry.state == task.state && entry.updated_at == task.updated_at && entry.url == task.url
        && entry.pr_url == task.pr_url
}

proof fn cached_in_is_a_filter(remote: Seq<RemoteSession<Seq<char>>>, dir: Seq<char>)
    ensures
        ({
            let own = remote.filter(|task: RemoteSession<Seq<char>>| task.project_dir == dir);
            let written = cached_in(remote, dir);
            &&& written.len() == own.len()
            &&& forall|k: int| 0 <= k < own.len() ==> same_task(#[trigger] written[k], own[k])
        }),
    decreases remote.len(),
{
    reveal(Seq::filter);
    if remote.len() > 0 {
        cached_in_is_a_filter(remote.drop_last(), dir);
        let own = remote.filter(|task: RemoteSession<Seq<char>>| task.project_dir == dir);
        let rest = remote.drop_last().filter(
            |task: RemoteSession<Seq<char>>| task.project_dir == dir,
        );
        let written = cached_in(remote, dir);
        let before = cached_in(remote.drop_last(), dir);
        assert forall|k: int| 0 <= k < own.len() implies same_task(
            #[trigger] written[k],
            own[k],
        ) by {
            if k < rest.len() {
                assert(written[k] == before[k] && own[k] == rest[k]);
                assert(same_task(before[k], rest[k]));
            }
        }
    }
}

/// Once a project was removed, what was known of its sessions' screens is forgotten and what was
/// known of others is kept; other projects keep their tasks, names and foldings; it is noted as
/// removed. The sessions themselves are listed anew later.
pub proof fn removing_touches_one_project(
    app: AppView,
    path: Seq<char>,
    display_name: Seq<char>,
    names: Seq<Seq<char>>,
    recent: Seq<Seq<char>>,
)
    ensures
        ({
            let next = app.without_project(path, display_name, names, recent);
            &&& forall|name: Seq<char>| #[trigger]
                next.cache.contains_key(name) <==> app.cache.contains_key(name) && !names.contains(
                    name,
                )
            &&& forall|name: Seq<char>| #[trigger]
                next.cache.contains_key(name) ==> next.cache[name] == app.cache[name]
            &&& next.remote_sessions == app.remote_sessions.filter(
                |task: RemoteSession<Seq<char>>| task.project_dir != path,
            )
            &&& forall|other: Seq<char>|
                other != path ==> (#[trigger] next.labels.contains_key(other)
                    <==> app.labels.contains_key(other)) && (next.labels.contains_key(other)
                    ==> next.labels[other] == app.labels[other])
            &&& forall|other: Seq<char>|
                other != path && other != path + "::remote"@ ==> (
                #[trigger] next.collapsed.contains(other) <==> app.collapsed.contains(other))
            &&& forall|other: Seq<char>| #[trigger]
                next.removed.contains(other) <==> other == path || app.removed.contains(other)
            &&& next.recent == recent && next.sessions == app.sessions && next.filter == app.filter
                && next.selected_row == app.selected_row && next.current_dir == app.current_dir
        }),
{
    tasks_are_kept_by_directory(app.remote_sessions, path, Set::empty());
    forgotten_names_are_gone(app.cache, names);
}

proof fn forgotten_names_are_gone(cache: Map<Seq<char>, u64>, names: Seq<Seq<char>>)
    ensures
        forall|name: Seq<char>| #[trigger]
            cache_without(cache, names).contains_key(name) <==> cache.contains_key(name)
                && !names.contains(name),
        forall|name: Seq<char>| #[trigger]
            cache_without(cache, names).contains_key(name) ==> cache_without(cache, names)[name]
                == cache[name],
    decreases names.len(),
{
    if names.len() > 0 {
        let rest = names.drop_last();
        forgotten_names_are_gone(cache, rest);
        assert forall|name: Seq<char>| names.contains(name) == (rest.contains(name) || name
            == names.last()) by {
            if names.contains(name) {
                let i = choose|i: int| 0 <= i < names.len() && names[i] == name;
                if i < rest.len() {
                    assert(rest[i] == name);
                }
            }
            if rest.contains(name) {
                let i = choose|i: int| 0 <= i < rest.len() && rest[i] == name;
                assert(names[i] == name);
            }
            assert(names[names.len() - 1] == names.last());
        }
        assert(cache_without(cache, names) == cache_without(cache, rest).remove(names.last()));
    } else {
        assert(cache_without(cache, names) == cache);
    }
}

/// Once tasks were listed they are not being listed any more. Where no project that was asked for is
/// followed any longer, the list is dropped. Else, where it failed, the tasks that were known stay
/// and the error is kept; where it did not, the tasks of the projects that are followed take their
/// place, in order, and whether there are any is told.
pub proof fn listed_tasks_take_their_place(
    app: AppView,
    result: Result<Seq<RemoteSession<Seq<char>>>, Seq<char>>,
)
    ensures
        ({
            let next = app.tasks_listed(result);
            let wanted = exists|dir: Seq<char>|
                app.requested.contains(dir) && #[trigger] app.followed().contains(dir);
            &&& !next.remote_running && next.requested == Set::<Seq<char>>::empty()
            &&& next == (AppView {
                remote_running: false,
                requested: next.requested,
                remote_state: next.remote_state,
                remote_sessions: next.remote_sessions,
                ..app
            })
            &&& !wanted || result is Err ==> next.remote_sessions == app.remote_sessions
            &&& wanted && result is Ok ==> next.remote_sessions == result->Ok_0.filter(
                |task: RemoteSession<Seq<char>>| app.followed().contains(task.project_dir),
            )
            &&& wanted && result is Err ==> next.remote_state == RemoteLoadState::Failed(
                result->Err_0,
            )
            &&& !(wanted && result is Err) ==> if next.remote_sessions.len() == 0 {
                next.remote_state is Empty
            } else {
                next.remote_state is Loaded
            }
        }),
{
    if result is Ok {
        tasks_are_kept_by_directory(result->Ok_0, seq![], app.followed());
    }
}

/// The tasks are asked for unless they are being listed already or no project is followed: then for
/// all projects that are.
pub proof fn tasks_are_asked_for_once(app: AppView)
    ensures
        ({
            let next = app.listing_started();
            &&& app.remote_running ==> next == app
            &&& next == (AppView {
                remote_running: next.remote_running,
                requested: next.requested,
                remote_state: next.remote_state,
                ..app
            })
            &&& !app.remote_running && next.remote_running ==> next.requested == app.followed()
                && next.remote_state is Loading
            &&& !app.remote_running && !next.remote_running ==> next.remote_state is Empty
                && next.requested == app.requested
        }),
{
}

/// The projects that have no name yet are those of the list without one, in order.
pub proof fn unlabelled_are_without_label(
    dirs: Seq<Seq<char>>,
    labels: Map<Seq<char>, Seq<char>>,
)
    ensures
        unlabelled(dirs, labels) == dirs.filter(|dir: Seq<char>| !labels.contains_key(dir)),
    decreases dirs.len(),
{
    reveal(Seq::filter);
    if dirs.len() > 0 {
        unlabelled_are_without_label(dirs.drop_last(), labels);
    }
}

/// A session that was started is shown next.
pub proof fn started_session_is_shown(
    app: AppView,
    name: Seq<char>,
    display_name: Seq<char>,
    remote_enabled: bool,
)
    ensures
        ({
            let next = app.session_started(name, display_name, remote_enabled);
            &&& next.pending_open == Some(name)
            &&& next == (AppView { pending_open: Some(name), message: next.message, ..app })
            &&& next.message == (if remote_enabled {
                "created remote "@
            } else {
                "created "@
            }) + display_name
        }),
{
}

/// A project is followed where it is the current one, was used lately or holds a session or a task,
/// and was not removed.
pub proof fn projects_are_followed_until_removed(app: AppView, dir: Seq<char>)
    ensures
        app.followed().contains(dir) <==> {
            &&& !app.removed.contains(dir)
            &&& {
                ||| dir == app.current_dir
                ||| app.recent.contains(dir)
                ||| exists|i: int|
                    0 <= i < app.sessions.len() && (#[trigger] app.sessions[i]).project_dir == dir
                ||| exists|i: int|
                    0 <= i < app.remote_sessions.len() && (
                    #[trigger] app.remote_sessions[i]).project_dir == dir
            }
        },
        app.scene().projects == app.followed(),
        app.scene().sessions == app.sessions,
        app.scene().remote == app.remote_sessions,
        app.scene().filter == app.filter,
        app.scene().labels == app.labels,
        app.scene().remote_state == app.remote_state,
        app.scene().current == app.current_dir,
{
}

proof fn remote_row_is_reached(app: AppView, place: usize, k: int)
    requires
        0 <= k < app.rows().len() <= usize::MAX,
        app.rows()[k] is RemoteGroup,
        app.rows()[k].group_place() == place,
    ensures
        ({
            let next = app.on_remote_group(place);
            &&& next.selected_row < next.rows().len()
            &&& selected(next) is RemoteGroup && selected(next).group_place() == place
            &&& next == (AppView { selected_row: next.selected_row, ..app })
        }),
{
    some_remote_row_is_found(app.rows(), place, k);
    found_row_is_the_projects(app.rows(), place);
    selecting_keeps_the_rows(app, remote_row_place(app.rows(), place) as usize);
}

proof fn some_remote_row_is_found(rows: Seq<TreeRow<Seq<char>>>, place: usize, k: int)
    requires
        0 <= k < rows.len(),
        rows[k] is RemoteGroup,
        rows[k].group_place() == place,
    ensures
        0 <= remote_row_place(rows, place) <= k,
    decreases rows.len(),
{
    if !(rows[0] is RemoteGroup && rows[0].group_place() == place) {
        assert(rows.skip(1)[k - 1] == rows[k]);
        some_remote_row_is_found(rows.skip(1), place, k - 1);
    }
}

/// The left arrow on the row of a remote part folds that part and stays on it; where it is folded
/// already the project is folded and its row selected. On a row in the remote part it goes to the
/// row of that part, and changes nothing else.
pub proof fn left_arrow_goes_up_the_remote_part(
    app: AppView,
    shift: bool,
    home: Option<Seq<char>>,
    k: int,
)
    requires
        is_plain(app),
        app.selected_row < app.rows().len(),
        selected(app).group_place() < app.groups().len() <= usize::MAX,
        rows_fit_in_memory(app),
        0 <= k < app.rows().len(),
        app.rows()[k] is RemoteGroup,
        app.rows()[k].group_place() == selected(app).group_place(),
    ensures
        ({
            let row = selected(app);
            let place = row.group_place();
            let folded = app.collapsed.contains(project_of_row(app).key + "::remote"@);
            let left = app.after_key(Key::Left, shift, home).0;
            &&& is_under_remote(row) || (row is RemoteGroup && !folded) ==> left.selected_row
                < left.rows().len() && selected(left) is RemoteGroup && selected(
                left,
            ).group_place() == place
            &&& row is RemoteGroup && folded ==> left.selected_row < left.rows().len() && selected(
                left,
            ) == (TreeRow::<Seq<char>>::Group { group_index: place })
            &&& is_under_remote(row) ==> left == (AppView {
                selected_row: left.selected_row,
                ..app
            })
        }),
{
    let row = selected(app);
    let place = row.group_place();
    let group = project_of_row(app);
    fold_and_go(app, app, app.collapsed);
    if is_under_remote(row) {
        remote_row_is_reached(app, place, k);
    }
    if row is RemoteGroup {
        remote_key_differs(group.key);
        let next = app.folding(remote_key(group.key));
        fold_and_go(app, next, next.collapsed);
        remote_row_has_its_part(
            app.groups(),
            app.collapsed,
            app.filter,
            app.selected_row as int,
        );
        if !app.collapsed.contains(remote_key(group.key)) {
            remote_part_has_a_row(next.groups(), next.collapsed, next.filter, place as int);
            let there = TreeRow::<Seq<char>>::RemoteGroup { group_index: place, is_last: true };
            let i = choose|i: int| 0 <= i < next.rows().len() && next.rows()[i] == there;
            remote_row_is_reached(next, place, i);
        } else {
            let shut = app.folding(group.key);
            fold_and_go(app, shut, shut.collapsed);
            project_row_is_reached(shut, place);
        }
    }
}

/// The right arrow on a row that stands directly under a project unfolds the project and selects its
/// row; on a session or task in the remote part it unfolds that part.
pub proof fn right_arrow_unfolds(app: AppView, shift: bool, home: Option<Seq<char>>)
    requires
        is_plain(app),
        app.selected_row < app.rows().len(),
        selected(app).group_place() < app.groups().len() <= usize::MAX,
        rows_fit_in_memory(app),
    ensures
        ({
            let row = selected(app);
            let key = project_of_row(app).key;
            let right = app.after_key(Key::Right, shift, home).0;
            let far = row is RemoteGroup || (is_under_remote(row) && !(row is Placeholder));
            &&& far ==> right.collapsed == app.collapsed.remove(key + "::remote"@)
            &&& !far ==> right.collapsed == app.collapsed.remove(key)
            &&& !far ==> right.selected_row < right.rows().len() && selected(right) == (TreeRow::<
                Seq<char>,
            >::Group { group_index: row.group_place() })
        }),
{
    let row = selected(app);
    let opened = app.unfolding(project_of_row(app).key);
    fold_and_go(app, opened, opened.collapsed);
    project_row_is_reached(opened, row.group_place());
}

/// `q` and Escape end the program. A key that stands for nothing does nothing, and neither does one
/// that stands for something else than what is selected, but that it says so.
pub proof fn other_keys_do_nothing(app: AppView, key: Key, shift: bool, home: Option<Seq<char>>)
    requires
        is_plain(app),
    ensures
        ({
            let (after, effect) = app.after_key(key, shift, home);
            let unused = match key {
                Key::Char(c) => !"qjkonNPdxXrwp?"@.contains(c),
                Key::Esc => false,
                Key::Tab => false,
                Key::BackTab => false,
                Key::Left => false,
                Key::Right => false,
                Key::Up => false,
                Key::Down => false,
                Key::Enter => false,
                _ => true,
            };
            &&& key == Key::Esc || key == Key::Char('q') ==> effect is Quit && after == app
            &&& unused ==> effect is Nothing && after == app
            &&& key == Key::Char('x') && app.session() is None ==> effect is Nothing && after == (
            AppView { message: after.message, ..app })
            &&& (key == Key::Char('w') || key == Key::Char('p')) && app.remote_session() is None
                ==> effect is Nothing && after == (AppView { message: after.message, ..app })
            &&& (key == Key::Enter || key == Key::Char('o')) && app.selected_row >= app.rows().len()
                ==> effect is Nothing && after == (AppView { message: after.message, ..app })
            &&& (key == Key::Left || key == Key::Right) && app.selected_row >= app.rows().len()
                ==> effect is Nothing && after == app
        }),
{
    reveal_strlit("qjkonNPdxXrwp?");
    let used = "qjkonNPdxXrwp?"@;
    assert(used[0] == 'q' && used[1] == 'j' && used[2] == 'k' && used[3] == 'o' && used[4] == 'n'
        && used[5] == 'N' && used[6] == 'P' && used[7] == 'd' && used[8] == 'x' && used[9] == 'X'
        && used[10] == 'r' && used[11] == 'w' && used[12] == 'p' && used[13] == '?');
}

/// While a path is typed in, Escape gives it up and nothing comes of it. Tab completes the path
/// forward and shift with Tab backward; what else is asked for is kept.
pub proof fn typed_path_is_completed(app: AppView, shift: bool, home: Option<Seq<char>>)
    requires
        app.input is Some,
    ensures
        ({
            let (given_up, effect) = app.after_key(Key::Esc, shift, home);
            &&& effect is Nothing
            &&& given_up == (AppView { input: None, message: given_up.message, ..app })
        }),
        app.after_key(Key::Tab, shift, home).1 is Nothing,
        app.after_key(Key::BackTab, shift, home).1 is Nothing,
        ({
            let forward = app.after_key(Key::Tab, shift, home).0;
            let back = app.after_key(Key::BackTab, shift, home).0;
            match app.input->0 {
                InputMode::NewSessionDirectory {
                    buffer,
                    remote_enabled,
                    completion_prefix,
                    completion_index,
                } => {
                    let typed = Completion {
                        buffer,
                        prefix: completion_prefix,
                        index: completion_index,
                    };
                    let next = completed(typed, app.recent, home, false);
                    let last = completed(typed, app.recent, home, true);
                    &&& forward == (AppView {
                        input: Some(
                            InputMode::NewSessionDirectory {
                                buffer: next.buffer,
                                remote_enabled,
                                completion_prefix: next.prefix,
                                completion_index: next.index,
                            },
                        ),
                        ..app
                    })
                    &&& back == (AppView {
                        input: Some(
                            InputMode::NewSessionDirectory {
                                buffer: last.buffer,
                                remote_enabled,
                                completion_prefix: last.prefix,
                                completion_index: last.index,
                            },
                        ),
                        ..app
                    })
                },
                InputMode::NewProjectDirectory { buffer, completion_prefix, completion_index } => {
                    let typed = Completion {
                        buffer,
                        prefix: completion_prefix,
                        index: completion_index,
                    };
                    let next = completed(typed, app.recent, home, false);
                    let last = completed(typed, app.recent, home, true);
                    &&& forward.input == Some(
                        InputMode::NewProjectDirectory {
                            buffer: next.buffer,
                            completion_prefix: next.prefix,
                            completion_index: next.index,
                        },
                    )
                    &&& back.input == Some(
                        InputMode::NewProjectDirectory {
                            buffer: last.buffer,
                            completion_prefix: last.prefix,
                            completion_index: last.index,
                        },
                    )
                },
            }
        }),
{
}

/// A selection that has run off the list goes to its last row, and the list of shortcuts is scrolled
/// no further than that its last lines are seen.
pub proof fn selection_goes_to_the_last_row(app: AppView, visible: u16)
    requires
        app.rows().len() <= usize::MAX,
    ensures
        ({
            let after = app.clamped();
            &&& after == (AppView { selected_row: after.selected_row, ..app })
            &&& app.selected_row < app.rows().len() ==> after == app
            &&& app.selected_row >= app.rows().len() > 0 ==> after.selected_row + 1
                == app.rows().len()
            &&& app.rows().len() == 0 ==> after.selected_row == 0
        }),
        ({
            let after = app.help_clamped(visible);
            &&& after == (AppView { help_scroll: after.help_scroll, ..app })
            &&& app.help_scroll + visible <= HELP_LINES ==> after == app
            &&& app.help_scroll + visible > HELP_LINES && visible <= HELP_LINES
                ==> after.help_scroll + visible == HELP_LINES
            &&& visible > HELP_LINES ==> after.help_scroll == 0
        }),
{
}

/// What came of a run is told: how it ended, or why it could not be run.
pub proof fn outcome_is_told(status: Seq<char>, done: Seq<char>, exited: Seq<char>)
    ensures
        outcome_text(Outcome::Done, done, exited) == done,
        outcome_text(Outcome::Exited(status), done, exited).take(exited.len() as int) == exited,
        outcome_text(Outcome::Exited(status), done, exited).skip(exited.len() as int) == status,
        outcome_text(Outcome::Failed(status), done, exited) == status,
{
    let said = outcome_text(Outcome::Exited(status), done, exited);
    assert(said.take(exited.len() as int) == exited);
    assert(said.skip(exited.len() as int) == status);
}

/// Where a project is followed and its tasks are not being listed, they are asked for; where none is
/// followed, they are not.
pub proof fn followed_projects_are_listed(app: AppView, list: Seq<Seq<char>>)
    requires
        lists(list, app.followed()),
        !app.remote_running,
    ensures
        app.listing_started().remote_running <==> list.len() > 0,
{
    list_is_determined(list, ordered(app.followed()), app.followed());
}

/// What was listed is written to the cache for each project that is followed, and nothing where the
/// list failed or is not awaited any more.
pub proof fn listed_tasks_are_written(
    app: AppView,
    sessions: Seq<RemoteSession<Seq<char>>>,
    error: Seq<char>,
    list: Seq<Seq<char>>,
    i: int,
)
    requires
        lists(list, app.followed()),
    ensures
        ({
            let wanted = exists|dir: Seq<char>|
                app.requested.contains(dir) && #[trigger] app.followed().contains(dir);
            let written = app.updates_of(Ok(sessions));
            &&& app.updates_of(Err(error)).len() == 0
            &&& !wanted ==> written.len() == 0
            &&& wanted ==> written.len() == list.len()
            &&& wanted && 0 <= i < list.len() ==> written[i].project_dir == list[i]
                && written[i].sessions == cached_in(
                sessions.filter(
                    |task: RemoteSession<Seq<char>>| app.followed().contains(task.project_dir),
                ),
                list[i],
            )
        }),
{
    list_is_determined(list, ordered(app.followed()), app.followed());
    tasks_are_kept_by_directory(sessions, seq![], app.followed());
}

} // verus!
