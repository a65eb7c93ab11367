//! What the program shows: the tree, the preview, the header, the footer and the list of shortcuts.
use crate::app::{App, AppView, HELP_LINES, InputMode};
use crate::groups::{
    entries_fit, entry_fits, remote_group_key, remote_key, row_fits, rows_fit, GroupEntry,
    GroupView, PlaceholderKind, ProjectGroup, SessionFilter, StatusCounts, TreeRow,
};
use crate::numbers::{
    count_text, decimal, decimal_has_value, decimal_of, is_number, number_value,
};
use crate::remote::{is_cancelled, is_cancelled_remote_state, RemoteSession};
use crate::status::{status_label, SessionStatus};
use crate::style::{bold, bold_on, fg, italic, plain, put_line, span, Color, Line, SpanView, Style};
use crate::tables::TextSet;
use crate::text::{
    concat, count_chars, join, lowered, opt_view, shortened, shortened_fits, truncate, views,
};
use crate::tmux::ManagedSession;
use vstd::prelude::*;

verus! {

// ---------------------------------------------------------------------------
// Colours and icons
// ---------------------------------------------------------------------------
/// The ground.
#[verifier::allow_in_spec]
pub fn tokyo_bg() -> Color
    returns
        Color::Rgb(0x1a, 0x1b, 0x26),
{
    Color::Rgb(0x1a, 0x1b, 0x26)
}

/// Text.
#[verifier::allow_in_spec]
pub fn tokyo_fg() -> Color
    returns
        Color::Rgb(0xc0, 0xca, 0xf5),
{
    Color::Rgb(0xc0, 0xca, 0xf5)
}

/// Text that matters less.
#[verifier::allow_in_spec]
pub fn tokyo_comment() -> Color
    returns
        Color::Rgb(0x56, 0x5f, 0x89),
{
    Color::Rgb(0x56, 0x5f, 0x89)
}

/// Borders.
#[verifier::allow_in_spec]
pub fn tokyo_border() -> Color
    returns
        Color::Rgb(0x41, 0x48, 0x68),
{
    Color::Rgb(0x41, 0x48, 0x68)
}

/// Blue.
#[verifier::allow_in_spec]
pub fn tokyo_blue() -> Color
    returns
        Color::Rgb(0x7a, 0xa2, 0xf7),
{
    Color::Rgb(0x7a, 0xa2, 0xf7)
}

/// Cyan.
#[verifier::allow_in_spec]
pub fn tokyo_cyan() -> Color
    returns
        Color::Rgb(0x7d, 0xcf, 0xff),
{
    Color::Rgb(0x7d, 0xcf, 0xff)
}

/// Green.
#[verifier::allow_in_spec]
pub fn tokyo_green() -> Color
    returns
        Color::Rgb(0x9e, 0xce, 0x6a),
{
    Color::Rgb(0x9e, 0xce, 0x6a)
}

/// Yellow.
#[verifier::allow_in_spec]
pub fn tokyo_yellow() -> Color
    returns
        Color::Rgb(0xe0, 0xaf, 0x68),
{
    Color::Rgb(0xe0, 0xaf, 0x68)
}

/// Red.
#[verifier::allow_in_spec]
pub fn tokyo_red() -> Color
    returns
        Color::Rgb(0xf7, 0x76, 0x8e),
{
    Color::Rgb(0xf7, 0x76, 0x8e)
}

/// Purple.
#[verifier::allow_in_spec]
pub fn tokyo_purple() -> Color
    returns
        Color::Rgb(0xbb, 0x9a, 0xf7),
{
    Color::Rgb(0xbb, 0x9a, 0xf7)
}

/// The sign of a status.
pub open spec fn icon_of(status: SessionStatus) -> Seq<char> {
    match status {
        SessionStatus::Waiting => "◐"@,
        SessionStatus::Done => "◆"@,
        SessionStatus::Busy => "●"@,
        SessionStatus::Idle => "○"@,
    }
}

/// The sign of a status.
pub fn status_icon(status: SessionStatus) -> (out: &'static str)
    ensures
        out@ == icon_of(status),
{
    match status {
        SessionStatus::Waiting => "◐",
        SessionStatus::Done => "◆",
        SessionStatus::Busy => "●",
        SessionStatus::Idle => "○",
    }
}

/// The look of a status.
#[verifier::allow_in_spec]
pub fn status_style(status: SessionStatus) -> Style
    returns
        (match status {
            SessionStatus::Waiting => bold(tokyo_yellow()),
            SessionStatus::Done => bold(tokyo_green()),
            SessionStatus::Busy => fg(tokyo_blue()),
            SessionStatus::Idle => fg(tokyo_comment()),
        }),
{
    match status {
        SessionStatus::Waiting => bold(tokyo_yellow()),
        SessionStatus::Done => bold(tokyo_green()),
        SessionStatus::Busy => fg(tokyo_blue()),
        SessionStatus::Idle => fg(tokyo_comment()),
    }
}

/// The sign of remote sessions.
pub const REMOTE_ICON: &'static str = "\u{f408}";

/// The sign of a task.
pub open spec fn task_icon(session: RemoteSession<Seq<char>>) -> Seq<char> {
    if is_cancelled(session.state) {
        "×"@
    } else {
        icon_of(session.status)
    }
}

/// The look of a task.
pub open spec fn task_style(session: RemoteSession<Seq<char>>) -> Style {
    if is_cancelled(session.state) {
        bold(tokyo_red())
    } else {
        status_style(session.status)
    }
}

/// The sign of a task.
pub fn remote_status_icon(session: &RemoteSession) -> (out: &'static str)
    ensures
        out@ == task_icon(session@),
{
    if is_cancelled_remote_state(&session.state) {
        "×"
    } else {
        status_icon(session.status)
    }
}

/// The look of a task.
pub fn remote_status_style(session: &RemoteSession) -> (out: Style)
    ensures
        out == task_style(session@),
{
    if is_cancelled_remote_state(&session.state) {
        bold(tokyo_red())
    } else {
        status_style(session.status)
    }
}

/// The frame of the spinner, 80 milliseconds each.
pub open spec fn spinner_frame(frame: usize) -> Seq<char> {
    let k = frame % 10;
    if k == 0 {
        "⠋"@
    } else if k == 1 {
        "⠙"@
    } else if k == 2 {
        "⠹"@
    } else if k == 3 {
        "⠸"@
    } else if k == 4 {
        "⠼"@
    } else if k == 5 {
        "⠴"@
    } else if k == 6 {
        "⠦"@
    } else if k == 7 {
        "⠧"@
    } else if k == 8 {
        "⠇"@
    } else {
        "⠏"@
    }
}

/// The frame of the spinner.
pub fn loading_icon(frame: usize) -> (out: &'static str)
    ensures
        out@ == spinner_frame(frame),
{
    let k: usize = frame % 10;
    if k == 0 {
        "⠋"
    } else if k == 1 {
        "⠙"
    } else if k == 2 {
        "⠹"
    } else if k == 3 {
        "⠸"
    } else if k == 4 {
        "⠼"
    } else if k == 5 {
        "⠴"
    } else if k == 6 {
        "⠦"
    } else if k == 7 {
        "⠧"
    } else if k == 8 {
        "⠇"
    } else {
        "⠏"
    }
}

/// The number of the frame at a time in milliseconds since the epoch, as far as a machine word goes.
pub fn loading_frame(millis: u128) -> (out: usize)
    ensures
        out == (millis as int / 80) % (usize::MAX + 1),
{
    ((millis / 80) % (usize::MAX as u128 + 1)) as usize
}

/// The first number less the second, or nothing where it is smaller.
pub open spec fn minus(a: nat, b: nat) -> nat {
    if a < b {
        0
    } else {
        (a - b) as nat
    }
}

fn less(a: usize, b: usize) -> (out: usize)
    ensures
        out as nat == minus(a as nat, b as nat),
{
    if a < b {
        0
    } else {
        a - b
    }
}

// ---------------------------------------------------------------------------
// The tree
// ---------------------------------------------------------------------------
/// The branch before a row.
pub open spec fn branch(under_remote: bool, is_last: bool) -> Seq<char> {
    if under_remote {
        if is_last {
            "    └─ "@
        } else {
            "    ├─ "@
        }
    } else if is_last {
        "  └─ "@
    } else {
        "  ├─ "@
    }
}

fn branch_of(under_remote: bool, is_last: bool) -> (out: &'static str)
    ensures
        out@ == branch(under_remote, is_last),
{
    if under_remote {
        if is_last {
            "    └─ "
        } else {
            "    ├─ "
        }
    } else if is_last {
        "  └─ "
    } else {
        "  ├─ "
    }
}

/// The sign of a part of the tree that can be folded.
pub open spec fn fold_icon(folded: bool) -> Seq<char> {
    if folded {
        "▸ "@
    } else {
        "▾ "@
    }
}

fn fold_icon_of(folded: bool) -> (out: &'static str)
    ensures
        out@ == fold_icon(folded),
{
    if folded {
        "▸ "
    } else {
        "▾ "
    }
}

/// The sign of a bell that rang.
pub open spec fn bell(rang: bool) -> Seq<char> {
    if rang {
        " 🔔"@
    } else {
        ""@
    }
}

fn bell_of(rang: bool) -> (out: &'static str)
    ensures
        out@ == bell(rang),
{
    if rang {
        " 🔔"
    } else {
        ""
    }
}

/// What a placeholder shows: a sign, a text and the look of the sign.
pub open spec fn placeholder_parts(kind: PlaceholderKind<Seq<char>>, frame: usize) -> (
    Seq<char>,
    Seq<char>,
    Style,
) {
    match kind {
        PlaceholderKind::LocalEmpty => (
            "○"@,
            "empty - no local sessions yet"@,
            fg(tokyo_comment()),
        ),
        PlaceholderKind::RemoteLoading => (
            spinner_frame(frame),
            "refreshing remote sessions..."@,
            fg(tokyo_yellow()),
        ),
        PlaceholderKind::RemoteEmpty => (
            "○"@,
            "empty - no remote sessions for this repo"@,
            fg(tokyo_comment()),
        ),
        PlaceholderKind::RemoteError(error) => (
            "!"@,
            "remote sessions unavailable: "@ + shortened(error, 48),
            fg(tokyo_red()),
        ),
    }
}

/// What a placeholder shows: a sign, a text and the look of the sign.
pub fn placeholder_display(kind: &PlaceholderKind, loading_frame: usize) -> (out: (
    String,
    String,
    Style,
))
    ensures
        (out.0@, out.1@, out.2) == placeholder_parts(kind@, loading_frame),
{
    match kind {
        PlaceholderKind::LocalEmpty => (
            "○".to_owned(),
            "empty - no local sessions yet".to_owned(),
            fg(tokyo_comment()),
        ),
        PlaceholderKind::RemoteLoading => (
            loading_icon(loading_frame).to_owned(),
            "refreshing remote sessions...".to_owned(),
            fg(tokyo_yellow()),
        ),
        PlaceholderKind::RemoteEmpty => (
            "○".to_owned(),
            "empty - no remote sessions for this repo".to_owned(),
            fg(tokyo_comment()),
        ),
        PlaceholderKind::RemoteError(error) => (
            "!".to_owned(),
            concat("remote sessions unavailable: ", &truncate(error, 48)),
            fg(tokyo_red()),
        ),
    }
}

/// The spinner of a project whose remote tasks are being listed.
pub open spec fn group_spinner(loading: bool, frame: usize) -> Seq<char> {
    if loading {
        " "@ + spinner_frame(frame)
    } else {
        ""@
    }
}

/// The row of a project.
pub open spec fn group_line(
    group: GroupView,
    collapsed: Set<Seq<char>>,
    width: nat,
    frame: usize,
) -> Seq<SpanView> {
    let icon = fold_icon(collapsed.contains(group.key));
    let ring = bell(group.has_bell);
    let loading = group_spinner(group.remote_loading, frame);
    let room = minus(minus(minus(width, icon.len()), ring.len()), loading.len());
    seq![
        span(icon, fg(tokyo_blue())),
        span(shortened(group.display_name, room), bold(tokyo_cyan())),
        span(ring, fg(tokyo_yellow())),
        span(loading, fg(tokyo_yellow())),
    ]
}

/// The row of the remote part of a project.
pub open spec fn remote_group_line(
    group: GroupView,
    is_last: bool,
    collapsed: Set<Seq<char>>,
    width: nat,
) -> Seq<SpanView> {
    let icon = fold_icon(collapsed.contains(remote_key(group.key)));
    let stem = branch(false, is_last);
    let count = " ("@ + decimal(group.counts.remote) + ")"@;
    let prefix = REMOTE_ICON@ + " "@;
    let room = minus(
        minus(minus(minus(width, stem.len()), icon.len()), prefix.len()),
        count.len(),
    );
    seq![
        span(stem, fg(tokyo_comment())),
        span(icon, fg(tokyo_purple())),
        span(prefix + shortened("remote"@, room), bold(tokyo_purple())),
        span(count, fg(tokyo_comment())),
    ]
}

/// The row of a session.
pub open spec fn session_line(
    session: ManagedSession<Seq<char>>,
    is_last: bool,
    under_remote: bool,
    width: nat,
) -> Seq<SpanView> {
    let stem = branch(under_remote, is_last);
    let icon = icon_of(session.status);
    let ring = bell(session.has_bell);
    let exited = if session.pane_dead {
        " exited"@
    } else {
        ""@
    };
    let room = minus(
        minus(
            minus(minus(minus(minus(width, stem.len()), icon.len()), 1), " copilot"@.len()),
            ring.len(),
        ),
        exited.len(),
    );
    seq![
        span(stem, fg(tokyo_comment())),
        span(icon, status_style(session.status)),
        span(" "@, plain()),
        span(shortened(session.display_name, room), fg(tokyo_fg())),
        span(" copilot"@, fg(tokyo_purple())),
        span(ring, fg(tokyo_yellow())),
        span(exited, fg(tokyo_red())),
    ]
}

/// The row of a task.
pub open spec fn task_line(
    session: RemoteSession<Seq<char>>,
    is_last: bool,
    under_remote: bool,
    width: nat,
) -> Seq<SpanView> {
    let stem = branch(under_remote, is_last);
    let icon = task_icon(session);
    let room = minus(minus(minus(width, stem.len()), icon.len()), 1);
    seq![
        span(stem, fg(tokyo_comment())),
        span(icon, task_style(session)),
        span(" "@, plain()),
        span(shortened(session.display_name, room), fg(tokyo_fg())),
    ]
}

/// The row of a placeholder.
pub open spec fn placeholder_line(
    kind: PlaceholderKind<Seq<char>>,
    is_last: bool,
    under_remote: bool,
    frame: usize,
) -> Seq<SpanView> {
    let parts = placeholder_parts(kind, frame);
    seq![
        span(branch(under_remote, is_last), fg(tokyo_comment())),
        span(parts.0, parts.2),
        span(" "@, plain()),
        span(parts.1, fg(tokyo_comment())),
    ]
}

/// A row of the tree, in the given width.
pub open spec fn row_line(
    row: TreeRow<Seq<char>>,
    groups: Seq<GroupView>,
    sessions: Seq<ManagedSession<Seq<char>>>,
    remote: Seq<RemoteSession<Seq<char>>>,
    collapsed: Set<Seq<char>>,
    width: nat,
    frame: usize,
) -> Seq<SpanView> {
    match row {
        TreeRow::Group { group_index } => group_line(
            groups[group_index as int],
            collapsed,
            width,
            frame,
        ),
        TreeRow::RemoteGroup { group_index, is_last } => remote_group_line(
            groups[group_index as int],
            is_last,
            collapsed,
            width,
        ),
        TreeRow::LocalSession { session_index, is_last, under_remote, .. } => session_line(
            sessions[session_index as int],
            is_last,
            under_remote,
            width,
        ),
        TreeRow::RemoteSession { remote_index, is_last, under_remote, .. } => task_line(
            remote[remote_index as int],
            is_last,
            under_remote,
            width,
        ),
        TreeRow::Placeholder { kind, is_last, under_remote, .. } => placeholder_line(
            kind,
            is_last,
            under_remote,
            frame,
        ),
    }
}

fn group_item(group: &ProjectGroup, collapsed_groups: &TextSet, width: usize, frame: usize) -> (out:
    Line)
    ensures
        out@ == group_line(group@, collapsed_groups@, width as nat, frame),
{
    let ring = bell_of(group.has_bell);
    let loading = if group.remote_loading {
        concat(" ", loading_icon(frame))
    } else {
        "".to_owned()
    };
    let icon = fold_icon_of(collapsed_groups.contains(&group.key));
    let room = less(
        less(less(width, count_chars(icon)), count_chars(ring)),
        count_chars(&loading),
    );
    let mut line = Line::new();
    line.put(icon, fg(tokyo_blue()));
    line.put(&truncate(&group.display_name, room), bold(tokyo_cyan()));
    line.put(ring, fg(tokyo_yellow()));
    line.put(&loading, fg(tokyo_yellow()));
    assert(line@ == group_line(group@, collapsed_groups@, width as nat, frame));
    line
}

fn remote_group_item(
    group: &ProjectGroup,
    is_last: bool,
    collapsed_groups: &TextSet,
    width: usize,
) -> (out: Line)
    ensures
        out@ == remote_group_line(group@, is_last, collapsed_groups@, width as nat),
{
    let icon = fold_icon_of(collapsed_groups.contains(&remote_group_key(&group.key)));
    let stem = branch_of(false, is_last);
    let count = concat(&concat(" (", &count_text(group.counts.remote)), ")");
    let prefix = concat(REMOTE_ICON, " ");
    let room = less(
        less(less(less(width, count_chars(stem)), count_chars(icon)), count_chars(&prefix)),
        count_chars(&count),
    );
    let mut line = Line::new();
    line.put(stem, fg(tokyo_comment()));
    line.put(icon, fg(tokyo_purple()));
    line.put(&concat(&prefix, &truncate("remote", room)), bold(tokyo_purple()));
    line.put(&count, fg(tokyo_comment()));
    assert(line@ == remote_group_line(group@, is_last, collapsed_groups@, width as nat));
    line
}

fn session_item(session: &ManagedSession, is_last: bool, under_remote: bool, width: usize) -> (out:
    Line)
    ensures
        out@ == session_line(session@, is_last, under_remote, width as nat),
{
    let stem = branch_of(under_remote, is_last);
    let icon = status_icon(session.status);
    let ring = bell_of(session.has_bell);
    let exited = if session.pane_dead { " exited" } else { "" };
    let room = less(
        less(
            less(
                less(less(less(width, count_chars(stem)), count_chars(icon)), 1),
                count_chars(" copilot"),
            ),
            count_chars(ring),
        ),
        count_chars(exited),
    );
    let mut line = Line::new();
    line.put(stem, fg(tokyo_comment()));
    line.put(icon, status_style(session.status));
    line.put(" ", plain());
    line.put(&truncate(&session.display_name, room), fg(tokyo_fg()));
    line.put(" copilot", fg(tokyo_purple()));
    line.put(ring, fg(tokyo_yellow()));
    line.put(exited, fg(tokyo_red()));
    assert(line@ == session_line(session@, is_last, under_remote, width as nat));
    line
}

fn task_item(session: &RemoteSession, is_last: bool, under_remote: bool, width: usize) -> (out: Line)
    ensures
        out@ == task_line(session@, is_last, under_remote, width as nat),
{
    let stem = branch_of(under_remote, is_last);
    let icon = remote_status_icon(session);
    let room = less(less(less(width, count_chars(stem)), count_chars(icon)), 1);
    let mut line = Line::new();
    line.put(stem, fg(tokyo_comment()));
    line.put(icon, remote_status_style(session));
    line.put(" ", plain());
    line.put(&truncate(&session.display_name, room), fg(tokyo_fg()));
    assert(line@ == task_line(session@, is_last, under_remote, width as nat));
    line
}

fn placeholder_item(kind: &PlaceholderKind, is_last: bool, under_remote: bool, frame: usize) -> (out:
    Line)
    ensures
        out@ == placeholder_line(kind@, is_last, under_remote, frame),
{
    let parts = placeholder_display(kind, frame);
    let mut line = Line::new();
    line.put(branch_of(under_remote, is_last), fg(tokyo_comment()));
    line.put(&parts.0, parts.2);
    line.put(" ", plain());
    line.put(&parts.1, fg(tokyo_comment()));
    assert(line@ == placeholder_line(kind@, is_last, under_remote, frame));
    line
}

/// A row of the tree, in the given width.
pub fn tree_item(
    row: &TreeRow,
    groups: &Vec<ProjectGroup>,
    sessions: &Vec<ManagedSession>,
    remote_sessions: &Vec<RemoteSession>,
    collapsed_groups: &TextSet,
    content_width: usize,
    loading_frame: usize,
) -> (out: Line)
    requires
        row_fits(row@, groups@.len(), sessions@.len(), remote_sessions@.len()),
    ensures
        out@ == row_line(
            row@,
            views(groups@),
            views(sessions@),
            views(remote_sessions@),
            collapsed_groups@,
            content_width as nat,
            loading_frame,
        ),
{
    match row {
        TreeRow::Group { group_index } => group_item(
            &groups[*group_index],
            collapsed_groups,
            content_width,
            loading_frame,
        ),
        TreeRow::RemoteGroup { group_index, is_last } => remote_group_item(
            &groups[*group_index],
            *is_last,
            collapsed_groups,
            content_width,
        ),
        TreeRow::LocalSession { session_index, is_last, under_remote, .. } => session_item(
            &sessions[*session_index],
            *is_last,
            *under_remote,
            content_width,
        ),
        TreeRow::RemoteSession { remote_index, is_last, under_remote, .. } => task_item(
            &remote_sessions[*remote_index],
            *is_last,
            *under_remote,
            content_width,
        ),
        TreeRow::Placeholder { kind, is_last, under_remote, .. } => placeholder_item(
            kind,
            *is_last,
            *under_remote,
            loading_frame,
        ),
    }
}


/// The rows of the tree as they are shown.
pub open spec fn shown_rows(app: AppView, width: nat, frame: usize) -> Seq<Seq<SpanView>> {
    Seq::new(
        app.rows().len(),
        |i: int|
            row_line(
                app.rows()[i],
                app.groups(),
                app.sessions,
                app.remote_sessions,
                app.collapsed,
                width,
                frame,
            ),
    )
}

/// The rows of the tree as they are shown, in the given width.
pub fn session_items(app: &App, content_width: usize, loading_frame: usize) -> (out: Vec<Line>)
    requires
        app@.fits(),
    ensures
        views(out@) == shown_rows(app@, content_width as nat, loading_frame),
{
    let groups = app.project_groups();
    let rows = crate::groups::tree_rows(&groups, &app.collapsed_groups, app.active_filter);
    let ghost shown = views(rows@);
    proof {
        crate::groups::tree_rows_fit(views(groups@), app@.scene(), app@.collapsed);
    }
    let ghost wanted = shown_rows(app@, content_width as nat, loading_frame);
    let mut out: Vec<Line> = Vec::new();
    let mut i: usize = 0;
    while i < rows.len()
        invariant
            i <= rows.len(),
            shown == views(rows@),
            shown == app@.rows(),
            views(groups@) == app@.groups(),
            rows_fit(shown, groups@.len(), app.sessions@.len(), app.remote_sessions@.len()),
            wanted == shown_rows(app@, content_width as nat, loading_frame),
            views(out@) == wanted.take(i as int),
        decreases rows.len() - i,
    {
        assert(row_fits(
            shown[i as int],
            groups@.len(),
            app.sessions@.len(),
            app.remote_sessions@.len(),
        ));
        let line = tree_item(
            &rows[i],
            &groups,
            &app.sessions,
            &app.remote_sessions,
            &app.collapsed_groups,
            content_width,
            loading_frame,
        );
        assert(line@ == wanted[i as int]);
        assert(wanted.take(i + 1) == wanted.take(i as int).push(line@));
        put_line(&mut out, line);
        i += 1;
    }
    assert(wanted.take(rows@.len() as int) == wanted);
    out
}

/// What is said where no row is shown, with the name of the filter in small letters.
pub open spec fn nothing_text(name: Seq<char>) -> Seq<char> {
    "No "@ + name + " sessions.\n\nPress Tab to change filters or n to start Copilot."@
}

/// What is said where no row is shown, with the name of the filter in small letters.
pub fn nothing_message(name: &str) -> (out: String)
    ensures
        out@ == nothing_text(name@),
{
    concat(
        &concat("No ", name),
        " sessions.\n\nPress Tab to change filters or n to start Copilot.",
    )
}

/// What is said where no row is shown.
pub fn empty_message(filter: SessionFilter) -> (out: String)
    ensures
        out@ == nothing_text(lowered(filter.name())),
{
    proof {
        filter_names_are_ascii(filter);
    }
    nothing_message(&filter.label().to_lowercase())
}

proof fn filter_names_are_ascii(filter: SessionFilter)
    ensures
        vstd::utf8::is_ascii_chars(filter.name()),
{
    reveal_strlit("All");
    reveal_strlit("Waiting");
    reveal_strlit("Done");
    reveal_strlit("Busy");
    reveal_strlit("Idle");
    reveal_strlit("Remote");
}

// ---------------------------------------------------------------------------
// Header
// ---------------------------------------------------------------------------
/// The colour of a filter.
#[verifier::allow_in_spec]
pub fn filter_color(filter: SessionFilter) -> Color
    returns
        (match filter {
            SessionFilter::All => tokyo_blue(),
            SessionFilter::Waiting => tokyo_yellow(),
            SessionFilter::Done => tokyo_green(),
            SessionFilter::Busy => tokyo_blue(),
            SessionFilter::Idle => tokyo_comment(),
            SessionFilter::Remote => tokyo_purple(),
        }),
{
    match filter {
        SessionFilter::All => tokyo_blue(),
        SessionFilter::Waiting => tokyo_yellow(),
        SessionFilter::Done => tokyo_green(),
        SessionFilter::Busy => tokyo_blue(),
        SessionFilter::Idle => tokyo_comment(),
        SessionFilter::Remote => tokyo_purple(),
    }
}

/// A sign with a number.
pub open spec fn counted(icon: Seq<char>, count: nat) -> Seq<char> {
    " "@ + icon + " "@ + decimal(count) + " "@
}

/// What a filter is shown as: by its sign and the number of its sessions.
pub open spec fn filter_text(filter: SessionFilter, counts: StatusCounts<nat>) -> Seq<char> {
    match filter {
        SessionFilter::All => " All "@,
        SessionFilter::Waiting => counted(icon_of(SessionStatus::Waiting), counts.waiting),
        SessionFilter::Done => counted(icon_of(SessionStatus::Done), counts.done),
        SessionFilter::Busy => counted(icon_of(SessionStatus::Busy), counts.busy),
        SessionFilter::Idle => counted(icon_of(SessionStatus::Idle), counts.idle),
        SessionFilter::Remote => counted(REMOTE_ICON@, counts.remote),
    }
}

/// A filter, on its colour where it is the active one.
pub open spec fn filter_part(
    filter: SessionFilter,
    active: SessionFilter,
    counts: StatusCounts<nat>,
) -> SpanView {
    span(
        filter_text(filter, counts),
        if filter == active {
            bold_on(tokyo_bg(), filter_color(filter))
        } else {
            fg(filter_color(filter))
        },
    )
}

/// The line of the filters.
pub open spec fn filter_spans(
    active: SessionFilter,
    counts: StatusCounts<nat>,
    remote_enabled: bool,
) -> Seq<SpanView> {
    let filters = seq![
        filter_part(SessionFilter::All, active, counts),
        span("  "@, plain()),
        filter_part(SessionFilter::Waiting, active, counts),
        span("  "@, plain()),
        filter_part(SessionFilter::Done, active, counts),
        span("  "@, plain()),
        filter_part(SessionFilter::Busy, active, counts),
        span("  "@, plain()),
        filter_part(SessionFilter::Idle, active, counts),
        span("  "@, plain()),
        filter_part(SessionFilter::Remote, active, counts),
    ];
    if remote_enabled {
        filters.push(span("   remote on"@, fg(tokyo_comment())))
    } else {
        filters
    }
}

fn counted_text(icon: &str, count: usize) -> (out: String)
    ensures
        out@ == counted(icon@, count as nat),
{
    concat(&concat(&concat(&concat(" ", icon), " "), &count_text(count)), " ")
}

fn put_filter(line: &mut Line, filter: SessionFilter, active: SessionFilter, counts: StatusCounts)
    ensures
        final(line)@ == old(line)@.push(filter_part(filter, active, counts@)),
{
    let label = match filter {
        SessionFilter::All => " All ".to_owned(),
        SessionFilter::Waiting => counted_text(status_icon(SessionStatus::Waiting), counts.waiting),
        SessionFilter::Done => counted_text(status_icon(SessionStatus::Done), counts.done),
        SessionFilter::Busy => counted_text(status_icon(SessionStatus::Busy), counts.busy),
        SessionFilter::Idle => counted_text(status_icon(SessionStatus::Idle), counts.idle),
        SessionFilter::Remote => counted_text(REMOTE_ICON, counts.remote),
    };
    let style = if filter == active {
        bold_on(tokyo_bg(), filter_color(filter))
    } else {
        fg(filter_color(filter))
    };
    line.put(&label, style);
}

/// The line of the filters.
pub fn filter_line(active_filter: SessionFilter, counts: StatusCounts, remote_enabled: bool) -> (out:
    Line)
    ensures
        out@ == filter_spans(active_filter, counts@, remote_enabled),
{
    let mut line = Line::new();
    put_filter(&mut line, SessionFilter::All, active_filter, counts);
    line.put("  ", plain());
    put_filter(&mut line, SessionFilter::Waiting, active_filter, counts);
    line.put("  ", plain());
    put_filter(&mut line, SessionFilter::Done, active_filter, counts);
    line.put("  ", plain());
    put_filter(&mut line, SessionFilter::Busy, active_filter, counts);
    line.put("  ", plain());
    put_filter(&mut line, SessionFilter::Idle, active_filter, counts);
    line.put("  ", plain());
    put_filter(&mut line, SessionFilter::Remote, active_filter, counts);
    if remote_enabled {
        line.put("   remote on", fg(tokyo_comment()));
    }
    assert(line@ == filter_spans(active_filter, counts@, remote_enabled));
    line
}

/// The counts of all sessions.
pub open spec fn local_counts(sessions: Seq<ManagedSession<Seq<char>>>) -> StatusCounts<nat>
    decreases sessions.len(),
{
    if sessions.len() == 0 {
        crate::groups::no_counts()
    } else {
        local_counts(sessions.drop_last()).plus(sessions.last().status, sessions.last().is_remote)
    }
}

/// The counts of all sessions and tasks.
pub open spec fn all_counts(
    sessions: Seq<ManagedSession<Seq<char>>>,
    remote: Seq<RemoteSession<Seq<char>>>,
) -> StatusCounts<nat>
    decreases remote.len(),
{
    if remote.len() == 0 {
        local_counts(sessions)
    } else {
        all_counts(sessions, remote.drop_last()).plus(remote.last().status, true)
    }
}

/// Every session and every task is counted.
pub proof fn nothing_goes_uncounted(
    sessions: Seq<ManagedSession<Seq<char>>>,
    remote: Seq<RemoteSession<Seq<char>>>,
)
    ensures
        all_counts(sessions, remote).is_balanced(),
        all_counts(sessions, remote).total() == sessions.len() + remote.len(),
    decreases remote.len(), sessions.len(),
{
    if remote.len() > 0 {
        nothing_goes_uncounted(sessions, remote.drop_last());
    } else if sessions.len() > 0 {
        nothing_goes_uncounted(sessions.drop_last(), remote);
    }
}

impl StatusCounts<usize> {
    /// The counts of all sessions and tasks.
    pub fn from_sources(sessions: &Vec<ManagedSession>, remote_sessions: &Vec<RemoteSession>) -> (out:
        StatusCounts)
        requires
            sessions@.len() + remote_sessions@.len() <= usize::MAX,
        ensures
            out@ == all_counts(views(sessions@), views(remote_sessions@)),
    {
        let mut counts: StatusCounts = StatusCounts::default();
        let ghost local = views(sessions@);
        let ghost remote = views(remote_sessions@);
        let mut i: usize = 0;
        while i < sessions.len()
            invariant
                i <= sessions.len(),
                local == views(sessions@),
                counts@ == local_counts(local.take(i as int)),
                counts@.is_balanced(),
                counts@.total() == i,
                sessions@.len() + remote_sessions@.len() <= usize::MAX,
            decreases sessions.len() - i,
        {
            assert(local.take(i + 1).drop_last() == local.take(i as int));
            assert(local.take(i + 1).last() == sessions@[i as int]@);
            counts.count(sessions[i].status, sessions[i].is_remote);
            i += 1;
        }
        assert(local.take(sessions@.len() as int) == local);
        let mut i: usize = 0;
        assert(all_counts(local, remote.take(0)) == local_counts(local));
        while i < remote_sessions.len()
            invariant
                i <= remote_sessions.len(),
                remote == views(remote_sessions@),
                counts@ == all_counts(local, remote.take(i as int)),
                counts@.is_balanced(),
                counts@.total() == sessions@.len() + i,
                sessions@.len() + remote_sessions@.len() <= usize::MAX,
            decreases remote_sessions.len() - i,
        {
            assert(remote.take(i + 1).drop_last() == remote.take(i as int));
            assert(remote.take(i + 1).last() == remote_sessions@[i as int]@);
            counts.count(remote_sessions[i].status, true);
            i += 1;
        }
        assert(remote.take(remote_sessions@.len() as int) == remote);
        counts
    }
}

/// The header: the name of the program and the filters.
pub fn header_lines(app: &App) -> (out: Vec<Line>)
    requires
        app@.fits(),
    ensures
        views(out@) == seq![
            seq![span("gh pilot"@, bold(tokyo_blue()))],
            filter_spans(
                app@.filter,
                all_counts(app@.sessions, app@.remote_sessions),
                app@.remote_enabled,
            ),
        ],
{
    let counts = StatusCounts::from_sources(&app.sessions, &app.remote_sessions);
    let mut out: Vec<Line> = Vec::new();
    put_line(&mut out, Line::of("gh pilot", bold(tokyo_blue())));
    put_line(&mut out, filter_line(app.active_filter, counts, app.remote_enabled));
    assert(views(out@) == seq![
        seq![span("gh pilot"@, bold(tokyo_blue()))],
        filter_spans(
            app@.filter,
            all_counts(app@.sessions, app@.remote_sessions),
            app@.remote_enabled,
        ),
    ]);
    out
}

// ---------------------------------------------------------------------------
// Footer
// ---------------------------------------------------------------------------
/// The shortcuts behind what the footer holds, as many as fit. Where not even the first fits, it is
/// cut.
pub open spec fn footer_parts(output: Seq<char>, shortcuts: Seq<Seq<char>>, width: nat) -> Seq<char>
    decreases shortcuts.len(),
{
    if shortcuts.len() == 0 {
        output
    } else {
        let separator = if output.len() == 0 {
            ""@
        } else {
            " • "@
        };
        if output.len() + separator.len() + shortcuts[0].len() <= width {
            footer_parts(output + separator + shortcuts[0], shortcuts.skip(1), width)
        } else if output.len() == 0 {
            shortened(shortcuts[0], width)
        } else {
            output
        }
    }
}

/// A message cut so that the first shortcut fits behind it, where there is room for both.
pub open spec fn fitted_prefix(prefix: Seq<char>, width: nat, first: Option<Seq<char>>) -> Seq<char> {
    match first {
        Some(shortcut) => {
            let reserved = shortcut.len() + " • "@.len();
            if width > reserved + 3 {
                shortened(prefix, (width - reserved) as nat)
            } else {
                shortened(prefix, width)
            }
        },
        None => shortened(prefix, width),
    }
}

/// A footer of a message and shortcuts.
pub open spec fn footer(prefix: Option<Seq<char>>, width: nat, shortcuts: Seq<Seq<char>>) -> Seq<char> {
    if width == 0 {
        ""@
    } else {
        let start = match prefix {
            Some(prefix) => fitted_prefix(
                prefix,
                width,
                if shortcuts.len() > 0 {
                    Some(shortcuts[0])
                } else {
                    None
                },
            ),
            None => ""@,
        };
        footer_parts(start, shortcuts, width)
    }
}

proof fn footer_parts_fit(output: Seq<char>, shortcuts: Seq<Seq<char>>, width: nat)
    requires
        output.len() <= width,
    ensures
        footer_parts(output, shortcuts, width).len() <= width,
    decreases shortcuts.len(),
{
    if shortcuts.len() > 0 {
        reveal_strlit("");
        shortened_fits(shortcuts[0], width);
        let separator = if output.len() == 0 {
            ""@
        } else {
            " • "@
        };
        if output.len() + separator.len() + shortcuts[0].len() <= width {
            footer_parts_fit(output + separator + shortcuts[0], shortcuts.skip(1), width);
        }
    }
}

/// A footer takes up no more than its width.
pub proof fn footer_fits(prefix: Option<Seq<char>>, width: nat, shortcuts: Seq<Seq<char>>)
    ensures
        footer(prefix, width, shortcuts).len() <= width,
{
    reveal_strlit("");
    match prefix {
        Some(prefix) => {
            shortened_fits(prefix, width);
            if shortcuts.len() > 0 {
                let reserved = shortcuts[0].len() + " • "@.len();
                if width > reserved + 3 {
                    shortened_fits(prefix, (width - reserved) as nat);
                }
            }
        },
        None => {},
    }
    if width > 0 {
        let start = match prefix {
            Some(prefix) => fitted_prefix(
                prefix,
                width,
                if shortcuts.len() > 0 {
                    Some(shortcuts[0])
                } else {
                    None
                },
            ),
            None => ""@,
        };
        footer_parts_fit(start, shortcuts, width);
    }
}

fn fit_footer_prefix(prefix: &str, width: usize, first_shortcut: Option<&str>) -> (out: String)
    ensures
        out@ == fitted_prefix(
            prefix@,
            width as nat,
            match first_shortcut {
                Some(shortcut) => Some(shortcut@),
                None => None,
            },
        ),
{
    match first_shortcut {
        Some(shortcut) => {
            let gap: usize = count_chars(" • ");
            let word: usize = count_chars(shortcut);
            if width > 3 && width - 3 > gap && width - 3 - gap > word {
                truncate(prefix, width - word - gap)
            } else {
                truncate(prefix, width)
            }
        },
        None => truncate(prefix, width),
    }
}

fn fits_behind(output: &str, separator: &str, part: &str, width: usize) -> (yes: bool)
    ensures
        yes == (output@.len() + separator@.len() + part@.len() <= width),
{
    let a: usize = count_chars(output);
    let b: usize = count_chars(separator);
    let c: usize = count_chars(part);
    a <= width && b <= width - a && c <= width - a - b
}

/// A footer of a message and shortcuts, in the given width.
pub fn footer_line(prefix: Option<&str>, width: usize, shortcuts: &Vec<&str>) -> (out: String)
    ensures
        out@ == footer(
            match prefix {
                Some(prefix) => Some(prefix@),
                None => None,
            },
            width as nat,
            views(shortcuts@),
        ),
{
    if width == 0 {
        return "".to_owned();
    }
    let ghost all = views(shortcuts@);
    let first = if shortcuts.len() > 0 {
        assert(all[0] == shortcuts@[0]@);
        Some(shortcuts[0])
    } else {
        None
    };
    let mut output = match prefix {
        Some(prefix) => fit_footer_prefix(prefix, width, first),
        None => "".to_owned(),
    };
    let ghost start = output@;
    let mut i: usize = 0;
    assert(all.skip(0) == all);
    while i < shortcuts.len()
        invariant
            i <= shortcuts.len(),
            all == views(shortcuts@),
            footer_parts(output@, all.skip(i as int), width as nat) == footer_parts(
                start,
                all,
                width as nat,
            ),
            width > 0,
            footer_parts(start, all, width as nat) == footer(
                match prefix {
                    Some(prefix) => Some(prefix@),
                    None => None,
                },
                width as nat,
                views(shortcuts@),
            ),
        decreases shortcuts.len() - i,
    {
        assert(all.skip(i as int)[0] == shortcuts@[i as int]@);
        assert(all.skip(i as int).skip(1) == all.skip(i + 1));
        let separator = if count_chars(&output) == 0 { "" } else { " • " };
        if fits_behind(&output, separator, shortcuts[i], width) {
            output = concat(&concat(&output, separator), shortcuts[i]);
        } else if count_chars(&output) == 0 {
            return truncate(shortcuts[i], width);
        } else {
            return output;
        }
        i += 1;
    }
    output
}

/// The shortcuts of the selected row, the project's among them.
pub open spec fn row_shortcuts(app: AppView) -> Seq<Seq<char>> {
    match app.row() {
        Some(TreeRow::Group { .. }) => seq!["←/→ tree"@, "Enter toggle"@, "d remove project"@],
        Some(TreeRow::RemoteGroup { .. }) => seq![
            "←/→ tree"@,
            "Enter toggle"@,
            "d remove project"@,
        ],
        Some(TreeRow::LocalSession { .. }) => seq!["Enter open"@, "x close"@, "d remove project"@],
        Some(TreeRow::RemoteSession { remote_index, .. }) => if remote_index
            < app.remote_sessions.len() && app.remote_sessions[remote_index as int].pr_url is Some {
            seq!["Enter open"@, "w web"@, "p PR"@, "d remove project"@]
        } else {
            seq!["Enter open"@, "w web"@, "d remove project"@]
        },
        Some(TreeRow::Placeholder { .. }) => seq!["d remove project"@],
        None => seq![],
    }
}

/// The shortcuts that the footer shows.
pub open spec fn shortcuts_of(app: AppView) -> Seq<Seq<char>> {
    seq![
        "? help"@,
        "⇥/⇤ filters"@,
        "n new"@,
        "N new local"@,
        "P new project"@,
        "r refresh"@,
    ] + row_shortcuts(app) + (if app.sessions.len() == 0 {
        seq![]
    } else {
        seq!["X close all"@]
    }) + seq!["q quit"@]
}

/// The shortcuts that the footer shows.
pub fn footer_shortcuts(app: &App) -> (out: Vec<&'static str>)
    requires
        app@.fits(),
    ensures
        views(out@) == shortcuts_of(app@),
{
    let mut out: Vec<&'static str> = vec![
        "? help",
        "⇥/⇤ filters",
        "n new",
        "N new local",
        "P new project",
        "r refresh",
    ];
    let row = app.selected_tree_row();
    assert(opt_view(row) == app@.row());
    let mut has_project = false;
    match row {
        Some(TreeRow::Group { .. }) => {
            has_project = true;
            out.push("←/→ tree");
            out.push("Enter toggle");
        },
        Some(TreeRow::RemoteGroup { .. }) => {
            has_project = true;
            out.push("←/→ tree");
            out.push("Enter toggle");
        },
        Some(TreeRow::LocalSession { .. }) => {
            has_project = true;
            out.push("Enter open");
            out.push("x close");
        },
        Some(TreeRow::RemoteSession { remote_index, .. }) => {
            has_project = true;
            out.push("Enter open");
            out.push("w web");
            if remote_index < app.remote_sessions.len()
                && app.remote_sessions[remote_index].pr_url.is_some() {
                out.push("p PR");
            }
        },
        Some(TreeRow::Placeholder { .. }) => {
            has_project = true;
        },
        None => {},
    }
    if has_project {
        out.push("d remove project");
    }
    if app.sessions.len() > 0 {
        out.push("X close all");
    }
    out.push("q quit");
    assert(views(out@) == shortcuts_of(app@));
    out
}

/// The footer: what is asked, or the message and the shortcuts.
pub open spec fn footer_of(app: AppView, width: nat) -> Seq<char> {
    match app.input {
        Some(InputMode::NewSessionDirectory { buffer, remote_enabled, .. }) => shortened(
            if remote_enabled {
                "Start remote session in repo"@
            } else {
                "Start local session in repo"@
            } + ": "@ + buffer + "█  • Tab complete • Enter create • Esc cancel"@,
            width,
        ),
        Some(InputMode::NewProjectDirectory { buffer, .. }) => shortened(
            "Add project repo"@ + ": "@ + buffer
                + "█  • Tab complete • Enter create • Esc cancel"@,
            width,
        ),
        None => if app.confirm_close_all {
            footer(
                Some("Close all managed sessions? y confirm • n/Esc cancel"@),
                width,
                seq!["? help"@],
            )
        } else {
            footer(
                if app.message.len() == 0 {
                    None
                } else {
                    Some(app.message)
                },
                width,
                shortcuts_of(app),
            )
        },
    }
}

fn prompt_footer(label: &str, buffer: &str, width: usize) -> (out: String)
    ensures
        out@ == shortened(
            label@ + ": "@ + buffer@ + "█  • Tab complete • Enter create • Esc cancel"@,
            width as nat,
        ),
{
    let text = concat(
        &concat(&concat(label, ": "), buffer),
        "█  • Tab complete • Enter create • Esc cancel",
    );
    truncate(&text, width)
}

/// The footer, in the given width.
pub fn footer_text(app: &App, width: usize) -> (out: String)
    requires
        app@.fits(),
    ensures
        out@ == footer_of(app@, width as nat),
{
    match &app.input_mode {
        Some(InputMode::NewSessionDirectory { buffer, remote_enabled, .. }) => {
            let label = if *remote_enabled {
                "Start remote session in repo"
            } else {
                "Start local session in repo"
            };
            return prompt_footer(label, buffer, width);
        },
        Some(InputMode::NewProjectDirectory { buffer, .. }) => {
            return prompt_footer("Add project repo", buffer, width);
        },
        None => {},
    }
    if app.confirm_close_all {
        let shortcuts: Vec<&str> = vec!["? help"];
        assert(views(shortcuts@) == seq!["? help"@]);
        return footer_line(
            Some("Close all managed sessions? y confirm • n/Esc cancel"),
            width,
            &shortcuts,
        );
    }
    let shortcuts = footer_shortcuts(app);
    if count_chars(&app.message) == 0 {
        footer_line(None, width, &shortcuts)
    } else {
        footer_line(Some(&app.message), width, &shortcuts)
    }
}

/// What the footer shows takes up no more than its width.
pub proof fn shown_footer_fits(app: AppView, width: nat)
    ensures
        footer_of(app, width).len() <= width,
{
    match app.input {
        Some(InputMode::NewSessionDirectory { buffer, remote_enabled, .. }) => {
            shortened_fits(
                if remote_enabled {
                    "Start remote session in repo"@
                } else {
                    "Start local session in repo"@
                } + ": "@ + buffer + "█  • Tab complete • Enter create • Esc cancel"@,
                width,
            );
        },
        Some(InputMode::NewProjectDirectory { buffer, .. }) => {
            shortened_fits(
                "Add project repo"@ + ": "@ + buffer
                    + "█  • Tab complete • Enter create • Esc cancel"@,
                width,
            );
        },
        None => {
            footer_fits(
                Some("Close all managed sessions? y confirm • n/Esc cancel"@),
                width,
                seq!["? help"@],
            );
            footer_fits(Some(app.message), width, shortcuts_of(app));
            footer_fits(None, width, shortcuts_of(app));
        },
    }
}


// ---------------------------------------------------------------------------
// The list of shortcuts
// ---------------------------------------------------------------------------
/// A text with spaces behind it, up to a width.
pub open spec fn padded(s: Seq<char>, width: nat) -> Seq<char> {
    if s.len() >= width {
        s
    } else {
        s + Seq::new((width - s.len()) as nat, |i: int| ' ')
    }
}

/// A text with spaces behind it, up to a width.
pub fn padded_text(text: &str, width: usize) -> (out: String)
    ensures
        out@ == padded(text@, width as nat),
{
    let mut out = text.to_owned();
    let ghost start = text@;
    let mut n: usize = count_chars(text);
    while n < width
        invariant
            n == out@.len(),
            start.len() <= n,
            start.len() < width ==> n <= width,
            start.len() >= width ==> n == start.len(),
            out@ == start + Seq::new((n - start.len()) as nat, |i: int| ' '),
        decreases width - n,
    {
        out.push(' ');
        n += 1;
    }
    assert(start + Seq::<char>::empty() == start);
    assert(out@ == padded(text@, width as nat));
    out
}

/// A heading in the list of shortcuts.
pub open spec fn help_section(label: Seq<char>) -> Seq<SpanView> {
    seq![span(label, bold(tokyo_purple()))]
}

/// A shortcut in the list.
pub open spec fn help_item(keys: Seq<char>, description: Seq<char>) -> Seq<SpanView> {
    seq![span(padded(keys, 16), fg(tokyo_blue())), span(description, fg(tokyo_fg()))]
}

fn shortcut_help_section(label: &str) -> (out: Line)
    ensures
        out@ == help_section(label@),
{
    Line::of(label, bold(tokyo_purple()))
}

fn shortcut_help_item(keys: &str, description: &str) -> (out: Line)
    ensures
        out@ == help_item(keys@, description@),
{
    let mut line = Line::new();
    line.put(&padded_text(keys, 16), fg(tokyo_blue()));
    line.put(description, fg(tokyo_fg()));
    assert(line@ == help_item(keys@, description@));
    line
}

/// The list of shortcuts.
pub open spec fn help_text() -> Seq<Seq<SpanView>> {
    seq![
        seq![span("? / Esc / q close   ↑↓ or j/k scroll   PgUp/PgDn page   mouse wheel scroll"@, fg(tokyo_comment()))],
        seq![],
        help_section("Navigation"@),
        help_item("↑/↓ or j/k"@, "select previous/next row"@),
        help_item("←/→"@, "collapse or expand the selected project tree"@),
        help_item("Tab / Shift+Tab"@, "cycle status filters"@),
        help_item("Enter or o"@, "open a session, or toggle a project/remote group"@),
        seq![],
        help_section("Sessions"@),
        help_item("n"@, "start a Copilot session in the selected project"@),
        help_item("N"@, "start a local Copilot session in another repo/directory"@),
        help_item("P"@, "add another repo/directory as a project without starting a session"@),
        help_item("Tab / Shift+Tab"@, "complete or cycle recent repo paths in the prompt"@),
        help_item("d"@, "remove the selected project and close its managed local sessions"@),
        help_item("x"@, "close the selected local managed session"@),
        help_item("X"@, "close all local managed sessions after confirmation"@),
        help_item("w"@, "open the selected remote session in the browser"@),
        help_item("p"@, "open the selected remote session's pull request when present"@),
        help_item("r"@, "refresh local sessions and remote tasks"@),
        seq![],
        help_section("Prompts"@),
        help_item("Enter"@, "create the session or project while entering a repo path"@),
        help_item("Esc"@, "cancel a prompt, confirmation, or this shortcut list"@),
        help_item("y / n"@, "confirm or cancel close-all"@),
        help_item("q"@, "quit gh-pilot when the shortcut list is closed"@),
        seq![],
        seq![span("Remote rows open locally through copilot --resume=<id>."@, fg(tokyo_comment()))],
    ]
}

/// The list of shortcuts.
pub fn shortcut_help_lines() -> (out: Vec<Line>)
    ensures
        views(out@) == help_text(),
        out@.len() == HELP_LINES,
{
    let mut out: Vec<Line> = Vec::new();
    put_line(&mut out, Line::of("? / Esc / q close   ↑↓ or j/k scroll   PgUp/PgDn page   mouse wheel scroll", fg(tokyo_comment())));
    put_line(&mut out, Line::new());
    put_line(&mut out, shortcut_help_section("Navigation"));
    put_line(&mut out, shortcut_help_item("↑/↓ or j/k", "select previous/next row"));
    put_line(&mut out, shortcut_help_item("←/→", "collapse or expand the selected project tree"));
    put_line(&mut out, shortcut_help_item("Tab / Shift+Tab", "cycle status filters"));
    put_line(&mut out, shortcut_help_item("Enter or o", "open a session, or toggle a project/remote group"));
    put_line(&mut out, Line::new());
    put_line(&mut out, shortcut_help_section("Sessions"));
    put_line(&mut out, shortcut_help_item("n", "start a Copilot session in the selected project"));
    put_line(&mut out, shortcut_help_item("N", "start a local Copilot session in another repo/directory"));
    put_line(&mut out, shortcut_help_item("P", "add another repo/directory as a project without starting a session"));
    put_line(&mut out, shortcut_help_item("Tab / Shift+Tab", "complete or cycle recent repo paths in the prompt"));
    put_line(&mut out, shortcut_help_item("d", "remove the selected project and close its managed local sessions"));
    put_line(&mut out, shortcut_help_item("x", "close the selected local managed session"));
    put_line(&mut out, shortcut_help_item("X", "close all local managed sessions after confirmation"));
    put_line(&mut out, shortcut_help_item("w", "open the selected remote session in the browser"));
    put_line(&mut out, shortcut_help_item("p", "open the selected remote session's pull request when present"));
    put_line(&mut out, shortcut_help_item("r", "refresh local sessions and remote tasks"));
    put_line(&mut out, Line::new());
    put_line(&mut out, shortcut_help_section("Prompts"));
    put_line(&mut out, shortcut_help_item("Enter", "create the session or project while entering a repo path"));
    put_line(&mut out, shortcut_help_item("Esc", "cancel a prompt, confirmation, or this shortcut list"));
    put_line(&mut out, shortcut_help_item("y / n", "confirm or cancel close-all"));
    put_line(&mut out, shortcut_help_item("q", "quit gh-pilot when the shortcut list is closed"));
    put_line(&mut out, Line::new());
    put_line(&mut out, Line::of("Remote rows open locally through copilot --resume=<id>.", fg(tokyo_comment())));
    assert(views(out@) == help_text());
    assert(views(out@).len() == out@.len());
    out
}

/// A rectangle of the screen.
#[derive(Debug, Clone, Copy, PartialEq, Eq, Structural)]
pub struct Area {
    pub x: u16,
    pub y: u16,
    pub width: u16,
    pub height: u16,
}

/// The width of the list of shortcuts on a screen.
pub open spec fn help_width(area: Area) -> nat {
    let room = minus(area.width as nat, 4);
    if room < 1 {
        1
    } else if room > 78 {
        78
    } else {
        room
    }
}

/// The height of the list of shortcuts on a screen.
pub open spec fn help_height(area: Area, content: nat) -> nat {
    let room = minus(area.height as nat, 2);
    let most = if room < 1 {
        1
    } else {
        room
    };
    let wanted: nat = if content + 2 < 18 {
        content + 2
    } else {
        18
    };
    if wanted < most {
        wanted
    } else {
        most
    }
}

/// Where the list of shortcuts stands: in the middle of the screen.
pub fn shortcut_help_area(area: Area, content_lines: u16) -> (out: Area)
    requires
        area.x + minus(area.width as nat, help_width(area)) / 2 <= u16::MAX,
        area.y + minus(area.height as nat, help_height(area, content_lines as nat)) / 2 <= u16::MAX,
    ensures
        out.width == help_width(area),
        out.height == help_height(area, content_lines as nat),
        out.x == area.x + minus(area.width as nat, help_width(area)) / 2,
        out.y == area.y + minus(area.height as nat, help_height(area, content_lines as nat)) / 2,
{
    let room: u16 = if area.width < 4 { 0 } else { area.width - 4 };
    let width: u16 = if room < 1 {
        1
    } else if room > 78 {
        78
    } else {
        room
    };
    let tall: u16 = if area.height < 2 { 0 } else { area.height - 2 };
    let most: u16 = if tall < 1 { 1 } else { tall };
    let wanted: u16 = if content_lines < 16 { content_lines + 2 } else { 18 };
    let height: u16 = if wanted < most { wanted } else { most };
    let right: u16 = if area.width < width { 0 } else { area.width - width };
    let below: u16 = if area.height < height { 0 } else { area.height - height };
    Area { x: area.x + right / 2, y: area.y + below / 2, width, height }
}

/// On a screen that is not empty the list of shortcuts lies within it.
pub proof fn help_lies_on_the_screen(area: Area, content: nat)
    requires
        area.width > 0,
        area.height > 0,
    ensures
        minus(area.width as nat, help_width(area)) / 2 + help_width(area) <= area.width,
        minus(area.height as nat, help_height(area, content)) / 2 + help_height(area, content)
            <= area.height,
{
}

// ---------------------------------------------------------------------------
// The preview
// ---------------------------------------------------------------------------
/// An age in the largest unit that it fills.
pub open spec fn age_text(seconds: nat) -> Seq<char> {
    if seconds < 60 {
        decimal(seconds) + "s"@
    } else if seconds < 3600 {
        decimal(seconds / 60) + "m"@
    } else if seconds < 86400 {
        decimal(seconds / 60 / 60) + "h"@
    } else {
        decimal(seconds / 60 / 60 / 24) + "d"@
    }
}

/// The number of whole seconds since a time; none where it is still to come.
pub open spec fn seconds_since(time: u128, now: u128) -> nat {
    if now < time {
        0
    } else {
        ((now - time) / 1_000_000_000) as nat
    }
}

/// How long ago something was.
pub open spec fn age_of(time: Option<u128>, now: u128) -> Seq<char> {
    match time {
        Some(time) => age_text(seconds_since(time, now)),
        None => "-"@,
    }
}

/// How long ago something was. Times are in nanoseconds since the epoch.
pub fn format_age(time: Option<u128>, now: u128) -> (out: String)
    ensures
        out@ == age_of(time, now),
{
    let time: u128 = match time {
        Some(time) => time,
        None => {
            return "-".to_owned();
        },
    };
    let seconds: u128 = if now < time { 0 } else { (now - time) / 1_000_000_000 };
    if seconds < 60 {
        concat(&decimal_of(seconds), "s")
    } else if seconds < 3600 {
        concat(&decimal_of(seconds / 60), "m")
    } else if seconds < 86400 {
        concat(&decimal_of(seconds / 60 / 60), "h")
    } else {
        concat(&decimal_of(seconds / 60 / 60 / 24), "d")
    }
}

/// A line that separates parts, with a word in it.
pub open spec fn separator(label: Seq<char>) -> Seq<SpanView> {
    seq![
        span("──────────── "@, fg(tokyo_border())),
        span(label, bold(tokyo_fg())),
        span(" ────────────"@, fg(tokyo_border())),
    ]
}

fn separator_line(label: &str) -> (out: Line)
    ensures
        out@ == separator(label@),
{
    let mut line = Line::new();
    line.put("──────────── ", fg(tokyo_border()));
    line.put(label, bold(tokyo_fg()));
    line.put(" ────────────", fg(tokyo_border()));
    assert(line@ == separator(label@));
    line
}

/// What a project has, in words.
pub open spec fn count_words(counts: StatusCounts<nat>) -> Seq<char> {
    if counts.local == 0 && counts.remote == 0 {
        "empty"@
    } else if counts.remote == 0 {
        decimal(counts.local) + " local session(s)"@
    } else if counts.local == 0 {
        decimal(counts.remote) + " remote session(s)"@
    } else {
        decimal(counts.local) + " local session(s), "@ + decimal(counts.remote)
            + " remote session(s)"@
    }
}

/// What a project has, in words.
pub fn group_count_text(counts: StatusCounts) -> (out: String)
    ensures
        out@ == count_words(counts@),
{
    if counts.local == 0 && counts.remote == 0 {
        "empty".to_owned()
    } else if counts.remote == 0 {
        concat(&count_text(counts.local), " local session(s)")
    } else if counts.local == 0 {
        concat(&count_text(counts.remote), " remote session(s)")
    } else {
        let start = concat(&count_text(counts.local), " local session(s), ");
        concat(&concat(&start, &count_text(counts.remote)), " remote session(s)")
    }
}

/// The line of a session in the preview of its project.
pub open spec fn session_entry_line(session: ManagedSession<Seq<char>>) -> Seq<SpanView> {
    seq![
        span("  "@, plain()),
        span(icon_of(session.status), status_style(session.status)),
        span(" "@, plain()),
        span(shortened(session.display_name, 28), fg(tokyo_fg())),
        span(" "@, plain()),
        span("copilot"@, fg(tokyo_purple())),
        span(bell(session.has_bell), fg(tokyo_yellow())),
    ]
}

/// The line of a task in the preview of its project.
pub open spec fn task_entry_line(session: RemoteSession<Seq<char>>) -> Seq<SpanView> {
    seq![
        span("  "@, plain()),
        span(task_icon(session), task_style(session)),
        span(" "@, plain()),
        span(shortened(session.display_name, 28), fg(tokyo_fg())),
        span(" "@, plain()),
        span(REMOTE_ICON@ + " remote"@, fg(tokyo_purple())),
    ]
}

/// The line of a placeholder in the preview of its project.
pub open spec fn placeholder_entry_line(kind: PlaceholderKind<Seq<char>>, frame: usize) -> Seq<
    SpanView,
> {
    let parts = placeholder_parts(kind, frame);
    seq![
        span("  "@, plain()),
        span(parts.0, parts.2),
        span(" "@, plain()),
        span(parts.1, fg(tokyo_comment())),
    ]
}

/// The line of an entry in the preview of its project.
pub open spec fn entry_line(
    entry: GroupEntry<Seq<char>>,
    sessions: Seq<ManagedSession<Seq<char>>>,
    remote: Seq<RemoteSession<Seq<char>>>,
    frame: usize,
) -> Seq<SpanView> {
    match entry {
        GroupEntry::Local(i) => session_entry_line(sessions[i as int]),
        GroupEntry::RemoteLocal(i) => session_entry_line(sessions[i as int]),
        GroupEntry::Remote(i) => task_entry_line(remote[i as int]),
        GroupEntry::Placeholder(kind) => placeholder_entry_line(kind, frame),
    }
}

/// The head of the preview of a project.
pub open spec fn group_head(group: GroupView) -> Seq<Seq<SpanView>> {
    seq![
        seq![span("📁 "@, fg(tokyo_fg())), span(group.display_name, bold(tokyo_cyan()))],
        seq![],
        seq![span(count_words(group.counts), bold(tokyo_fg()))],
        seq![],
        seq![
            span(icon_of(SessionStatus::Waiting), status_style(SessionStatus::Waiting)),
            span(" "@ + decimal(group.counts.waiting) + " waiting"@, fg(tokyo_yellow())),
            span("  "@, plain()),
            span(icon_of(SessionStatus::Done), status_style(SessionStatus::Done)),
            span(" "@ + decimal(group.counts.done) + " done"@, fg(tokyo_green())),
        ],
        seq![],
        separator("Sessions"@),
    ]
}

/// The preview of a project.
pub open spec fn group_page(
    group: GroupView,
    sessions: Seq<ManagedSession<Seq<char>>>,
    remote: Seq<RemoteSession<Seq<char>>>,
    frame: usize,
) -> Seq<Seq<SpanView>> {
    group_head(group) + Seq::new(
        group.entries.len(),
        |i: int| entry_line(group.entries[i], sessions, remote, frame),
    ) + seq![
        seq![],
        seq![
            span(
                "Enter open • n new in project • N new local repo • P new project • x close • X close all • w web"@,
                italic(tokyo_comment()),
            ),
        ],
    ]
}

fn put_session_entry(out: &mut Vec<Line>, session: &ManagedSession)
    ensures
        views(final(out)@) == views(old(out)@).push(session_entry_line(session@)),
{
    let mut line = Line::new();
    line.put("  ", plain());
    line.put(status_icon(session.status), status_style(session.status));
    line.put(" ", plain());
    line.put(&truncate(&session.display_name, 28), fg(tokyo_fg()));
    line.put(" ", plain());
    line.put("copilot", fg(tokyo_purple()));
    line.put(bell_of(session.has_bell), fg(tokyo_yellow()));
    assert(line@ == session_entry_line(session@));
    put_line(out, line);
}

fn put_task_entry(out: &mut Vec<Line>, session: &RemoteSession)
    ensures
        views(final(out)@) == views(old(out)@).push(task_entry_line(session@)),
{
    let mut line = Line::new();
    line.put("  ", plain());
    line.put(remote_status_icon(session), remote_status_style(session));
    line.put(" ", plain());
    line.put(&truncate(&session.display_name, 28), fg(tokyo_fg()));
    line.put(" ", plain());
    line.put(&concat(REMOTE_ICON, " remote"), fg(tokyo_purple()));
    assert(line@ == task_entry_line(session@));
    put_line(out, line);
}

fn put_placeholder_entry(out: &mut Vec<Line>, kind: &PlaceholderKind, frame: usize)
    ensures
        views(final(out)@) == views(old(out)@).push(placeholder_entry_line(kind@, frame)),
{
    let parts = placeholder_display(kind, frame);
    let mut line = Line::new();
    line.put("  ", plain());
    line.put(&parts.0, parts.2);
    line.put(" ", plain());
    line.put(&parts.1, fg(tokyo_comment()));
    assert(line@ == placeholder_entry_line(kind@, frame));
    put_line(out, line);
}

fn group_head_lines(group: &ProjectGroup) -> (out: Vec<Line>)
    ensures
        views(out@) == group_head(group@),
{
    let mut out: Vec<Line> = Vec::new();
    let mut title = Line::new();
    title.put("📁 ", fg(tokyo_fg()));
    title.put(&group.display_name, bold(tokyo_cyan()));
    assert(title@ == seq![
        span("📁 "@, fg(tokyo_fg())),
        span(group.display_name@, bold(tokyo_cyan())),
    ]);
    put_line(&mut out, title);
    put_line(&mut out, Line::new());
    put_line(&mut out, Line::of(&group_count_text(group.counts), bold(tokyo_fg())));
    put_line(&mut out, Line::new());
    let waiting = concat(&concat(" ", &count_text(group.counts.waiting)), " waiting");
    let done = concat(&concat(" ", &count_text(group.counts.done)), " done");
    let mut counts = Line::new();
    counts.put(status_icon(SessionStatus::Waiting), status_style(SessionStatus::Waiting));
    counts.put(&waiting, fg(tokyo_yellow()));
    counts.put("  ", plain());
    counts.put(status_icon(SessionStatus::Done), status_style(SessionStatus::Done));
    counts.put(&done, fg(tokyo_green()));
    assert(counts@ == group_head(group@)[4]);
    put_line(&mut out, counts);
    put_line(&mut out, Line::new());
    put_line(&mut out, separator_line("Sessions"));
    assert(views(out@) == group_head(group@));
    out
}

/// The preview of a project.
pub fn group_preview(
    group: &ProjectGroup,
    sessions: &Vec<ManagedSession>,
    remote_sessions: &Vec<RemoteSession>,
    loading_frame: usize,
) -> (out: Vec<Line>)
    requires
        entries_fit(group@.entries, sessions@.len(), remote_sessions@.len()),
    ensures
        views(out@) == group_page(
            group@,
            views(sessions@),
            views(remote_sessions@),
            loading_frame,
        ),
{
    let ghost local = views(sessions@);
    let ghost remote = views(remote_sessions@);
    let ghost head = group_head(group@);
    let ghost body = Seq::new(
        group@.entries.len(),
        |i: int| entry_line(group@.entries[i], local, remote, loading_frame),
    );
    let mut out = group_head_lines(group);
    let mut i: usize = 0;
    assert(head + body.take(0) == head);
    while i < group.entries.len()
        invariant
            i <= group.entries.len(),
            local == views(sessions@),
            remote == views(remote_sessions@),
            entries_fit(group@.entries, sessions@.len(), remote_sessions@.len()),
            body == Seq::new(
                group@.entries.len(),
                |i: int| entry_line(group@.entries[i], local, remote, loading_frame),
            ),
            views(out@) == head + body.take(i as int),
        decreases group.entries.len() - i,
    {
        assert(entry_fits(group@.entries[i as int], sessions@.len(), remote_sessions@.len()));
        assert(group@.entries[i as int] == group.entries@[i as int]@);
        assert(body.take(i + 1) == body.take(i as int).push(body[i as int]));
        match &group.entries[i] {
            GroupEntry::Local(k) => put_session_entry(&mut out, &sessions[*k]),
            GroupEntry::RemoteLocal(k) => put_session_entry(&mut out, &sessions[*k]),
            GroupEntry::Remote(k) => put_task_entry(&mut out, &remote_sessions[*k]),
            GroupEntry::Placeholder(kind) => put_placeholder_entry(&mut out, kind, loading_frame),
        }
        i += 1;
    }
    assert(body.take(group.entries@.len() as int) == body);
    put_line(&mut out, Line::new());
    put_line(
        &mut out,
        Line::of(
            "Enter open • n new in project • N new local repo • P new project • x close • X close all • w web",
            italic(tokyo_comment()),
        ),
    );
    assert(views(out@) == group_page(group@, local, remote, loading_frame));
    out
}

/// A text, or a dash where there is none.
pub open spec fn or_dash(text: Option<Seq<char>>) -> Seq<char> {
    match text {
        Some(text) => text,
        None => "-"@,
    }
}

fn text_or_dash(text: &Option<String>) -> (out: String)
    ensures
        out@ == or_dash(opt_view(*text)),
{
    match text {
        Some(text) => text.clone(),
        None => "-".to_owned(),
    }
}

/// A name and a value.
pub open spec fn detail(name: Seq<char>, value: Seq<char>, style: Style) -> Seq<SpanView> {
    seq![span(name, fg(tokyo_comment())), span(value, style)]
}

fn detail_line(name: &str, value: &str, style: Style) -> (out: Line)
    ensures
        out@ == detail(name@, value@, style),
{
    let mut line = Line::new();
    line.put(name, fg(tokyo_comment()));
    line.put(value, style);
    assert(line@ == detail(name@, value@, style));
    line
}

/// The line of the project in the preview of a session.
pub open spec fn project_line(group: GroupView) -> Seq<SpanView> {
    seq![span("📁 "@, fg(tokyo_fg())), span(group.display_name, fg(tokyo_cyan()))]
}

fn project_line_of(group: &ProjectGroup) -> (out: Line)
    ensures
        out@ == project_line(group@),
{
    let mut line = Line::new();
    line.put("📁 ", fg(tokyo_fg()));
    line.put(&group.display_name, fg(tokyo_cyan()));
    assert(line@ == project_line(group@));
    line
}

/// The head of the preview of a session or a task.
pub open spec fn title_line(
    icon: Seq<char>,
    style: Style,
    name: Seq<char>,
    origin: Seq<char>,
) -> Seq<SpanView> {
    seq![
        span(icon, style),
        span(" "@, plain()),
        span(name, bold(tokyo_fg())),
        span(" "@, plain()),
        span(origin, fg(tokyo_purple())),
    ]
}

fn title_line_of(icon: &str, style: Style, name: &str, kind: &str) -> (out: Line)
    ensures
        out@ == title_line(icon@, style, name@, kind@),
{
    let mut line = Line::new();
    line.put(icon, style);
    line.put(" ", plain());
    line.put(name, bold(tokyo_fg()));
    line.put(" ", plain());
    line.put(kind, fg(tokyo_purple()));
    assert(line@ == title_line(icon@, style, name@, kind@));
    line
}

/// The preview of a task.
pub open spec fn task_page(session: RemoteSession<Seq<char>>, group: GroupView) -> Seq<
    Seq<SpanView>,
> {
    seq![
        title_line(
            task_icon(session),
            task_style(session),
            session.display_name,
            REMOTE_ICON@ + " remote"@,
        ),
        seq![],
        project_line(group),
        seq![],
        detail("state   "@, session.state, status_style(session.status)),
        detail("updated "@, or_dash(session.updated_at), fg(tokyo_fg())),
        detail("url     "@, or_dash(session.url), fg(tokyo_fg())),
        detail("pr      "@, or_dash(session.pr_url), fg(tokyo_fg())),
        seq![],
        separator("Actions"@),
        seq![
            span(
                "Enter open locally with copilot --resume • w session • p pull request"@,
                italic(tokyo_comment()),
            ),
        ],
    ]
}

/// The preview of a task.
pub fn remote_preview(session: &RemoteSession, group: &ProjectGroup) -> (out: Vec<Line>)
    ensures
        views(out@) == task_page(session@, group@),
{
    let mut out: Vec<Line> = Vec::new();
    put_line(
        &mut out,
        title_line_of(
            remote_status_icon(session),
            remote_status_style(session),
            &session.display_name,
            &concat(REMOTE_ICON, " remote"),
        ),
    );
    put_line(&mut out, Line::new());
    put_line(&mut out, project_line_of(group));
    put_line(&mut out, Line::new());
    put_line(&mut out, detail_line("state   ", &session.state, status_style(session.status)));
    put_line(
        &mut out,
        detail_line("updated ", &text_or_dash(&session.updated_at), fg(tokyo_fg())),
    );
    put_line(&mut out, detail_line("url     ", &text_or_dash(&session.url), fg(tokyo_fg())));
    put_line(&mut out, detail_line("pr      ", &text_or_dash(&session.pr_url), fg(tokyo_fg())));
    put_line(&mut out, Line::new());
    put_line(&mut out, separator_line("Actions"));
    put_line(
        &mut out,
        Line::of(
            "Enter open locally with copilot --resume • w session • p pull request",
            italic(tokyo_comment()),
        ),
    );
    assert(views(out@) == task_page(session@, group@));
    out
}

/// The preview of a session.
pub open spec fn session_page(
    session: ManagedSession<Seq<char>>,
    group: GroupView,
    now: u128,
) -> Seq<Seq<SpanView>> {
    seq![
        title_line(
            icon_of(session.status),
            status_style(session.status),
            session.display_name,
            "copilot"@,
        ),
        seq![],
        project_line(group),
        seq![span(group.path, fg(tokyo_comment()))],
        seq![],
        detail("status  "@, status_label(session.status), status_style(session.status)),
        detail("last    "@, age_of(session.last_activity, now), fg(tokyo_fg())),
        detail(
            "bell    "@,
            if session.has_bell {
                "yes 🔔"@
            } else {
                "no"@
            },
            if session.has_bell {
                fg(tokyo_yellow())
            } else {
                fg(tokyo_comment())
            },
        ),
        seq![],
        separator("Actions"@),
        seq![
            span("Enter open fullscreen • x close • X close all"@, italic(tokyo_comment())),
        ],
    ]
}

/// The preview of a session. `now` is in nanoseconds since the epoch.
pub fn session_preview(session: &ManagedSession, group: &ProjectGroup, now: u128) -> (out: Vec<Line>)
    ensures
        views(out@) == session_page(session@, group@, now),
{
    let mut out: Vec<Line> = Vec::new();
    put_line(
        &mut out,
        title_line_of(
            status_icon(session.status),
            status_style(session.status),
            &session.display_name,
            "copilot",
        ),
    );
    put_line(&mut out, Line::new());
    put_line(&mut out, project_line_of(group));
    put_line(&mut out, Line::of(&group.path, fg(tokyo_comment())));
    put_line(&mut out, Line::new());
    put_line(
        &mut out,
        detail_line("status  ", session.status.label(), status_style(session.status)),
    );
    put_line(
        &mut out,
        detail_line("last    ", &format_age(session.last_activity, now), fg(tokyo_fg())),
    );
    if session.has_bell {
        put_line(&mut out, detail_line("bell    ", "yes 🔔", fg(tokyo_yellow())));
    } else {
        put_line(&mut out, detail_line("bell    ", "no", fg(tokyo_comment())));
    }
    put_line(&mut out, Line::new());
    put_line(&mut out, separator_line("Actions"));
    put_line(
        &mut out,
        Line::of("Enter open fullscreen • x close • X close all", italic(tokyo_comment())),
    );
    assert(views(out@) == session_page(session@, group@, now));
    out
}

/// What the preview shows: the selected session or task, else its project.
pub open spec fn preview(app: AppView, now: u128, frame: usize) -> Seq<Seq<SpanView>> {
    match app.group() {
        Some(group) => if app.session() is Some {
            session_page(app.session()->0, group, now)
        } else if app.remote_session() is Some {
            task_page(app.remote_session()->0, group)
        } else {
            group_page(group, app.sessions, app.remote_sessions, frame)
        },
        None => seq![seq![span("Select a project or session."@, fg(tokyo_comment()))]],
    }
}

/// What the preview shows. `now` is in nanoseconds since the epoch.
pub fn preview_lines(app: &App, now: u128, loading_frame: usize) -> (out: Vec<Line>)
    requires
        app@.fits(),
    ensures
        views(out@) == preview(app@, now, loading_frame),
{
    let groups = app.project_groups();
    match app.selected_group() {
        Some(group) => {
            match app.selected_session() {
                Some(session) => {
                    return session_preview(session, &group, now);
                },
                None => {},
            }
            match app.selected_remote_session() {
                Some(session) => {
                    return remote_preview(session, &group);
                },
                None => {},
            }
            proof {
                let place = app@.row()->0.group_place() as int;
                assert(views(groups@)[place] == group@);
                crate::groups::group_entries_fit(app@.scene(), group@.key);
            }
            group_preview(&group, &app.sessions, &app.remote_sessions, loading_frame)
        },
        None => {
            let mut out: Vec<Line> = Vec::new();
            put_line(&mut out, Line::of("Select a project or session.", fg(tokyo_comment())));
            assert(views(out@) == seq![
                seq![span("Select a project or session."@, fg(tokyo_comment()))],
            ]);
            out
        },
    }
}

// ---------------------------------------------------------------------------
// What holds of it
// ---------------------------------------------------------------------------
/// Each status has a sign and a look of its own. What needs the user is bold.
pub proof fn signs_tell_the_status(status: SessionStatus)
    ensures
        icon_of(status) == seq!['◐'] <==> status is Waiting,
        icon_of(status) == seq!['◆'] <==> status is Done,
        icon_of(status) == seq!['●'] <==> status is Busy,
        icon_of(status) == seq!['○'] <==> status is Idle,
        status_style(status).fg == Some(tokyo_yellow()) <==> status is Waiting,
        status_style(status).fg == Some(tokyo_green()) <==> status is Done,
        status_style(status).fg == Some(tokyo_blue()) <==> status is Busy,
        status_style(status).fg == Some(tokyo_comment()) <==> status is Idle,
        status_style(status).bold <==> status is Waiting || status is Done,
{
    reveal_strlit("◐");
    reveal_strlit("◆");
    reveal_strlit("●");
    reveal_strlit("○");
    assert("◐"@ == seq!['◐']);
    assert("◆"@ == seq!['◆']);
    assert("●"@ == seq!['●']);
    assert("○"@ == seq!['○']);
    assert(icon_of(status)[0] == '◐' <==> status is Waiting);
    assert(seq!['◐'][0] == '◐' && seq!['◆'][0] == '◆' && seq!['●'][0] == '●' && seq!['○'][0] == '○');
}

/// A task that was called off has a red cross; any other task has the sign and the look of its
/// status, none of which is that.
pub proof fn cancelled_tasks_have_a_cross(session: RemoteSession<Seq<char>>)
    ensures
        task_icon(session) == seq!['×'] <==> is_cancelled(session.state),
        task_style(session).fg == Some(tokyo_red()) <==> is_cancelled(session.state),
        !is_cancelled(session.state) ==> task_icon(session) == icon_of(session.status)
            && task_style(session) == status_style(session.status),
{
    signs_tell_the_status(session.status);
    reveal_strlit("×");
    reveal_strlit("◐");
    reveal_strlit("◆");
    reveal_strlit("●");
    reveal_strlit("○");
    assert("×"@ == seq!['×']);
    assert(seq!['×'][0] == '×');
    assert(icon_of(session.status)[0] != '×');
}

/// The frames of the spinner.
pub open spec fn frames() -> Seq<char> {
    seq!['⠋', '⠙', '⠹', '⠸', '⠼', '⠴', '⠦', '⠧', '⠇', '⠏']
}

/// The spinner goes through its frames and starts again.
pub proof fn spinner_goes_round(frame: usize)
    ensures
        spinner_frame(frame).len() == 1,
        spinner_frame(frame)[0] == frames()[frame as int % 10],
{
    reveal_strlit("⠋");
    reveal_strlit("⠙");
    reveal_strlit("⠹");
    reveal_strlit("⠸");
    reveal_strlit("⠼");
    reveal_strlit("⠴");
    reveal_strlit("⠦");
    reveal_strlit("⠧");
    reveal_strlit("⠇");
    reveal_strlit("⠏");
}

/// The stem of a row ends in a corner where the row is the last one, and in a fork where it is not.
/// What stands under the remote part of a project is set in by two columns.
pub proof fn last_row_has_a_corner(under_remote: bool, is_last: bool)
    ensures
        ({
            let stem = branch(under_remote, is_last);
            let indent: int = if under_remote {
                4
            } else {
                2
            };
            &&& stem.len() == indent + 3
            &&& stem[indent] == if is_last {
                '└'
            } else {
                '├'
            }
            &&& stem[indent + 1] == '─'
            &&& forall|i: int| 0 <= i < indent ==> stem[i] == ' '
        }),
        fold_icon(true)[0] == '▸',
        fold_icon(false)[0] == '▾',
        fold_icon(true).len() == 2 && fold_icon(false).len() == 2,
        bell(true).len() == 2 && bell(true)[1] == '🔔',
        bell(false).len() == 0,
{
    reveal_strlit("    └─ ");
    reveal_strlit("    ├─ ");
    reveal_strlit("  └─ ");
    reveal_strlit("  ├─ ");
    reveal_strlit("▸ ");
    reveal_strlit("▾ ");
    reveal_strlit(" 🔔");
    reveal_strlit("");
}

/// The row of a project shows its name, whole where there is room. It is folded where its key is,
/// rings where one of its sessions does, and turns while its tasks are read.
pub proof fn project_row_shows_the_project(
    group: GroupView,
    collapsed: Set<Seq<char>>,
    width: nat,
    frame: usize,
)
    ensures
        ({
            let line = group_line(group, collapsed, width, frame);
            let beside = line[0].text.len() + line[2].text.len() + line[3].text.len();
            &&& line.len() == 4
            &&& line[0].text[0] == '▸' <==> collapsed.contains(group.key)
            &&& line[0].text[0] == '▾' <==> !collapsed.contains(group.key)
            &&& line[2].text.len() > 0 <==> group.has_bell
            &&& line[3].text.len() > 0 <==> group.remote_loading
            &&& beside + group.display_name.len() <= width ==> line[1].text == group.display_name
            &&& beside <= width ==> beside + line[1].text.len() <= width
        }),
{
    reveal_strlit("▸ ");
    reveal_strlit("▾ ");
    reveal_strlit(" 🔔");
    reveal_strlit("");
    reveal_strlit(" ");
    assert(fold_icon(true)[0] == '▸');
    assert(fold_icon(false)[0] == '▾');
    spinner_goes_round(frame);
}

/// The row of the remote part of a project shows how many remote sessions it has, and is folded
/// where its own key is.
pub proof fn remote_row_shows_the_count(
    group: GroupView,
    is_last: bool,
    collapsed: Set<Seq<char>>,
    width: nat,
)
    ensures
        ({
            let line = remote_group_line(group, is_last, collapsed, width);
            &&& line.len() == 4
            &&& line[0].text == branch(false, is_last)
            &&& line[1].text[0] == '▸' <==> collapsed.contains(remote_key(group.key))
            &&& line[1].text[0] == '▾' <==> !collapsed.contains(remote_key(group.key))
            &&& line[3].text == seq![' ', '('] + decimal(group.counts.remote) + seq![')']
        }),
{
    reveal_strlit("▸ ");
    reveal_strlit("▾ ");
    reveal_strlit(" (");
    reveal_strlit(")");
    assert(fold_icon(true)[0] == '▸');
    assert(fold_icon(false)[0] == '▾');
    assert(" ("@ == seq![' ', '(']);
    assert(")"@ == seq![')']);
}

/// The row of a session shows the sign of its status and its name, whole where there is room; it
/// rings where the session does, and says that it exited where it did.
pub proof fn session_row_shows_the_session(
    session: ManagedSession<Seq<char>>,
    is_last: bool,
    under_remote: bool,
    width: nat,
)
    ensures
        ({
            let line = session_line(session, is_last, under_remote, width);
            let beside = line[0].text.len() + line[1].text.len() + line[2].text.len()
                + line[4].text.len() + line[5].text.len() + line[6].text.len();
            &&& line.len() == 7
            &&& line[0].text == branch(under_remote, is_last)
            &&& line[1].text == icon_of(session.status)
            &&& line[1].style == status_style(session.status)
            &&& line[5].text.len() > 0 <==> session.has_bell
            &&& line[6].text.len() > 0 <==> session.pane_dead
            &&& session.pane_dead ==> line[6].text == " exited"@
            &&& beside + session.display_name.len() <= width ==> line[3].text
                == session.display_name
            &&& beside <= width ==> beside + line[3].text.len() <= width
        }),
{
    reveal_strlit(" 🔔");
    reveal_strlit("");
    reveal_strlit(" ");
    reveal_strlit(" exited");
    reveal_strlit(" copilot");
}

/// The row of a task shows its sign and its name, whole where there is room.
pub proof fn task_row_shows_the_task(
    session: RemoteSession<Seq<char>>,
    is_last: bool,
    under_remote: bool,
    width: nat,
)
    ensures
        ({
            let line = task_line(session, is_last, under_remote, width);
            let beside = line[0].text.len() + line[1].text.len() + line[2].text.len();
            &&& line.len() == 4
            &&& line[0].text == branch(under_remote, is_last)
            &&& line[1].text == task_icon(session)
            &&& line[1].style == task_style(session)
            &&& beside + session.display_name.len() <= width ==> line[3].text
                == session.display_name
            &&& beside <= width ==> beside + line[3].text.len() <= width
        }),
{
    reveal_strlit(" ");
}

/// A placeholder says what is missing: that there are no sessions, that they are being read, or why
/// they could not be.
pub proof fn placeholder_says_what_is_missing(error: Seq<char>, frame: usize)
    ensures
        placeholder_parts(PlaceholderKind::LocalEmpty, frame).1.subrange(8, 16) == "no local"@,
        placeholder_parts(PlaceholderKind::RemoteEmpty, frame).1.subrange(8, 17) == "no remote"@,
        placeholder_parts(PlaceholderKind::RemoteLoading, frame).0 == spinner_frame(frame),
        placeholder_parts(PlaceholderKind::RemoteLoading, frame).1.take(10) == "refreshing"@,
        error.len() <= 48 ==> placeholder_parts(PlaceholderKind::RemoteError(error), frame).1.skip(
            29,
        ) == error,
        placeholder_parts(PlaceholderKind::RemoteError(error), frame).1.subrange(16, 27)
            == "unavailable"@,
        placeholder_parts(PlaceholderKind::RemoteError(error), frame).2.fg == Some(tokyo_red()),
{
    reveal_strlit("empty - no local sessions yet");
    reveal_strlit("empty - no remote sessions for this repo");
    reveal_strlit("refreshing remote sessions...");
    reveal_strlit("remote sessions unavailable: ");
    reveal_strlit("no local");
    reveal_strlit("no remote");
    reveal_strlit("refreshing");
    reveal_strlit("unavailable");
    let text = placeholder_parts(PlaceholderKind::RemoteError(error), frame).1;
    assert(text.subrange(16, 27) == "unavailable"@);
    if error.len() <= 48 {
        assert(text.skip(29) == error);
    }
}

/// A row of the tree shows the project, the session, the task or the placeholder that it stands for.
pub proof fn row_shows_what_it_stands_for(
    groups: Seq<GroupView>,
    sessions: Seq<ManagedSession<Seq<char>>>,
    remote: Seq<RemoteSession<Seq<char>>>,
    collapsed: Set<Seq<char>>,
    width: nat,
    frame: usize,
    row: TreeRow<Seq<char>>,
)
    ensures
        ({
            let line = row_line(row, groups, sessions, remote, collapsed, width, frame);
            match row {
                TreeRow::Group { group_index } => line == group_line(
                    groups[group_index as int],
                    collapsed,
                    width,
                    frame,
                ),
                TreeRow::RemoteGroup { group_index, is_last } => line == remote_group_line(
                    groups[group_index as int],
                    is_last,
                    collapsed,
                    width,
                ),
                TreeRow::LocalSession { session_index, is_last, under_remote, .. } => {
                    &&& line == session_line(
                        sessions[session_index as int],
                        is_last,
                        under_remote,
                        width,
                    )
                    &&& line[1].text == icon_of(sessions[session_index as int].status)
                },
                TreeRow::RemoteSession { remote_index, is_last, under_remote, .. } => {
                    &&& line == task_line(
                        remote[remote_index as int],
                        is_last,
                        under_remote,
                        width,
                    )
                    &&& line[1].text == task_icon(remote[remote_index as int])
                },
                TreeRow::Placeholder { kind, is_last, under_remote, .. } => {
                    &&& line[0].text == branch(under_remote, is_last)
                    &&& line[1].text == placeholder_parts(kind, frame).0
                    &&& line[3].text == placeholder_parts(kind, frame).1
                },
            }
        }),
{
}

/// A filter is shown with its sign and the number of sessions that it shows.
pub proof fn filter_shows_its_count(filter: SessionFilter, counts: StatusCounts<nat>)
    ensures
        ({
            let text = filter_text(filter, counts);
            let n = match filter {
                SessionFilter::Waiting => counts.waiting,
                SessionFilter::Done => counts.done,
                SessionFilter::Busy => counts.busy,
                SessionFilter::Idle => counts.idle,
                _ => counts.remote,
            };
            let sign = match filter {
                SessionFilter::Waiting => '◐',
                SessionFilter::Done => '◆',
                SessionFilter::Busy => '●',
                SessionFilter::Idle => '○',
                _ => '\u{f408}',
            };
            &&& filter is All ==> text == " All "@
            &&& !(filter is All) ==> text == seq![' ', sign, ' '] + decimal(n) + seq![' ']
        }),
{
    reveal_strlit("◐");
    reveal_strlit("◆");
    reveal_strlit("●");
    reveal_strlit("○");
    reveal_strlit("\u{f408}");
    reveal_strlit(" ");
    let counted_by = |sign: char, n: nat| seq![' ', sign, ' '] + decimal(n) + seq![' '];
    match filter {
        SessionFilter::All => {},
        SessionFilter::Waiting => {
            assert(filter_text(filter, counts) == counted_by('◐', counts.waiting));
        },
        SessionFilter::Done => {
            assert(filter_text(filter, counts) == counted_by('◆', counts.done));
        },
        SessionFilter::Busy => {
            assert(filter_text(filter, counts) == counted_by('●', counts.busy));
        },
        SessionFilter::Idle => {
            assert(filter_text(filter, counts) == counted_by('○', counts.idle));
        },
        SessionFilter::Remote => {
            assert(filter_text(filter, counts) == counted_by('\u{f408}', counts.remote));
        },
    }
}

/// The filters, in the order in which they are shown.
pub open spec fn shown_filters() -> Seq<SessionFilter> {
    seq![
        SessionFilter::All,
        SessionFilter::Waiting,
        SessionFilter::Done,
        SessionFilter::Busy,
        SessionFilter::Idle,
        SessionFilter::Remote,
    ]
}

/// The filters are shown in order, the active one alone on a coloured ground. What follows says that
/// remote sessions are on, where they are.
pub proof fn active_filter_stands_out(
    active: SessionFilter,
    counts: StatusCounts<nat>,
    remote_enabled: bool,
    k: int,
)
    requires
        0 <= k < 6,
    ensures
        ({
            let line = filter_spans(active, counts, remote_enabled);
            &&& line[2 * k].text == filter_text(shown_filters()[k], counts)
            &&& line[2 * k].style.bg is Some <==> shown_filters()[k] == active
            &&& line[2 * k].style.bg is Some ==> line[2 * k].style.bg == Some(filter_color(active))
            &&& line.len() == if remote_enabled {
                12
            } else {
                11int
            }
        }),
{
    let line = filter_spans(active, counts, remote_enabled);
    assert(k == 0 || k == 1 || k == 2 || k == 3 || k == 4 || k == 5);
}

/// Sessions and tasks are counted by what they are doing, and by whether they are remote; every task
/// is.
pub proof fn all_are_counted_by_status(
    sessions: Seq<ManagedSession<Seq<char>>>,
    remote: Seq<RemoteSession<Seq<char>>>,
    status: SessionStatus,
)
    ensures
        ({
            let counts = all_counts(sessions, remote);
            let n = sessions.filter(|s: ManagedSession<Seq<char>>| s.status == status).len()
                + remote.filter(|t: RemoteSession<Seq<char>>| t.status == status).len();
            &&& status is Waiting ==> counts.waiting == n
            &&& status is Done ==> counts.done == n
            &&& status is Busy ==> counts.busy == n
            &&& status is Idle ==> counts.idle == n
            &&& counts.remote == sessions.filter(
                |s: ManagedSession<Seq<char>>| s.is_remote,
            ).len() + remote.len()
            &&& counts.local == sessions.filter(|s: ManagedSession<Seq<char>>| !s.is_remote).len()
        }),
    decreases remote.len(), sessions.len(),
{
    reveal(Seq::filter);
    if remote.len() > 0 {
        all_are_counted_by_status(sessions, remote.drop_last(), status);
    } else if sessions.len() > 0 {
        all_are_counted_by_status(sessions.drop_last(), remote, status);
    }
}

/// The first shortcuts as a footer shows them, with dots between them.
pub open spec fn dotted(shortcuts: Seq<Seq<char>>, k: int) -> Seq<char> {
    join(shortcuts.take(k), " • "@)
}

/// A footer without a message shows as many shortcuts as fit, the first ones first, and more would
/// not fit.
pub proof fn footer_shows_as_many_as_fit(width: nat, shortcuts: Seq<Seq<char>>)
    requires
        shortcuts.len() > 0,
        0 < shortcuts[0].len() <= width,
    ensures
        exists|k: int|
            1 <= k <= shortcuts.len() && footer(None, width, shortcuts) == #[trigger] dotted(
                shortcuts,
                k,
            ) && (k < shortcuts.len() ==> dotted(shortcuts, k).len() + 3 + shortcuts[k].len()
                > width),
{
    reveal_strlit("");
    let first = shortcuts[0];
    assert(""@ + ""@ + first == first);
    assert(shortcuts.take(1) == seq![first]);
    assert(join(seq![first], " • "@) == first);
    assert(footer(None, width, shortcuts) == footer_parts(first, shortcuts.skip(1), width));
    footer_goes_on(shortcuts, 1, width);
}

proof fn footer_goes_on(shortcuts: Seq<Seq<char>>, j: int, width: nat)
    requires
        1 <= j <= shortcuts.len(),
        dotted(shortcuts, j).len() > 0,
    ensures
        exists|k: int|
            j <= k <= shortcuts.len() && footer_parts(
                dotted(shortcuts, j),
                shortcuts.skip(j),
                width,
            ) == #[trigger] dotted(shortcuts, k) && (k < shortcuts.len() ==> dotted(
                shortcuts,
                k,
            ).len() + 3 + shortcuts[k].len() > width),
    decreases shortcuts.len() - j,
{
    reveal_strlit(" • ");
    let output = dotted(shortcuts, j);
    let rest = shortcuts.skip(j);
    if j < shortcuts.len() {
        assert(rest[0] == shortcuts[j]);
        if output.len() + 3 + shortcuts[j].len() <= width {
            assert(shortcuts.take(j + 1).drop_last() == shortcuts.take(j));
            assert(shortcuts.take(j + 1).last() == shortcuts[j]);
            assert(dotted(shortcuts, j + 1) == output + " • "@ + shortcuts[j]);
            assert(rest.skip(1) == shortcuts.skip(j + 1));
            footer_goes_on(shortcuts, j + 1, width);
        } else {
            assert(footer_parts(output, rest, width) == dotted(shortcuts, j));
        }
    } else {
        assert(footer_parts(output, rest, width) == dotted(shortcuts, j));
    }
}

/// A message in the footer is shown whole where the first shortcut fits behind it. Where it is cut
/// on a footer that is wide enough for both, it leaves room for that shortcut.
pub proof fn message_leaves_room(message: Seq<char>, width: nat, first: Seq<char>)
    ensures
        message.len() + 3 + first.len() <= width && width > first.len() + 6 ==> fitted_prefix(
            message,
            width,
            Some(first),
        ) == message,
        width > first.len() + 6 ==> fitted_prefix(message, width, Some(first)).len() + 3
            + first.len() <= width,
        message.len() <= width ==> fitted_prefix(message, width, None) == message,
{
    reveal_strlit(" • ");
    if width > first.len() + 6 {
        shortened_fits(message, (width - (first.len() + 3)) as nat);
    }
}

/// The footer tells what can be done with the row under the cursor: a session is closed, a task has
/// its page and, where there is one, its pull request; a project is folded and unfolded, and can be
/// removed from each of its rows. All sessions can be closed where there are some.
pub proof fn footer_tells_what_can_be_done(app: AppView)
    ensures
        ({
            let said = row_shortcuts(app);
            match app.row() {
                None => said.len() == 0,
                Some(row) => {
                    &&& said.last() == "d remove project"@
                    &&& row is Placeholder ==> said.len() == 1
                    &&& row is Group || row is RemoteGroup ==> said.len() == 3 && said[0]
                        == "←/→ tree"@ && said[1] == "Enter toggle"@
                    &&& row is LocalSession ==> said.len() == 3 && said[0] == "Enter open"@
                        && said[1] == "x close"@
                    &&& row is RemoteSession ==> said[0] == "Enter open"@ && said[1] == "w web"@
                    &&& match row {
                        TreeRow::RemoteSession { remote_index, .. } => {
                            let has_pr = remote_index < app.remote_sessions.len()
                                && app.remote_sessions[remote_index as int].pr_url is Some;
                            &&& has_pr ==> said.len() == 4 && said[2] == "p PR"@
                            &&& !has_pr ==> said.len() == 3
                        },
                        _ => true,
                    }
                },
            }
        }),
        ({
            let all = shortcuts_of(app);
            let n = row_shortcuts(app).len() as int;
            &&& all.take(6) == seq![
                "? help"@,
                "⇥/⇤ filters"@,
                "n new"@,
                "N new local"@,
                "P new project"@,
                "r refresh"@,
            ]
            &&& all.subrange(6, 6 + n) == row_shortcuts(app)
            &&& app.sessions.len() > 0 ==> all.skip(6 + n) == seq!["X close all"@, "q quit"@]
            &&& app.sessions.len() == 0 ==> all.skip(6 + n) == seq!["q quit"@]
        }),
{
}

/// While a path is asked for the footer shows what for and what was typed; while a confirmation is
/// asked for it asks for it; else it shows the message and the shortcuts.
pub proof fn footer_follows_the_prompt(app: AppView, width: nat)
    ensures
        match app.input {
            Some(InputMode::NewSessionDirectory { buffer, remote_enabled, .. }) => {
                let text = if remote_enabled {
                    "Start remote session in repo: "@
                } else {
                    "Start local session in repo: "@
                } + buffer;
                text.len() + 45 <= width ==> footer_of(app, width).take(text.len() as int) == text
            },
            Some(InputMode::NewProjectDirectory { buffer, .. }) => {
                let text = "Add project repo: "@ + buffer;
                text.len() + 45 <= width ==> footer_of(app, width).take(text.len() as int) == text
            },
            None => {
                &&& app.confirm_close_all && width >= 61 ==> footer_of(app, width).take(52)
                    == "Close all managed sessions? y confirm • n/Esc cancel"@
                &&& !app.confirm_close_all && app.message.len() == 0 ==> footer_of(app, width)
                    == footer(None, width, shortcuts_of(app))
                &&& !app.confirm_close_all && app.message.len() > 0 ==> footer_of(app, width)
                    == footer(Some(app.message), width, shortcuts_of(app))
            },
        },
{
    reveal_strlit(": ");
    reveal_strlit("Start remote session in repo");
    reveal_strlit("Start local session in repo");
    reveal_strlit("Add project repo");
    reveal_strlit("Start remote session in repo: ");
    reveal_strlit("Start local session in repo: ");
    reveal_strlit("Add project repo: ");
    reveal_strlit("█  • Tab complete • Enter create • Esc cancel");
    reveal_strlit("Close all managed sessions? y confirm • n/Esc cancel");
    reveal_strlit("? help");
    reveal_strlit(" • ");
    assert("Start remote session in repo"@ + ": "@ == "Start remote session in repo: "@);
    assert("Start local session in repo"@ + ": "@ == "Start local session in repo: "@);
    assert("Add project repo"@ + ": "@ == "Add project repo: "@);
    let tail = "█  • Tab complete • Enter create • Esc cancel"@;
    assert(tail.len() == 45);
    match app.input {
        Some(InputMode::NewSessionDirectory { buffer, remote_enabled, .. }) => {
            let text = if remote_enabled {
                "Start remote session in repo: "@
            } else {
                "Start local session in repo: "@
            } + buffer;
            if text.len() + 45 <= width {
                assert(footer_of(app, width) == text + tail);
            }
        },
        Some(InputMode::NewProjectDirectory { buffer, .. }) => {
            let text = "Add project repo: "@ + buffer;
            if text.len() + 45 <= width {
                assert(footer_of(app, width) == text + tail);
            }
        },
        None => {
            if app.confirm_close_all && width >= 61 {
                let asked = "Close all managed sessions? y confirm • n/Esc cancel"@;
                let rest = seq!["? help"@];
                assert(asked.len() == 52);
                assert(fitted_prefix(asked, width, Some(rest[0])) == asked);
                assert(rest.skip(1) == Seq::<Seq<char>>::empty());
                assert(footer_parts(asked + " • "@ + rest[0], rest.skip(1), width) == asked + " • "@
                    + rest[0]);
                assert((asked + " • "@ + rest[0]).take(52) == asked);
            }
        },
    }
}

/// A text is filled up with blanks behind it, and never cut.
pub proof fn padding_stands_behind(s: Seq<char>, width: nat)
    ensures
        padded(s, width).take(s.len() as int) == s,
        padded(s, width).len() >= width,
        padded(s, width).len() == width || padded(s, width) == s,
        forall|i: int| s.len() <= i < padded(s, width).len() ==> padded(s, width)[i] == ' ',
{
}

/// The list of shortcuts leaves two columns and a row free at each side of the screen, and grows no
/// wider than 78 columns and no higher than 18 rows.
pub proof fn help_leaves_a_margin(area: Area, content: nat)
    ensures
        area.width >= 82 ==> help_width(area) == 78,
        5 <= area.width < 82 ==> help_width(area) == area.width - 4,
        help_width(area) >= 1 && help_height(area, content) >= 1,
        content >= 16 && area.height >= 20 ==> help_height(area, content) == 18,
        content < 16 && area.height >= content + 4 ==> help_height(area, content) == content + 2,
        3 <= area.height < 20 && content + 2 >= area.height - 2 ==> help_height(area, content)
            == area.height - 2,
{
}

/// An age is told as a number and a unit: as many of that unit as it fills, up to days, and of the
/// largest unit of which it fills one.
pub proof fn age_is_told_in_its_largest_unit(seconds: nat)
    ensures
        ({
            let text = age_text(seconds);
            let unit = text.last();
            let n = number_value(text.drop_last());
            &&& is_number(text.drop_last())
            &&& unit == 's' || unit == 'm' || unit == 'h' || unit == 'd'
            &&& unit == 's' ==> n == seconds && n < 60
            &&& unit == 'm' ==> n * 60 <= seconds < (n + 1) * 60 && 1 <= n < 60
            &&& unit == 'h' ==> n * 3600 <= seconds < (n + 1) * 3600 && 1 <= n < 24
            &&& unit == 'd' ==> n * 86400 <= seconds < (n + 1) * 86400 && 1 <= n
        }),
{
    reveal_strlit("s");
    reveal_strlit("m");
    reveal_strlit("h");
    reveal_strlit("d");
    let text = age_text(seconds);
    if seconds < 60 {
        decimal_has_value(seconds);
        assert(text.drop_last() == decimal(seconds));
        assert(text.last() == 's');
    } else if seconds < 3600 {
        decimal_has_value(seconds / 60);
        assert(text.drop_last() == decimal(seconds / 60));
        assert(text.last() == 'm');
    } else if seconds < 86400 {
        decimal_has_value(seconds / 60 / 60);
        assert(text.drop_last() == decimal(seconds / 60 / 60));
        assert(text.last() == 'h');
    } else {
        decimal_has_value(seconds / 60 / 60 / 24);
        assert(text.drop_last() == decimal(seconds / 60 / 60 / 24));
        assert(text.last() == 'd');
    }
}

/// The age of what was is told in whole seconds; what is still to come is no seconds old, and what
/// has no time has a dash.
pub proof fn age_is_the_time_since(time: u128, now: u128)
    ensures
        time <= now ==> seconds_since(time, now) * 1_000_000_000 <= now - time < (seconds_since(
            time,
            now,
        ) + 1) * 1_000_000_000,
        time > now ==> seconds_since(time, now) == 0,
        age_of(Some(time), now) == age_text(seconds_since(time, now)),
        age_of(None, now) == "-"@,
{
}

/// What a project has is told by number, local sessions before remote ones; what it has none of is
/// not told.
pub proof fn counts_are_told_in_words(counts: StatusCounts<nat>)
    ensures
        ({
            let text = count_words(counts);
            let local = decimal(counts.local) + " local session(s)"@;
            let remote = decimal(counts.remote) + " remote session(s)"@;
            &&& counts.local == 0 && counts.remote == 0 ==> text == "empty"@
            &&& counts.local > 0 && counts.remote == 0 ==> text == local
            &&& counts.local == 0 && counts.remote > 0 ==> text == remote
            &&& counts.local > 0 && counts.remote > 0 ==> text == local + seq![',', ' '] + remote
        }),
{
    reveal_strlit(" local session(s)");
    reveal_strlit(" local session(s), ");
    assert(" local session(s), "@ == " local session(s)"@ + seq![',', ' ']);
    let local = decimal(counts.local) + " local session(s)"@;
    let remote = decimal(counts.remote) + " remote session(s)"@;
    if counts.local > 0 && counts.remote > 0 {
        assert(count_words(counts) == local + seq![',', ' '] + remote);
    }
}

/// The preview of a project shows its name, its counts and its entries, one line each and in their
/// order.
pub proof fn project_preview_shows_its_entries(
    group: GroupView,
    sessions: Seq<ManagedSession<Seq<char>>>,
    remote: Seq<RemoteSession<Seq<char>>>,
    frame: usize,
    i: int,
)
    requires
        0 <= i < group.entries.len(),
    ensures
        ({
            let page = group_page(group, sessions, remote, frame);
            let line = page[7 + i];
            &&& page.len() == group.entries.len() + 9
            &&& page[0][1].text == group.display_name
            &&& page[2][0].text == count_words(group.counts)
            &&& page[4][1].text == " "@ + decimal(group.counts.waiting) + " waiting"@
            &&& page[4][4].text == " "@ + decimal(group.counts.done) + " done"@
            &&& match group.entries[i] {
                GroupEntry::Local(k) => {
                    &&& line[1].text == icon_of(sessions[k as int].status)
                    &&& line[3].text == shortened(sessions[k as int].display_name, 28)
                    &&& line[5].text == "copilot"@
                    &&& line[6].text == bell(sessions[k as int].has_bell)
                },
                GroupEntry::RemoteLocal(k) => {
                    &&& line[1].text == icon_of(sessions[k as int].status)
                    &&& line[3].text == shortened(sessions[k as int].display_name, 28)
                    &&& line[5].text == "copilot"@
                    &&& line[6].text == bell(sessions[k as int].has_bell)
                },
                GroupEntry::Remote(k) => {
                    &&& line[1].text == task_icon(remote[k as int])
                    &&& line[3].text == shortened(remote[k as int].display_name, 28)
                    &&& line[5].text == REMOTE_ICON@ + " remote"@
                },
                GroupEntry::Placeholder(kind) => {
                    &&& line[1].text == placeholder_parts(kind, frame).0
                    &&& line[3].text == placeholder_parts(kind, frame).1
                },
            }
        }),
{
    let page = group_page(group, sessions, remote, frame);
    assert(page[7 + i] == entry_line(group.entries[i], sessions, remote, frame));
}

/// The preview of a session shows its name, its project, what it is doing, when it was last active
/// and whether it rings.
pub proof fn session_preview_shows_the_session(
    session: ManagedSession<Seq<char>>,
    group: GroupView,
    now: u128,
)
    ensures
        ({
            let page = session_page(session, group, now);
            &&& page[0][0].text == icon_of(session.status)
            &&& page[0][2].text == session.display_name
            &&& page[0][4].text == "copilot"@
            &&& page[2][1].text == group.display_name
            &&& page[3][0].text == group.path
            &&& page[5][1].text == status_label(session.status)
            &&& page[5][1].style == status_style(session.status)
            &&& page[6][1].text == age_of(session.last_activity, now)
            &&& session.has_bell ==> page[7][1].text == "yes 🔔"@
            &&& !session.has_bell ==> page[7][1].text == "no"@
        }),
{
}

/// The preview of a task shows its name, its project, its state, when it was last changed, and where
/// it and its pull request are; a dash stands for what is not known.
pub proof fn task_preview_shows_the_task(session: RemoteSession<Seq<char>>, group: GroupView)
    ensures
        ({
            let page = task_page(session, group);
            let told = |text: Option<Seq<char>>, shown: Seq<char>|
                match text {
                    Some(text) => shown == text,
                    None => shown == "-"@,
                };
            &&& page[0][0].text == task_icon(session)
            &&& page[0][2].text == session.display_name
            &&& page[2][1].text == group.display_name
            &&& page[4][1].text == session.state
            &&& page[4][1].style == status_style(session.status)
            &&& page[5][0].text == "updated "@ && told(session.updated_at, page[5][1].text)
            &&& page[6][0].text == "url     "@ && told(session.url, page[6][1].text)
            &&& page[7][0].text == "pr      "@ && told(session.pr_url, page[7][1].text)
        }),
{
}

/// The preview shows the session under the cursor, else the task, else the project.
pub proof fn preview_shows_what_is_selected(app: AppView, now: u128, frame: usize)
    ensures
        ({
            let page = preview(app, now, frame);
            match app.group() {
                None => page.len() == 1,
                Some(group) => {
                    &&& app.session() is Some ==> page[0][2].text == app.session()->0.display_name
                        && page[2][1].text == group.display_name
                    &&& app.session() is None && app.remote_session() is Some ==> page[0][2].text
                        == app.remote_session()->0.display_name && page[2][1].text
                        == group.display_name
                    &&& app.session() is None && app.remote_session() is None ==> page[0][1].text
                        == group.display_name && page.len() == group.entries.len() + 9
                },
            }
        }),
{
}

/// Each row of the tree is shown on a line of its own, in order.
pub proof fn rows_are_shown_in_order(app: AppView, width: nat, frame: usize, i: int)
    requires
        0 <= i < app.rows().len(),
    ensures
        shown_rows(app, width, frame).len() == app.rows().len(),
        shown_rows(app, width, frame)[i] == row_line(
            app.rows()[i],
            app.groups(),
            app.sessions,
            app.remote_sessions,
            app.collapsed,
            width,
            frame,
        ),
{
}

/// Where no row is shown it is said which sessions there are none of.
pub proof fn missing_sessions_are_named(name: Seq<char>)
    ensures
        nothing_text(name).take(3) == "No "@,
        nothing_text(name).subrange(3, 3 + name.len() as int) == name,
        nothing_text(name).subrange(3 + name.len() as int, 13 + name.len() as int) == " sessions."@,
{
    reveal_strlit("No ");
    reveal_strlit(" sessions.");
    reveal_strlit(" sessions.\n\nPress Tab to change filters or n to start Copilot.");
    let text = nothing_text(name);
    let n = name.len() as int;
    assert(text.take(3) == "No "@);
    assert(text.subrange(3, 3 + n) == name);
    assert(text.subrange(3 + n, 13 + n) == " sessions."@);
}

} // verus!
