//! What the session browser shows: its list, its detail panel, its terminal and its overlays.
use crate::markdown::{all_drawable, head_lines, push_markdown_lines, shown_lines, text_drawable};
use crate::numbers::{
    decimal, decimal_has_value, decimal_of, is_number, number_value, signed_decimal, signed_text,
};
use crate::session::{
    label_text, CopilotSession, SessionSource, SessionStatus, SessionView, Timestamp, Turn,
};
use crate::style::{
    blank_line, bold, bold_on, fg, plain, put_line, span, Color, Line, Span, SpanView, Style,
};
use crate::text::{
    chars_of, concat, count_chars, join, joined, lines, opt_str, opt_view, part, starts,
    starts_with, string_of, views, words, words_are_solid, words_of, words_of_joined,
};
use crate::view::{
    minus, padded, padded_text, tokyo_bg, tokyo_blue, tokyo_comment, tokyo_cyan, tokyo_fg,
    tokyo_green, tokyo_purple, tokyo_red, tokyo_yellow, Area,
};
use vstd::prelude::*;
use vstd::utf8::encode_utf8;

verus! {

// ---------------------------------------------------------------------------
// Times
// ---------------------------------------------------------------------------
/// The whole seconds from one instant to a later one; none where it is no later. A leap second
/// between them counts.
pub open spec fn elapsed_seconds(then: Timestamp, now: Timestamp) -> int {
    let now_of_day = now.secs as int % 86_400;
    let then_of_day = then.secs as int % 86_400;
    let leap: int = if now_of_day > then_of_day && then.nanos >= 1_000_000_000 {
        1
    } else if now_of_day < then_of_day && now.nanos >= 1_000_000_000 {
        -1
    } else {
        0
    };
    let nanos = (now.secs - then.secs + leap) * 1_000_000_000 + (now.nanos - then.nanos);
    if nanos > 0 {
        nanos / 1_000_000_000
    } else {
        0
    }
}

/// A number of seconds in words: in the largest unit of which it holds one, up to weeks.
pub open spec fn age_text(seconds: int) -> Seq<char> {
    if seconds < 60 {
        decimal(seconds as nat) + "s"@
    } else if seconds < 3_600 {
        decimal((seconds / 60) as nat) + "m"@
    } else if seconds < 86_400 {
        decimal((seconds / 3_600) as nat) + "h"@
    } else if seconds < 604_800 {
        decimal((seconds / 86_400) as nat) + "d"@
    } else {
        decimal((seconds / 604_800) as nat) + "w"@
    }
}

/// The whole seconds from one instant to a later one.
pub fn seconds_between(then: Timestamp, now: Timestamp) -> (out: u128)
    ensures
        out == elapsed_seconds(then, now),
{
    // A number of days that makes every second positive.
    let base: i128 = 86_400 * 1_000_000_000_000_000;
    let now_of_day: u128 = ((now.secs as i128 + base) as u128) % 86_400;
    let then_of_day: u128 = ((then.secs as i128 + base) as u128) % 86_400;
    assert(now_of_day == now.secs as int % 86_400);
    assert(then_of_day == then.secs as int % 86_400);
    let leap: i128 = if now_of_day > then_of_day && then.nanos >= 1_000_000_000 {
        1
    } else if now_of_day < then_of_day && now.nanos >= 1_000_000_000 {
        -1
    } else {
        0
    };
    let nanos: i128 = (now.secs as i128 - then.secs as i128 + leap) * 1_000_000_000 + (
    now.nanos as i128 - then.nanos as i128);
    if nanos > 0 {
        (nanos as u128) / 1_000_000_000
    } else {
        0
    }
}

/// How long ago a session last changed, in words.
pub fn relative_time(updated_at: Timestamp, now: Timestamp) -> (out: String)
    ensures
        out@ == age_text(elapsed_seconds(updated_at, now)),
{
    let seconds = seconds_between(updated_at, now);
    if seconds < 60 {
        return concat(&decimal_of(seconds), "s");
    }
    let minutes: u128 = seconds / 60;
    if minutes < 60 {
        return concat(&decimal_of(minutes), "m");
    }
    let hours: u128 = minutes / 60;
    assert(hours == seconds / 3_600);
    if hours < 24 {
        return concat(&decimal_of(hours), "h");
    }
    let days: u128 = hours / 24;
    assert(days == seconds / 86_400);
    if days < 7 {
        return concat(&decimal_of(days), "d");
    }
    let weeks: u128 = days / 7;
    assert(weeks == seconds / 604_800);
    concat(&decimal_of(weeks), "w")
}

/// Ten, so many times multiplied with itself.
pub open spec fn ten_to(n: nat) -> nat
    decreases n,
{
    if n == 0 {
        1
    } else {
        10 * ten_to((n - 1) as nat)
    }
}

proof fn decimal_is_short(n: nat, digits: nat)
    requires
        n < ten_to(digits),
        digits >= 1,
    ensures
        decimal(n).len() <= digits,
    decreases digits,
{
    if n >= 10 {
        assert(digits >= 2) by {
            reveal_with_fuel(ten_to, 2);
        }
        decimal_is_short(n / 10, (digits - 1) as nat);
    }
}

/// How long ago something was takes up no more than fifteen characters.
pub proof fn age_text_is_short(then: Timestamp, now: Timestamp)
    ensures
        age_text(elapsed_seconds(then, now)).len() <= 15,
{
    let seconds = elapsed_seconds(then, now);
    reveal_strlit("s");
    reveal_strlit("m");
    reveal_strlit("h");
    reveal_strlit("d");
    reveal_strlit("w");
    reveal_with_fuel(ten_to, 15);
    assert(ten_to(2) == 100);
    assert(ten_to(14) == 100_000_000_000_000);
    if seconds < 60 {
        decimal_is_short(seconds as nat, 2);
    } else if seconds < 3_600 {
        decimal_is_short((seconds / 60) as nat, 2);
    } else if seconds < 86_400 {
        decimal_is_short((seconds / 3_600) as nat, 2);
    } else if seconds < 604_800 {
        decimal_is_short((seconds / 86_400) as nat, 2);
    } else {
        decimal_is_short((seconds / 604_800) as nat, 14);
    }
}

/// A change that is not in the past was made no seconds ago.
pub proof fn later_change_is_new(then: Timestamp, now: Timestamp)
    requires
        !then.is_earlier(now),
        then.nanos < 1_000_000_000,
        now.nanos < 1_000_000_000,
    ensures
        elapsed_seconds(then, now) == 0,
{
}

// ---------------------------------------------------------------------------
// Texts
// ---------------------------------------------------------------------------
/// A text on one line: its words with single spaces between them.
pub open spec fn on_one_line(text: Seq<char>) -> Seq<char> {
    join(words(text), " "@)
}

/// The text on one line.
pub fn single_line(value: &str) -> (out: String)
    ensures
        out@ == on_one_line(value@),
{
    string_of(&joined(&words_of(&chars_of(value)), " "))
}

/// A text cut to a width, with an ellipsis for what was cut off.
pub open spec fn ellipsised(text: Seq<char>, width: nat) -> Seq<char> {
    if text.len() <= width {
        text
    } else if width <= 1 {
        seq!['…']
    } else {
        text.take(width - 1).push('…')
    }
}

/// The text cut to a width, with an ellipsis for what was cut off.
pub fn truncate_ellipsis(value: &str, max_width: usize) -> (out: String)
    ensures
        out@ == ellipsised(value@, max_width as nat),
{
    let s = chars_of(value);
    if s.len() <= max_width {
        return value.to_owned();
    }
    if max_width <= 1 {
        return string_of(&['…']);
    }
    assert(s@.subrange(0, max_width - 1) == s@.take(max_width - 1));
    let mut out = string_of(part(&s, 0, max_width - 1));
    out.push('…');
    out
}

/// A text that is cut takes up no more than the width, which is one at least.
pub proof fn ellipsised_fits(text: Seq<char>, width: nat)
    requires
        width >= 1,
    ensures
        ellipsised(text, width).len() <= width,
{
}

/// A path with a tilde for the home directory at its start.
pub open spec fn short_form(path: Seq<char>, home: Option<Seq<char>>) -> Seq<char> {
    match home {
        Some(home) => if starts(path, home) {
            "~"@ + path.skip(home.len() as int)
        } else {
            path
        },
        None => path,
    }
}

/// The path with a tilde for the home directory at its start.
pub fn short_path(path: &str, home: Option<&str>) -> (out: String)
    ensures
        out@ == short_form(path@, opt_str(home)),
{
    match home {
        Some(home) => {
            let s = chars_of(path);
            if starts_with(&s, home) {
                let n: usize = chars_of(home).len();
                assert(s@.subrange(n as int, s@.len() as int) == s@.skip(n as int));
                concat("~", &string_of(part(&s, n, s.len())))
            } else {
                path.to_owned()
            }
        },
        None => path.to_owned(),
    }
}

// ---------------------------------------------------------------------------
// The list of sessions
// ---------------------------------------------------------------------------
/// The colour and the sign of a status.
pub fn status_display(status: SessionStatus) -> (out: (Color, &'static str))
    ensures
        out.0 == status_color(status),
        out.1@ == status_sign(status),
{
    match status {
        SessionStatus::Running => (tokyo_green(), "●"),
        SessionStatus::Waiting => (tokyo_yellow(), "◐"),
        SessionStatus::Idle => (tokyo_comment(), "○"),
        SessionStatus::Error => (tokyo_red(), "✕"),
    }
}

/// The colour of a status.
pub open spec fn status_color(status: SessionStatus) -> Color {
    match status {
        SessionStatus::Running => tokyo_green(),
        SessionStatus::Waiting => tokyo_yellow(),
        SessionStatus::Idle => tokyo_comment(),
        SessionStatus::Error => tokyo_red(),
    }
}

/// The sign of a status.
pub open spec fn status_sign(status: SessionStatus) -> Seq<char> {
    match status {
        SessionStatus::Running => "●"@,
        SessionStatus::Waiting => "◐"@,
        SessionStatus::Idle => "○"@,
        SessionStatus::Error => "✕"@,
    }
}

/// The icon of a session.
pub open spec fn icon_of(source: SessionSource) -> Seq<char> {
    match source {
        SessionSource::Local => "\u{e795} "@,
        SessionSource::Remote => "\u{e709} "@,
    }
}

/// The icon of a session.
pub fn session_icon(source: SessionSource) -> (out: &'static str)
    ensures
        out@ == icon_of(source),
{
    match source {
        SessionSource::Local => "\u{e795} ",
        SessionSource::Remote => "\u{e709} ",
    }
}

/// How the icon of a session looks.
#[verifier::allow_in_spec]
pub fn session_icon_style(source: SessionSource, is_active: bool) -> Style
    returns
        (match (source, is_active) {
            (SessionSource::Local, true) => bold(tokyo_cyan()),
            (SessionSource::Local, false) => fg(tokyo_cyan()),
            (SessionSource::Remote, true) => bold(tokyo_purple()),
            (SessionSource::Remote, false) => fg(tokyo_purple()),
        }),
{
    match (source, is_active) {
        (SessionSource::Local, true) => bold(tokyo_cyan()),
        (SessionSource::Local, false) => fg(tokyo_cyan()),
        (SessionSource::Remote, true) => bold(tokyo_purple()),
        (SessionSource::Remote, false) => fg(tokyo_purple()),
    }
}

/// How what stands before a session looks.
#[verifier::allow_in_spec]
pub fn active_prefix(is_active: bool) -> Style
    returns
        (if is_active {
            bold(tokyo_blue())
        } else {
            plain()
        }),
{
    if is_active {
        bold(tokyo_blue())
    } else {
        plain()
    }
}

/// No less than one.
pub open spec fn one_at_least(n: nat) -> nat {
    if n < 1 {
        1
    } else {
        n
    }
}

/// So many spaces.
pub open spec fn spaces(n: nat) -> Seq<char> {
    Seq::new(n, |i: int| ' ')
}

/// The first line of a session in the list: its name, cut to what is left beside its icon and the
/// time of its last change, which stands at the right.
pub open spec fn title_line(
    session: SessionView,
    width: nat,
    prefix: Seq<char>,
    is_active: bool,
    name_style: Style,
    now: Timestamp,
) -> Seq<SpanView> {
    let time = age_text(elapsed_seconds(session.updated_at, now));
    let icon = icon_of(session.source);
    let room = one_at_least(minus(width, prefix.len() + icon.len() + time.len() + 1));
    let title = ellipsised(on_one_line(session.name()->0), room);
    let used = prefix.len() + icon.len() + title.len() + time.len();
    seq![
        span(prefix, active_prefix(is_active)),
        span(icon, session_icon_style(session.source, is_active)),
        span(title, name_style),
        span(spaces(one_at_least(minus(width, used))), plain()),
        span(time, fg(tokyo_comment())),
    ]
}

/// The first line of a session in the list.
pub fn session_title_line(
    session: &CopilotSession,
    width: usize,
    prefix: &str,
    is_active: bool,
    name_style: Style,
    now: Timestamp,
) -> (out: Line)
    requires
        session@.name() is Some,
        prefix@.len() + 18 <= usize::MAX,
    ensures
        out@ == title_line(session@, width as nat, prefix@, is_active, name_style, now),
{
    let time = relative_time(session.updated_at, now);
    let icon = session_icon(session.source);
    proof {
        age_text_is_short(session.updated_at, now);
        reveal_strlit("\u{e795} ");
        reveal_strlit("\u{e709} ");
    }
    let fixed: usize = count_chars(prefix) + count_chars(icon) + count_chars(&time) + 1;
    let free: usize = if width < fixed { 0 } else { width - fixed };
    let room: usize = if free < 1 { 1 } else { free };
    let title = truncate_ellipsis(&single_line(&session.display_name()), room);
    proof {
        ellipsised_fits(on_one_line(session@.name()->0), room as nat);
    }
    let used: usize = fixed - 1 + count_chars(&title);
    let left: usize = if width < used { 0 } else { width - used };
    let gap: usize = if left < 1 { 1 } else { left };
    let spacer = padded_text("", gap);
    proof {
        reveal_strlit("");
        assert(spacer@ == spaces(gap as nat));
    }
    let mut line = Line::of(prefix, active_prefix(is_active));
    line.put(icon, session_icon_style(session.source, is_active));
    line.put(&title, name_style);
    line.put(&spacer, plain());
    line.put(&time, fg(tokyo_comment()));
    assert(line@ == title_line(session@, width as nat, prefix@, is_active, name_style, now));
    line
}

/// What is said of a session below its name: the last response, where it holds something.
pub open spec fn description(session: SessionView) -> Seq<char> {
    if session.last_agent_message is Some && on_one_line(session.last_agent_message->0).len() > 0 {
        on_one_line(session.last_agent_message->0)
    } else if session.source == SessionSource::Remote {
        "Remote agent task."@
    } else {
        "No agent response yet."@
    }
}

/// The second line of a session in the list: what is said of it, cut to what is left.
pub open spec fn description_line(
    session: SessionView,
    width: nat,
    prefix: Seq<char>,
    is_active: bool,
) -> Seq<SpanView> {
    seq![
        span(prefix, active_prefix(is_active)),
        span(
            ellipsised(description(session), one_at_least(minus(width, prefix.len()))),
            fg(tokyo_comment()),
        ),
    ]
}

/// The second line of a session in the list.
pub fn session_description_line(
    session: &CopilotSession,
    width: usize,
    prefix: &str,
    is_active: bool,
) -> (out: Line)
    ensures
        out@ == description_line(session@, width as nat, prefix@, is_active),
{
    let standing = if session.source == SessionSource::Remote {
        "Remote agent task.".to_owned()
    } else {
        "No agent response yet.".to_owned()
    };
    let message = match &session.last_agent_message {
        Some(message) => {
            let text = single_line(message);
            if count_chars(&text) > 0 {
                text
            } else {
                standing
            }
        },
        None => standing,
    };
    let taken: usize = count_chars(prefix);
    let free: usize = if width < taken { 0 } else { width - taken };
    let room: usize = if free < 1 { 1 } else { free };
    let mut line = Line::of(prefix, active_prefix(is_active));
    line.put(&truncate_ellipsis(&message, room), fg(tokyo_comment()));
    assert(line@ == description_line(session@, width as nat, prefix@, is_active));
    line
}

/// What stands before a session in the list.
pub open spec fn cursor_text(is_active: bool) -> Seq<char> {
    if is_active {
        "▌ "@
    } else {
        "  "@
    }
}

/// A session in the list.
pub open spec fn item_view(
    session: SessionView,
    width: nat,
    is_cursor: bool,
    is_selected: bool,
    is_focused: bool,
    now: Timestamp,
) -> (Seq<SpanView>, Seq<SpanView>) {
    let active = is_cursor && is_focused;
    let name_style = if active || is_selected {
        bold(tokyo_fg())
    } else {
        fg(tokyo_fg())
    };
    (
        title_line(session, width, cursor_text(active), active, name_style, now),
        description_line(session, width, cursor_text(active), active),
    )
}

/// A session in the list: two lines, with a mark where the cursor is.
pub fn session_item(
    session: &CopilotSession,
    width: usize,
    is_cursor: bool,
    is_selected: bool,
    is_focused: bool,
    now: Timestamp,
) -> (out: (Line, Line))
    requires
        session@.name() is Some,
    ensures
        (out.0@, out.1@) == item_view(
            session@,
            width as nat,
            is_cursor,
            is_selected,
            is_focused,
            now,
        ),
{
    let active = is_cursor && is_focused;
    let name_style = if active || is_selected { bold(tokyo_fg()) } else { fg(tokyo_fg()) };
    let prefix = if active { "▌ " } else { "  " };
    proof {
        reveal_strlit("▌ ");
        reveal_strlit("  ");
    }
    (
        session_title_line(session, width, prefix, active, name_style, now),
        session_description_line(session, width, prefix, active),
    )
}

/// The list of sessions: those at the places `order`, with the cursor at the place `cursor` of the
/// list.
pub open spec fn list_view(
    sessions: Seq<SessionView>,
    order: Seq<usize>,
    cursor: usize,
    selected: Option<usize>,
    is_focused: bool,
    width: nat,
    now: Timestamp,
) -> Seq<(Seq<SpanView>, Seq<SpanView>)> {
    Seq::new(
        order.len(),
        |i: int|
            item_view(
                sessions[order[i] as int],
                width,
                cursor == i,
                selected == Some(order[i]),
                is_focused,
                now,
            ),
    )
}

/// Items of the list, as contracts speak of them.
pub open spec fn item_views(items: Seq<(Line, Line)>) -> Seq<(Seq<SpanView>, Seq<SpanView>)> {
    items.map_values(|item: (Line, Line)| (item.0@, item.1@))
}

/// The list of sessions.
pub fn session_list(
    sessions: &Vec<CopilotSession>,
    order: &Vec<usize>,
    cursor: usize,
    selected: Option<usize>,
    is_focused: bool,
    width: usize,
    now: Timestamp,
) -> (out: Vec<(Line, Line)>)
    requires
        forall|i: int| 0 <= i < order@.len() ==> (#[trigger] order@[i]) < sessions@.len(),
        forall|i: int|
            0 <= i < order@.len() ==> sessions@[#[trigger] order@[i] as int]@.name() is Some,
    ensures
        item_views(out@) == list_view(
            views(sessions@),
            order@,
            cursor,
            selected,
            is_focused,
            width as nat,
            now,
        ),
{
    let ghost wanted = list_view(
        views(sessions@),
        order@,
        cursor,
        selected,
        is_focused,
        width as nat,
        now,
    );
    let mut out: Vec<(Line, Line)> = Vec::new();
    let mut i: usize = 0;
    while i < order.len()
        invariant
            i <= order.len(),
            forall|k: int| 0 <= k < order@.len() ==> (#[trigger] order@[k]) < sessions@.len(),
            forall|k: int|
                0 <= k < order@.len() ==> sessions@[#[trigger] order@[k] as int]@.name() is Some,
            wanted == list_view(
                views(sessions@),
                order@,
                cursor,
                selected,
                is_focused,
                width as nat,
                now,
            ),
            item_views(out@) == wanted.take(i as int),
        decreases order.len() - i,
    {
        let place: usize = order[i];
        let is_selected = match selected {
            Some(index) => index == place,
            None => false,
        };
        let ghost before = out@;
        let item = session_item(
            &sessions[place],
            width,
            cursor == i,
            is_selected,
            is_focused,
            now,
        );
        assert(views(sessions@)[place as int] == sessions@[place as int]@);
        assert((item.0@, item.1@) == wanted[i as int]);
        out.push(item);
        assert(item_views(out@) == item_views(before).push(wanted[i as int]));
        i += 1;
    }
    assert(wanted.take(order@.len() as int) == wanted);
    out
}

/// Where the cursor stands in a list, where it stands in it.
pub fn list_cursor(cursor: usize, length: usize) -> (out: Option<usize>)
    ensures
        out == if cursor < length {
            Some(cursor)
        } else {
            None
        },
{
    if cursor < length {
        Some(cursor)
    } else {
        None
    }
}

/// The first line of a session fills the width, where there is room for it.
pub proof fn title_line_fills_the_width(
    session: SessionView,
    width: nat,
    prefix: Seq<char>,
    is_active: bool,
    name_style: Style,
    now: Timestamp,
)
    requires
        prefix.len() + 2 + age_text(elapsed_seconds(session.updated_at, now)).len() + 1 < width,
    ensures
        crate::style::line_width(
            title_line(session, width, prefix, is_active, name_style, now),
        ) == width,
{
    let line = title_line(session, width, prefix, is_active, name_style, now);
    reveal_strlit("\u{e795} ");
    reveal_strlit("\u{e709} ");
    reveal_with_fuel(crate::style::line_width, 6);
    let time = age_text(elapsed_seconds(session.updated_at, now));
    let icon = icon_of(session.source);
    assert(icon.len() == 2);
    let room = one_at_least(minus(width, prefix.len() + icon.len() + time.len() + 1));
    ellipsised_fits(on_one_line(session.name()->0), room);
    assert(line.drop_last().drop_last().drop_last().drop_last().drop_last().len() == 0);
}

// ---------------------------------------------------------------------------
// The detail panel
// ---------------------------------------------------------------------------
/// A line with a label and a text.
pub open spec fn info(label: Seq<char>, text: Seq<char>, style: Style) -> Seq<SpanView> {
    seq![span(label, fg(tokyo_comment())), span(text, style)]
}

/// A line with a label and a text, where there is one.
pub open spec fn opt_info(label: Seq<char>, text: Option<Seq<char>>) -> Seq<Seq<SpanView>> {
    match text {
        Some(text) => seq![info(label, text, fg(tokyo_fg()))],
        None => seq![],
    }
}

/// What is said of a task.
pub open spec fn task_text(state: Option<Seq<char>>) -> Seq<char> {
    match state {
        Some(state) => "Remote agent task ("@ + state + ")"@,
        None => "Remote agent task"@,
    }
}

/// What is known of a session, line by line.
pub open spec fn info_view(session: SessionView, home: Option<Seq<char>>) -> Seq<Seq<SpanView>> {
    seq![
        info("  Title:     "@, session.name()->0, bold(tokyo_fg())),
        info("  Directory: "@, short_form(session.cwd, home), fg(tokyo_fg())),
        info(
            "  Status:    "@,
            status_sign(session.status) + " "@ + label_text(session.status),
            bold(status_color(session.status)),
        ),
    ] + opt_info("  Repo:      "@, session.repository) + opt_info(
        "  Branch:    "@,
        session.branch,
    ) + if session.source == SessionSource::Remote {
        seq![
            seq![
                span("  Source:    "@, fg(tokyo_comment())),
                span("\u{e709} "@, fg(tokyo_purple())),
                span(task_text(session.remote_state), fg(tokyo_purple())),
            ],
        ] + opt_info("  User:      "@, session.remote_user) + opt_info(
            "  PR:        "@,
            session.pull_request,
        ) + opt_info("  URL:       "@, session.remote_url)
    } else {
        seq![
            seq![
                span("  Source:    "@, fg(tokyo_comment())),
                span(icon_of(session.source), session_icon_style(session.source, false)),
                span("Local terminal session"@, fg(tokyo_cyan())),
            ],
        ]
    }
}

fn info_line(label: &str, text: &str, style: Style) -> (out: Line)
    ensures
        out@ == info(label@, text@, style),
{
    let mut line = Line::of(label, fg(tokyo_comment()));
    line.put(text, style);
    assert(line@ == info(label@, text@, style));
    line
}

fn put_info(lines: &mut Vec<Line>, label: &str, text: &Option<String>)
    ensures
        views(final(lines)@) == views(old(lines)@) + opt_info(label@, opt_view(*text)),
{
    match text {
        Some(text) => {
            put_line(lines, info_line(label, text, fg(tokyo_fg())));
        },
        None => {},
    }
    assert(views(lines@) == views(old(lines)@) + opt_info(label@, opt_view(*text)));
}

/// What is known of a session, line by line.
pub fn info_lines(session: &CopilotSession, home: Option<&str>) -> (out: Vec<Line>)
    requires
        session@.name() is Some,
    ensures
        views(out@) == info_view(session@, opt_str(home)),
{
    let mut out: Vec<Line> = Vec::new();
    let (color, sign) = status_display(session.status);
    put_line(&mut out, info_line("  Title:     ", &session.display_name(), bold(tokyo_fg())));
    put_line(
        &mut out,
        info_line("  Directory: ", &short_path(&session.cwd, home), fg(tokyo_fg())),
    );
    let state = concat(&concat(sign, " "), session.status.label());
    put_line(&mut out, info_line("  Status:    ", &state, bold(color)));
    let ghost first = seq![
        info("  Title:     "@, session@.name()->0, bold(tokyo_fg())),
        info("  Directory: "@, short_form(session@.cwd, opt_str(home)), fg(tokyo_fg())),
        info(
            "  Status:    "@,
            status_sign(session.status) + " "@ + label_text(session.status),
            bold(status_color(session.status)),
        ),
    ];
    assert(views(out@) == first);
    put_info(&mut out, "  Repo:      ", &session.repository);
    put_info(&mut out, "  Branch:    ", &session.branch);
    let ghost second = first + opt_info("  Repo:      "@, session@.repository) + opt_info(
        "  Branch:    "@,
        session@.branch,
    );
    assert(views(out@) == second);
    let mut line = Line::of("  Source:    ", fg(tokyo_comment()));
    if session.source == SessionSource::Remote {
        line.put("\u{e709} ", fg(tokyo_purple()));
        let task = match &session.remote_state {
            Some(state) => concat(&concat("Remote agent task (", state), ")"),
            None => "Remote agent task".to_owned(),
        };
        line.put(&task, fg(tokyo_purple()));
        let ghost source = seq![
            span("  Source:    "@, fg(tokyo_comment())),
            span("\u{e709} "@, fg(tokyo_purple())),
            span(task_text(session@.remote_state), fg(tokyo_purple())),
        ];
        assert(line@ == source);
        put_line(&mut out, line);
        assert(views(out@) == second + seq![source]);
        put_info(&mut out, "  User:      ", &session.remote_user);
        put_info(&mut out, "  PR:        ", &session.pull_request);
        put_info(&mut out, "  URL:       ", &session.remote_url);
        assert(views(out@) == second + (seq![source] + opt_info(
            "  User:      "@,
            session@.remote_user,
        ) + opt_info("  PR:        "@, session@.pull_request) + opt_info(
            "  URL:       "@,
            session@.remote_url,
        )));
    } else {
        line.put(session_icon(session.source), session_icon_style(session.source, false));
        line.put("Local terminal session", fg(tokyo_cyan()));
        let ghost source = seq![
            span("  Source:    "@, fg(tokyo_comment())),
            span(icon_of(session.source), session_icon_style(session.source, false)),
            span("Local terminal session"@, fg(tokyo_cyan())),
        ];
        assert(line@ == source);
        put_line(&mut out, line);
        assert(views(out@) == second + seq![source]);
    }
    assert(views(out@) == info_view(session@, opt_str(home)));
    out
}

/// The height of the card with what is known of a session: a line more than it has lines, but no
/// more than there is room for.
pub fn info_height(lines: u16, room: u16) -> (out: u16)
    requires
        lines < u16::MAX,
    ensures
        out == if lines + 1 < room {
            (lines + 1) as int
        } else {
            room as int
        },
        out <= room && out <= lines + 1,
        out == room || out == lines + 1,
{
    if lines + 1 < room {
        lines + 1
    } else {
        room
    }
}

/// Of a response no more lines are shown than may be, beside its heading, the line below it and a
/// note that something is left out.
pub proof fn responses_are_cut(response: Seq<char>)
    ensures
        response_view(Some(response)).len() <= MAX_RESPONSE_LINES + 3,
{
    crate::markdown::each_line_is_shown(
        head_lines(response, Some(MAX_RESPONSE_LINES)),
        tokyo_fg(),
    );
}

/// How many lines of a response are shown.
pub const MAX_RESPONSE_LINES: usize = 20;

/// A line in the colour of what matters less.
pub open spec fn muted(text: Seq<char>) -> Seq<SpanView> {
    seq![span(text, fg(tokyo_comment()))]
}

/// The message of an exchange.
pub open spec fn message_view(message: Option<Seq<char>>) -> Seq<Seq<SpanView>> {
    match message {
        Some(message) => seq![seq![span("  You"@, bold(tokyo_blue()))]] + shown_lines(
            head_lines(message, None),
            tokyo_fg(),
        ) + seq![blank_line()],
        None => seq![],
    }
}

/// The response of an exchange, as far as it is shown.
pub open spec fn response_view(response: Option<Seq<char>>) -> Seq<Seq<SpanView>> {
    match response {
        Some(response) => {
            let shown = head_lines(response, Some(MAX_RESPONSE_LINES));
            seq![seq![span("  Copilot"@, bold(tokyo_fg()))]] + shown_lines(shown, tokyo_fg()) + (
            if shown.len() < lines(response).len() {
                seq![muted("  … (truncated)"@)]
            } else {
                seq![]
            }) + seq![blank_line()]
        },
        None => seq![],
    }
}

/// An exchange, line by line.
pub open spec fn turn_view(turn: Turn<Seq<char>>) -> Seq<Seq<SpanView>> {
    message_view(turn.user_message) + response_view(turn.assistant_response) + seq![
        muted("  ─── Turn "@ + signed_decimal(turn.turn_index + 1) + " "@),
        blank_line(),
    ]
}

/// Exchanges, line by line.
pub open spec fn turns_view(turns: Seq<Turn<Seq<char>>>) -> Seq<Seq<SpanView>>
    decreases turns.len(),
{
    if turns.len() == 0 {
        seq![]
    } else {
        turns_view(turns.drop_last()) + turn_view(turns.last())
    }
}

/// The exchange can be shown.
pub open spec fn turn_is_drawable(turn: Turn<Seq<char>>) -> bool {
    &&& turn.turn_index < i64::MAX
    &&& turn.user_message is Some ==> all_drawable(head_lines(turn.user_message->0, None))
    &&& turn.assistant_response is Some ==> all_drawable(
        head_lines(turn.assistant_response->0, Some(MAX_RESPONSE_LINES)),
    )
}

/// Whether the exchange can be shown.
pub fn turn_drawable(turn: &Turn) -> (yes: bool)
    ensures
        yes == turn_is_drawable(turn@),
{
    let message = match &turn.user_message {
        Some(message) => text_drawable(message, None),
        None => true,
    };
    let response = match &turn.assistant_response {
        Some(response) => text_drawable(response, Some(MAX_RESPONSE_LINES)),
        None => true,
    };
    turn.turn_index < i64::MAX && message && response
}

fn put_message(lines: &mut Vec<Line>, message: &Option<String>)
    requires
        message is Some ==> all_drawable(head_lines(message->0@, None)),
    ensures
        views(final(lines)@) == views(old(lines)@) + message_view(opt_view(*message)),
{
    match message {
        Some(message) => {
            put_line(lines, Line::of("  You", bold(tokyo_blue())));
            let _ = push_markdown_lines(lines, message, tokyo_fg(), None);
            put_line(lines, Line::blank());
        },
        None => {},
    }
    assert(views(lines@) == views(old(lines)@) + message_view(opt_view(*message)));
}

fn put_response(lines: &mut Vec<Line>, response: &Option<String>)
    requires
        response is Some ==> all_drawable(head_lines(response->0@, Some(MAX_RESPONSE_LINES))),
    ensures
        views(final(lines)@) == views(old(lines)@) + response_view(opt_view(*response)),
{
    match response {
        Some(response) => {
            put_line(lines, Line::of("  Copilot", bold(tokyo_fg())));
            if push_markdown_lines(lines, response, tokyo_fg(), Some(MAX_RESPONSE_LINES)) {
                put_line(lines, Line::of("  … (truncated)", fg(tokyo_comment())));
            }
            put_line(lines, Line::blank());
        },
        None => {},
    }
    assert(views(lines@) == views(old(lines)@) + response_view(opt_view(*response)));
}

fn put_turn(lines: &mut Vec<Line>, turn: &Turn)
    requires
        turn_is_drawable(turn@),
    ensures
        views(final(lines)@) == views(old(lines)@) + turn_view(turn@),
{
    put_message(lines, &turn.user_message);
    put_response(lines, &turn.assistant_response);
    let number = signed_text(turn.turn_index as i128 + 1);
    let title = concat(&concat("  ─── Turn ", &number), " ");
    put_line(lines, Line::of(&title, fg(tokyo_comment())));
    put_line(lines, Line::blank());
    assert(views(lines@) == views(old(lines)@) + turn_view(turn@));
}

/// The log of a task, line by line.
pub open spec fn log_lines_view(log: Option<Seq<char>>) -> Seq<Seq<SpanView>> {
    match log {
        Some(log) => if log.len() > 0 {
            shown_lines(head_lines(log, None), tokyo_fg())
        } else {
            seq![muted("  No remote task log output available."@)]
        },
        None => seq![muted("  Loading remote task log…"@)],
    }
}

/// What happened in a session, line by line: the log of a task, or the exchanges.
pub open spec fn history_view(session: SessionView, turns: Seq<Turn<Seq<char>>>) -> Seq<
    Seq<SpanView>,
> {
    if session.source == SessionSource::Remote {
        seq![
            seq![
                span(
                    "  Remote agent task log: gh agent-task view "@ + session.id + " --log"@,
                    fg(tokyo_purple()),
                ),
            ],
            blank_line(),
        ] + log_lines_view(session.remote_log) + seq![
            blank_line(),
            muted("  Press [o] to open this "@ + "task in your browser."@),
        ]
    } else if turns.len() == 0 {
        seq![
            muted("  No conversation history yet."@),
            blank_line(),
            muted("  Press [o] to open this session in Copilot."@),
        ]
    } else {
        turns_view(turns)
    }
}

/// What happened in the session can be shown.
pub open spec fn history_is_drawable(session: SessionView, turns: Seq<Turn<Seq<char>>>) -> bool {
    if session.source == SessionSource::Remote {
        session.remote_log is Some && session.remote_log->0.len() > 0 ==> all_drawable(
            head_lines(session.remote_log->0, None),
        )
    } else {
        forall|i: int| 0 <= i < turns.len() ==> turn_is_drawable(#[trigger] turns[i])
    }
}

/// Whether what happened in the session can be shown.
pub fn history_drawable(session: &CopilotSession, turns: &Vec<Turn>) -> (yes: bool)
    ensures
        yes == history_is_drawable(session@, views(turns@)),
{
    let ghost all = views(turns@);
    if session.source == SessionSource::Remote {
        return match &session.remote_log {
            Some(log) => count_chars(log) == 0 || text_drawable(log, None),
            None => true,
        };
    }
    let mut i: usize = 0;
    while i < turns.len()
        invariant
            i <= turns.len(),
            all == views(turns@),
            session.source != SessionSource::Remote,
            forall|k: int| 0 <= k < i ==> turn_is_drawable(#[trigger] all[k]),
        decreases turns.len() - i,
    {
        assert(all[i as int] == turns@[i as int]@);
        if !turn_drawable(&turns[i]) {
            return false;
        }
        i += 1;
    }
    true
}

/// What happened in a session, line by line.
pub fn history_lines(session: &CopilotSession, turns: &Vec<Turn>) -> (out: Vec<Line>)
    requires
        history_is_drawable(session@, views(turns@)),
    ensures
        views(out@) == history_view(session@, views(turns@)),
{
    let mut out: Vec<Line> = Vec::new();
    let ghost all = views(turns@);
    if session.source == SessionSource::Remote {
        let title = concat(
            &concat("  Remote agent task log: gh agent-task view ", &session.id),
            " --log",
        );
        put_line(&mut out, Line::of(&title, fg(tokyo_purple())));
        put_line(&mut out, Line::blank());
        match &session.remote_log {
            Some(log) => {
                if count_chars(log) > 0 {
                    let _ = push_markdown_lines(&mut out, log, tokyo_fg(), None);
                } else {
                    put_line(
                        &mut out,
                        Line::of("  No remote task log output available.", fg(tokyo_comment())),
                    );
                }
            },
            None => {
                put_line(&mut out, Line::of("  Loading remote task log…", fg(tokyo_comment())));
            },
        }
        put_line(&mut out, Line::blank());
        let hint = concat("  Press [o] to open this ", "task in your browser.");
        put_line(&mut out, Line::of(&hint, fg(tokyo_comment())));
        assert(views(out@) == history_view(session@, all));
        return out;
    }
    if turns.len() == 0 {
        put_line(&mut out, Line::of("  No conversation history yet.", fg(tokyo_comment())));
        put_line(&mut out, Line::blank());
        put_line(
            &mut out,
            Line::of("  Press [o] to open this session in Copilot.", fg(tokyo_comment())),
        );
        assert(views(out@) == history_view(session@, all));
        return out;
    }
    let mut i: usize = 0;
    assert(views(out@) == turns_view(all.take(0)));
    while i < turns.len()
        invariant
            i <= turns.len(),
            all == views(turns@),
            forall|k: int| 0 <= k < all.len() ==> turn_is_drawable(#[trigger] all[k]),
            views(out@) == turns_view(all.take(i as int)),
        decreases turns.len() - i,
    {
        assert(all[i as int] == turns@[i as int]@);
        assert(all.take(i + 1).drop_last() == all.take(i as int));
        assert(all.take(i + 1).last() == turns@[i as int]@);
        put_turn(&mut out, &turns[i]);
        i += 1;
    }
    assert(all.take(turns@.len() as int) == all);
    out
}

/// How far lines can be scrolled: until the last one stands at the end of the room.
pub fn max_scroll(total: usize, visible: usize) -> (out: usize)
    ensures
        out == minus(total as nat, visible as nat),
{
    if total < visible {
        0
    } else {
        total - visible
    }
}

/// The scroll, but no more than the lines can be scrolled.
pub fn clamp_scroll(scroll: usize, total: usize, visible: usize) -> (out: usize)
    ensures
        out == if scroll > minus(total as nat, visible as nat) {
            minus(total as nat, visible as nat)
        } else {
            scroll as nat
        },
        scroll + visible <= total ==> out == scroll,
        scroll + visible > total && visible <= total ==> out + visible == total,
        visible > total ==> out == 0,
{
    let most = max_scroll(total, visible);
    if scroll > most {
        most
    } else {
        scroll
    }
}

/// The title above what happened in a session.
pub fn log_title(is_focused: bool, source: SessionSource, has_turns: bool) -> (out: &'static str)
    ensures
        out@ == if is_focused && source == SessionSource::Remote {
            " Preview [k/j scroll, o=open browser] "@
        } else if is_focused && has_turns {
            " Conversation [k/j scroll, o=open live] "@
        } else {
            " Conversation "@
        },
{
    if is_focused && source == SessionSource::Remote {
        " Preview [k/j scroll, o=open browser] "
    } else if is_focused && has_turns {
        " Conversation [k/j scroll, o=open live] "
    } else {
        " Conversation "
    }
}

/// What the list shows where there are no sessions.
pub fn no_sessions_lines() -> (out: Vec<Line>)
    ensures
        views(out@) == seq![
            muted("No Copilot sessions found."@),
            blank_line(),
            muted("Press [n] to start a new session."@),
        ],
{
    let mut out: Vec<Line> = Vec::new();
    put_line(&mut out, Line::of("No Copilot sessions found.", fg(tokyo_comment())));
    put_line(&mut out, Line::blank());
    put_line(&mut out, Line::of("Press [n] to start a new session.", fg(tokyo_comment())));
    assert(views(out@) == seq![
        muted("No Copilot sessions found."@),
        blank_line(),
        muted("Press [n] to start a new session."@),
    ]);
    out
}

/// What the detail panel shows where no session is selected.
pub fn no_selection_lines() -> (out: Vec<Line>)
    ensures
        views(out@) == seq![
            muted("Select a session with j/k + Enter"@),
            blank_line(),
            muted("Press [o] to open a live terminal session"@),
        ],
{
    let mut out: Vec<Line> = Vec::new();
    put_line(&mut out, Line::of("Select a session with j/k + Enter", fg(tokyo_comment())));
    put_line(&mut out, Line::blank());
    put_line(&mut out, Line::of("Press [o] to open a live terminal session", fg(tokyo_comment())));
    assert(views(out@) == seq![
        muted("Select a session with j/k + Enter"@),
        blank_line(),
        muted("Press [o] to open a live terminal session"@),
    ]);
    out
}

/// Three lines in the middle of a panel.
pub fn middle_area(inner: Area) -> (out: Area)
    requires
        inner.y + minus(inner.height as nat / 2, 1) <= u16::MAX,
    ensures
        out == (Area {
            x: inner.x,
            y: (inner.y + minus(inner.height as nat / 2, 1)) as u16,
            width: inner.width,
            height: 3,
        }),
{
    let half: u16 = inner.height / 2;
    let down: u16 = if half < 1 { 0 } else { half - 1 };
    Area { x: inner.x, y: inner.y + down, width: inner.width, height: 3 }
}

// ---------------------------------------------------------------------------
// The footer
// ---------------------------------------------------------------------------
/// What the browser is being used for.
#[derive(Debug, Clone, Copy, PartialEq, Eq, Structural)]
pub enum Mode {
    Normal,
    NewSessionDir,
    Terminal,
    Help,
}

/// The parts of the browser.
#[derive(Debug, Clone, Copy, PartialEq, Eq, Structural)]
pub enum Panel {
    Sessions,
    Detail,
}

/// The shortcuts that the footer shows; `has_target` tells whether there is a session under the
/// cursor, or in the detail panel.
pub open spec fn panel_shortcuts(panel: Panel, has_target: bool) -> Seq<(Seq<char>, Seq<char>)> {
    let own = match (panel, has_target) {
        (Panel::Sessions, true) => seq![
            ("Navigate"@, "j/k"@),
            ("View"@, "Enter"@),
            ("Open"@, "o"@),
        ],
        (Panel::Sessions, false) => seq![("Navigate"@, "j/k"@)],
        (Panel::Detail, true) => seq![("Scroll"@, "j/k"@), ("Back"@, "h/Esc"@), ("Open"@, "o"@)],
        (Panel::Detail, false) => seq![("Scroll"@, "j/k"@), ("Back"@, "h/Esc"@)],
    };
    own + seq![("New"@, "n"@), ("Help"@, "?"@)]
}

/// Pairs of texts, as contracts speak of them.
pub open spec fn word_pairs(pairs: Seq<(&'static str, &'static str)>) -> Seq<
    (Seq<char>, Seq<char>),
> {
    pairs.map_values(|pair: (&'static str, &'static str)| (pair.0@, pair.1@))
}

/// The shortcuts that the footer shows: what they do, and the key.
pub fn footer_shortcuts(panel: Panel, has_target: bool) -> (out: Vec<
    (&'static str, &'static str),
>)
    ensures
        word_pairs(out@) == panel_shortcuts(panel, has_target),
{
    let mut out: Vec<(&'static str, &'static str)> = Vec::new();
    match panel {
        Panel::Sessions => {
            out.push(("Navigate", "j/k"));
            if has_target {
                out.push(("View", "Enter"));
                out.push(("Open", "o"));
            }
        },
        Panel::Detail => {
            out.push(("Scroll", "j/k"));
            out.push(("Back", "h/Esc"));
            if has_target {
                out.push(("Open", "o"));
            }
        },
    }
    out.push(("New", "n"));
    out.push(("Help", "?"));
    assert(word_pairs(out@) == panel_shortcuts(panel, has_target));
    out
}

/// The shortcuts in words.
pub open spec fn shortcut_words(pairs: Seq<(Seq<char>, Seq<char>)>) -> Seq<Seq<char>> {
    pairs.map_values(|pair: (Seq<char>, Seq<char>)| pair.0 + ": "@ + pair.1)
}

/// The shortcuts that the footer shows, as one text.
pub fn footer_text(panel: Panel, has_target: bool) -> (out: String)
    ensures
        out@ == join(shortcut_words(panel_shortcuts(panel, has_target)), "  "@),
{
    let pairs = footer_shortcuts(panel, has_target);
    let ghost wanted = shortcut_words(panel_shortcuts(panel, has_target));
    let mut parts: Vec<Vec<char>> = Vec::new();
    let mut i: usize = 0;
    while i < pairs.len()
        invariant
            i <= pairs.len(),
            word_pairs(pairs@) == panel_shortcuts(panel, has_target),
            wanted == shortcut_words(panel_shortcuts(panel, has_target)),
            views(parts@) == wanted.take(i as int),
        decreases pairs.len() - i,
    {
        let ghost before = parts@;
        let (action, key) = pairs[i];
        assert(word_pairs(pairs@)[i as int] == (action@, key@));
        parts.push(chars_of(&concat(&concat(action, ": "), key)));
        assert(views(parts@) == views(before).push(wanted[i as int]));
        i += 1;
    }
    assert(wanted.take(pairs@.len() as int) == wanted);
    string_of(&joined(&parts, "  "))
}

/// The footer.
pub open spec fn footer_view(mode: Mode, panel: Panel, has_target: bool) -> SpanView {
    match mode {
        Mode::NewSessionDir => span("Launch: Enter  Cancel: Esc"@, fg(tokyo_yellow())),
        Mode::Terminal => span(
            "Fullscreen: Ctrl+F  Detach: Ctrl+W  Input: forwarded to Copilot"@,
            fg(tokyo_green()),
        ),
        Mode::Help => span("Scroll: j/k  Close: Esc/q  Help: ?"@, fg(tokyo_comment())),
        Mode::Normal => span(
            join(shortcut_words(panel_shortcuts(panel, has_target)), "  "@),
            fg(tokyo_comment()),
        ),
    }
}

/// The footer.
pub fn footer(mode: Mode, panel: Panel, has_target: bool) -> (out: Span)
    ensures
        out@ == footer_view(mode, panel, has_target),
{
    match mode {
        Mode::NewSessionDir => Span {
            text: "Launch: Enter  Cancel: Esc".to_owned(),
            style: fg(tokyo_yellow()),
        },
        Mode::Terminal => Span {
            text: "Fullscreen: Ctrl+F  Detach: Ctrl+W  Input: forwarded to Copilot".to_owned(),
            style: fg(tokyo_green()),
        },
        Mode::Help => Span {
            text: "Scroll: j/k  Close: Esc/q  Help: ?".to_owned(),
            style: fg(tokyo_comment()),
        },
        Mode::Normal => Span { text: footer_text(panel, has_target), style: fg(tokyo_comment()) },
    }
}

// ---------------------------------------------------------------------------
// Overlays
// ---------------------------------------------------------------------------
/// What stands in the field for a directory.
pub fn input_text(input: &str) -> (out: String)
    ensures
        out@ == "▶ "@ + input@ + "█"@,
{
    concat(&concat("▶ ", input), "█")
}

/// A heading in the list of shortcuts.
pub open spec fn heading_line(text: Seq<char>) -> Seq<SpanView> {
    seq![span("  "@ + text, bold(tokyo_blue()))]
}

/// A shortcut in the list.
pub open spec fn shortcut_line(key: Seq<char>, action: Seq<char>) -> Seq<SpanView> {
    seq![span("  "@ + padded(key, 18), fg(tokyo_blue())), span(action, fg(tokyo_fg()))]
}

fn help_heading(text: &str) -> (out: Line)
    ensures
        out@ == heading_line(text@),
{
    Line::of(&concat("  ", text), bold(tokyo_blue()))
}

fn help_shortcut(key: &str, action: &str) -> (out: Line)
    ensures
        out@ == shortcut_line(key@, action@),
{
    let mut line = Line::of(&concat("  ", &padded_text(key, 18)), fg(tokyo_blue()));
    line.put(action, fg(tokyo_fg()));
    assert(line@ == shortcut_line(key@, action@));
    line
}

/// The list of shortcuts.
pub open spec fn help_view() -> Seq<Seq<SpanView>> {
    seq![
        heading_line("Global"@),
        shortcut_line("?"@, "Show or hide this shortcut help"@),
        shortcut_line("q"@, "Quit from normal mode"@),
        shortcut_line("Ctrl+C"@, "Quit"@),
        seq![],
        heading_line("Sessions panel"@),
        shortcut_line("j / ↓"@, "Move selection down"@),
        shortcut_line("k / ↑"@, "Move selection up"@),
        shortcut_line("Enter / Space"@, "View the selected session"@),
        shortcut_line("o"@, "Open the selected session in Copilot"@),
        shortcut_line("n"@, "Launch a new Copilot session"@),
        shortcut_line("r"@, "Reload sessions from disk"@),
        seq![],
        heading_line("Detail panel"@),
        shortcut_line("j / ↓"@, "Scroll conversation down"@),
        shortcut_line("k / ↑"@, "Scroll conversation up"@),
        shortcut_line("PageDown / PageUp"@, "Scroll conversation by page"@),
        shortcut_line("h / ← / Esc"@, "Return to the sessions panel"@),
        shortcut_line("o"@, "Open the selected session in Copilot"@),
        shortcut_line("n"@, "Launch a new Copilot session"@),
        shortcut_line("r"@, "Reload sessions from disk"@),
        seq![],
        heading_line("Embedded terminal"@),
        shortcut_line("Ctrl+F"@, "Toggle fullscreen"@),
        shortcut_line("Ctrl+W"@, "Detach from the embedded session"@),
        shortcut_line("Mouse"@, "Forwarded to Copilot while fullscreen"@),
        seq![],
        heading_line("New session prompt"@),
        shortcut_line("Enter"@, "Launch in the entered directory"@),
        shortcut_line("Esc"@, "Cancel"@),
        shortcut_line("Type"@, "Edit the directory path"@),
        seq![],
        heading_line("Shortcut help"@),
        shortcut_line("j / ↓ / scroll"@, "Scroll down"@),
        shortcut_line("k / ↑ / scroll"@, "Scroll up"@),
        shortcut_line("PageDown / PageUp"@, "Scroll by page"@),
        shortcut_line("Esc / q / ?"@, "Close"@),
    ]
}

/// The list of shortcuts.
#[verifier::rlimit(50)]
pub fn help_lines() -> (out: Vec<Line>)
    ensures
        views(out@) == help_view(),
{
    let mut out: Vec<Line> = Vec::new();
    put_line(&mut out, help_heading("Global"));
    put_line(&mut out, help_shortcut("?", "Show or hide this shortcut help"));
    put_line(&mut out, help_shortcut("q", "Quit from normal mode"));
    put_line(&mut out, help_shortcut("Ctrl+C", "Quit"));
    put_line(&mut out, Line::new());
    put_line(&mut out, help_heading("Sessions panel"));
    put_line(&mut out, help_shortcut("j / ↓", "Move selection down"));
    put_line(&mut out, help_shortcut("k / ↑", "Move selection up"));
    put_line(&mut out, help_shortcut("Enter / Space", "View the selected session"));
    put_line(&mut out, help_shortcut("o", "Open the selected session in Copilot"));
    put_line(&mut out, help_shortcut("n", "Launch a new Copilot session"));
    put_line(&mut out, help_shortcut("r", "Reload sessions from disk"));
    put_line(&mut out, Line::new());
    put_line(&mut out, help_heading("Detail panel"));
    put_line(&mut out, help_shortcut("j / ↓", "Scroll conversation down"));
    put_line(&mut out, help_shortcut("k / ↑", "Scroll conversation up"));
    put_line(&mut out, help_shortcut("PageDown / PageUp", "Scroll conversation by page"));
    put_line(&mut out, help_shortcut("h / ← / Esc", "Return to the sessions panel"));
    put_line(&mut out, help_shortcut("o", "Open the selected session in Copilot"));
    put_line(&mut out, help_shortcut("n", "Launch a new Copilot session"));
    put_line(&mut out, help_shortcut("r", "Reload sessions from disk"));
    put_line(&mut out, Line::new());
    put_line(&mut out, help_heading("Embedded terminal"));
    put_line(&mut out, help_shortcut("Ctrl+F", "Toggle fullscreen"));
    put_line(&mut out, help_shortcut("Ctrl+W", "Detach from the embedded session"));
    put_line(&mut out, help_shortcut("Mouse", "Forwarded to Copilot while fullscreen"));
    put_line(&mut out, Line::new());
    put_line(&mut out, help_heading("New session prompt"));
    put_line(&mut out, help_shortcut("Enter", "Launch in the entered directory"));
    put_line(&mut out, help_shortcut("Esc", "Cancel"));
    put_line(&mut out, help_shortcut("Type", "Edit the directory path"));
    put_line(&mut out, Line::new());
    put_line(&mut out, help_heading("Shortcut help"));
    put_line(&mut out, help_shortcut("j / ↓ / scroll", "Scroll down"));
    put_line(&mut out, help_shortcut("k / ↑ / scroll", "Scroll up"));
    put_line(&mut out, help_shortcut("PageDown / PageUp", "Scroll by page"));
    put_line(&mut out, help_shortcut("Esc / q / ?", "Close"));
    assert(views(out@) == help_view());
    out
}

/// The height of the list of shortcuts on a screen.
pub fn help_popup_height(screen_height: u16) -> (out: u16)
    ensures
        out == if screen_height < 5 {
            1int
        } else if screen_height > 28 {
            24
        } else {
            screen_height - 4
        },
        1 <= out <= 24,
        5 <= screen_height ==> out + 4 <= screen_height,
        out == 1 || out == 24 || out + 4 == screen_height,
{
    if screen_height < 5 {
        1
    } else if screen_height > 28 {
        24
    } else {
        screen_height - 4
    }
}

/// The smaller of two numbers.
pub open spec fn smaller(a: int, b: int) -> int {
    if a < b {
        a
    } else {
        b
    }
}

/// The width of an overlay that takes up so many hundredths of the screen.
pub open spec fn share_of(percent: u16, width: u16) -> int {
    smaller(width as int * percent as int / 100, width as int)
}

/// Where an overlay stands: in the middle of the screen.
pub fn centered_rect(percent_x: u16, height: u16, area: Area) -> (out: Area)
    requires
        area.width * percent_x <= u16::MAX,
        area.x + (area.width - share_of(percent_x, area.width)) / 2 <= u16::MAX,
        area.y + (area.height - smaller(height as int, area.height as int)) / 2 <= u16::MAX,
    ensures
        out.width == share_of(percent_x, area.width),
        out.height == smaller(height as int, area.height as int),
        out.x == area.x + (area.width - share_of(percent_x, area.width)) / 2,
        out.y == area.y + (area.height - smaller(height as int, area.height as int)) / 2,
{
    let share: u16 = area.width * percent_x / 100;
    let w: u16 = if share < area.width { share } else { area.width };
    let h: u16 = if height < area.height { height } else { area.height };
    Area { x: area.x + (area.width - w) / 2, y: area.y + (area.height - h) / 2, width: w, height: h }
}

/// An overlay lies within the screen.
pub proof fn overlay_lies_on_the_screen(percent_x: u16, height: u16, area: Area)
    ensures
        ({
            let w = share_of(percent_x, area.width);
            let h = smaller(height as int, area.height as int);
            0 <= w <= area.width && 0 <= h <= area.height && (area.width - w) / 2 + w <= area.width
                && (area.height - h) / 2 + h <= area.height
        }),
{
    assert(area.width as int * percent_x as int >= 0) by (nonlinear_arith);
}

/// The width of a message: that of its bytes and four more, but no more than the screen's.
pub open spec fn toast_width(message: Seq<char>, area: Area) -> int {
    smaller(encode_utf8(message).len() as int + 4, area.width as int)
}

/// Where a message stands: at the right of the screen, above its end.
pub fn toast_area(message: &str, area: Area) -> (out: Area)
    requires
        encode_utf8(message@).len() + 4 <= usize::MAX,
        toast_width(message@, area) + 2 <= u16::MAX,
        area.x + minus(area.width as nat, (toast_width(message@, area) + 2) as nat) <= u16::MAX,
        area.y + minus(area.height as nat, 4) <= u16::MAX,
    ensures
        out.width == toast_width(message@, area),
        out.height == 1,
        out.x == area.x + minus(area.width as nat, (toast_width(message@, area) + 2) as nat),
        out.y == area.y + minus(area.height as nat, 4),
{
    let bytes: usize = message.as_bytes().len();
    let wanted: usize = bytes + 4;
    let width: u16 = if wanted < area.width as usize { wanted as u16 } else { area.width };
    let taken: u16 = width + 2;
    let right: u16 = if area.width < taken { 0 } else { area.width - taken };
    let down: u16 = if area.height < 4 { 0 } else { area.height - 4 };
    Area { x: area.x + right, y: area.y + down, width, height: 1 }
}

/// A message as it is shown.
pub fn toast(message: &str) -> (out: Span)
    ensures
        out@ == span("  "@ + message@ + "  "@, bold_on(tokyo_bg(), tokyo_green())),
{
    Span {
        text: concat(&concat("  ", message), "  "),
        style: bold_on(tokyo_bg(), tokyo_green()),
    }
}

// ---------------------------------------------------------------------------
// The screen of a terminal
// ---------------------------------------------------------------------------
/// What a cell of a screen shows: nothing as a space.
pub open spec fn cell_text(cell: SpanView) -> Seq<char> {
    if cell.text.len() > 0 {
        cell.text
    } else {
        " "@
    }
}

/// The spans of a row so far, and the text and the style of the one that is not finished.
pub struct Row {
    pub done: Seq<SpanView>,
    pub text: Seq<char>,
    pub style: Style,
}

impl Row {
    /// The spans, with the last one finished.
    pub open spec fn spans(self) -> Seq<SpanView> {
        if self.text.len() > 0 {
            self.done.push(span(self.text, self.style))
        } else {
            self.done
        }
    }
}

/// A row of cells: cells with the same style are put together.
pub open spec fn row_of(cells: Seq<SpanView>) -> Row
    decreases cells.len(),
{
    if cells.len() == 0 {
        Row { done: seq![], text: seq![], style: plain() }
    } else {
        let row = row_of(cells.drop_last());
        let cell = cells.last();
        if cell.style == row.style {
            Row { text: row.text + cell_text(cell), ..row }
        } else {
            Row { done: row.spans(), text: cell_text(cell), style: cell.style }
        }
    }
}

/// A row of a screen: cells with the same style are put together.
pub fn row_line(cells: &Vec<Span>) -> (out: Line)
    ensures
        out@ == row_of(views(cells@)).spans(),
{
    let ghost all = views(cells@);
    let mut line = Line::new();
    let mut text: String = String::new();
    let mut style = plain();
    let mut i: usize = 0;
    assert(all.take(0) == Seq::<SpanView>::empty());
    while i < cells.len()
        invariant
            i <= cells.len(),
            all == views(cells@),
            line@ == row_of(all.take(i as int)).done,
            text@ == row_of(all.take(i as int)).text,
            style == row_of(all.take(i as int)).style,
        decreases cells.len() - i,
    {
        assert(all.take(i + 1).drop_last() == all.take(i as int));
        assert(all.take(i + 1).last() == cells@[i as int]@);
        let shown = if count_chars(&cells[i].text) > 0 {
            cells[i].text.clone()
        } else {
            " ".to_owned()
        };
        if cells[i].style == style {
            text = concat(&text, &shown);
        } else {
            if count_chars(&text) > 0 {
                line.put(&text, style);
            }
            text = shown;
            style = cells[i].style;
        }
        i += 1;
    }
    assert(all.take(cells@.len() as int) == all);
    if count_chars(&text) > 0 {
        line.put(&text, style);
    }
    line
}

/// The text of spans.
pub open spec fn text_of(spans: Seq<SpanView>) -> Seq<char>
    decreases spans.len(),
{
    if spans.len() == 0 {
        seq![]
    } else {
        text_of(spans.drop_last()) + spans.last().text
    }
}

/// The text of cells.
pub open spec fn cells_text(cells: Seq<SpanView>) -> Seq<char>
    decreases cells.len(),
{
    if cells.len() == 0 {
        seq![]
    } else {
        cells_text(cells.drop_last()) + cell_text(cells.last())
    }
}

/// A row shows the text of its cells, and two spans that stand side by side differ in style.
pub proof fn row_shows_its_cells(cells: Seq<SpanView>)
    ensures
        text_of(row_of(cells).spans()) == cells_text(cells),
        styles_alternate(row_of(cells).spans()),
{
    row_parts(cells);
    finished_row(row_of(cells));
}

/// Two spans that stand side by side differ in style.
pub open spec fn styles_alternate(spans: Seq<SpanView>) -> bool {
    forall|i: int|
        0 <= i < spans.len() - 1 ==> (#[trigger] spans[i]).style != spans[i + 1].style
}

proof fn row_parts(cells: Seq<SpanView>)
    ensures
        text_of(row_of(cells).done) + row_of(cells).text == cells_text(cells),
        styles_alternate(row_of(cells).done),
        row_of(cells).done.len() > 0 ==> row_of(cells).done.last().style != row_of(cells).style,
        row_of(cells).done.len() > 0 ==> row_of(cells).text.len() > 0,
    decreases cells.len(),
{
    if cells.len() > 0 {
        reveal_strlit(" ");
        let before = row_of(cells.drop_last());
        let row = row_of(cells);
        let more = cell_text(cells.last());
        row_parts(cells.drop_last());
        if cells.last().style == before.style {
            assert(text_of(row.done) + (before.text + more) == (text_of(row.done) + before.text)
                + more);
        } else {
            finished_row(before);
            assert(text_of(row.done) == cells_text(cells.drop_last()));
        }
    }
}

proof fn finished_row(row: Row)
    requires
        styles_alternate(row.done),
        row.done.len() > 0 ==> row.done.last().style != row.style,
    ensures
        text_of(row.spans()) == text_of(row.done) + row.text,
        styles_alternate(row.spans()),
        row.spans().len() > 0 && row.text.len() > 0 ==> row.spans().last().style == row.style,
{
    if row.text.len() > 0 {
        assert(row.spans().drop_last() == row.done);
        assert forall|i: int| 0 <= i < row.spans().len() - 1 implies (#[trigger] row.spans()[i]).style
            != row.spans()[i + 1].style by {
            if i < row.done.len() - 1 {
                assert(row.done[i].style != row.done[i + 1].style);
            }
        }
    } else {
        assert(text_of(row.done) + row.text == text_of(row.done));
    }
}

/// How a cell of a screen looks.
#[verifier::allow_in_spec]
pub fn cell_style(
    color: Color,
    ground: Color,
    bold: bool,
    italic: bool,
    underlined: bool,
    inverse: bool,
) -> Style
    returns
        (Style { fg: Some(color), bg: Some(ground), bold, italic, underlined, reversed: inverse }),
{
    Style { fg: Some(color), bg: Some(ground), bold, italic, underlined, reversed: inverse }
}

/// Where the cursor of a terminal stands on the screen, where it is shown and within the area.
pub fn cursor_place(area: Area, row: u16, column: u16, hidden: bool) -> (out: Option<(u16, u16)>)
    requires
        !hidden && column < area.width && row < area.height ==> area.x + column <= u16::MAX
            && area.y + row <= u16::MAX,
    ensures
        out == if !hidden && column < area.width && row < area.height {
            Some(((area.x + column) as u16, (area.y + row) as u16))
        } else {
            None
        },
        match out {
            Some((x, y)) => !hidden && area.x <= x < area.x + area.width && area.y <= y < area.y
                + area.height && x - area.x == column && y - area.y == row,
            None => hidden || column >= area.width || row >= area.height,
        },
{
    if !hidden && column < area.width && row < area.height {
        Some((area.x + column, area.y + row))
    } else {
        None
    }
}

// ---------------------------------------------------------------------------
// What holds of it
// ---------------------------------------------------------------------------
/// The time that has passed is told in whole seconds, and none have passed before a later instant.
pub proof fn whole_seconds_have_passed(then: Timestamp, now: Timestamp)
    requires
        then.nanos < 1_000_000_000,
        now.nanos < 1_000_000_000,
    ensures
        ({
            let n = elapsed_seconds(then, now);
            let a = then.secs * 1_000_000_000 + then.nanos;
            let b = now.secs * 1_000_000_000 + now.nanos;
            &&& a <= b ==> n * 1_000_000_000 <= b - a < (n + 1) * 1_000_000_000
            &&& a > b ==> n == 0
        }),
{
}

/// An age is told as a number and a unit: as many of that unit as it fills, up to weeks, and of the
/// largest unit of which it fills one.
pub proof fn age_is_told_in_its_largest_unit(seconds: int)
    requires
        seconds >= 0,
    ensures
        ({
            let text = age_text(seconds);
            let unit = text.last();
            let n = number_value(text.drop_last());
            &&& is_number(text.drop_last())
            &&& unit == 's' || unit == 'm' || unit == 'h' || unit == 'd' || unit == 'w'
            &&& unit == 's' ==> n == seconds && n < 60
            &&& unit == 'm' ==> n * 60 <= seconds < (n + 1) * 60 && 1 <= n < 60
            &&& unit == 'h' ==> n * 3_600 <= seconds < (n + 1) * 3_600 && 1 <= n < 24
            &&& unit == 'd' ==> n * 86_400 <= seconds < (n + 1) * 86_400 && 1 <= n < 7
            &&& unit == 'w' ==> n * 604_800 <= seconds < (n + 1) * 604_800 && 1 <= n
        }),
{
    reveal_strlit("s");
    reveal_strlit("m");
    reveal_strlit("h");
    reveal_strlit("d");
    reveal_strlit("w");
    let text = age_text(seconds);
    if seconds < 60 {
        decimal_has_value(seconds as nat);
        assert(text.drop_last() == decimal(seconds as nat));
        assert(text.last() == 's');
    } else if seconds < 3_600 {
        decimal_has_value((seconds / 60) as nat);
        assert(text.drop_last() == decimal((seconds / 60) as nat));
        assert(text.last() == 'm');
    } else if seconds < 86_400 {
        decimal_has_value((seconds / 3_600) as nat);
        assert(text.drop_last() == decimal((seconds / 3_600) as nat));
        assert(text.last() == 'h');
    } else if seconds < 604_800 {
        decimal_has_value((seconds / 86_400) as nat);
        assert(text.drop_last() == decimal((seconds / 86_400) as nat));
        assert(text.last() == 'd');
    } else {
        decimal_has_value((seconds / 604_800) as nat);
        assert(text.drop_last() == decimal((seconds / 604_800) as nat));
        assert(text.last() == 'w');
    }
}

/// A text on one line has the same words, and once it is on one line it stays as it is.
pub proof fn one_line_keeps_the_words(text: Seq<char>)
    ensures
        words(on_one_line(text)) == words(text),
        on_one_line(on_one_line(text)) == on_one_line(text),
{
    words_are_solid(text);
    words_of_joined(words(text));
    reveal_strlit(" ");
    assert(" "@ == seq![' ']);
}

/// A text that is cut keeps its start and ends in an ellipsis; one that fits is kept whole.
pub proof fn cut_text_keeps_its_start(text: Seq<char>, width: nat)
    ensures
        text.len() <= width ==> ellipsised(text, width) == text,
        1 <= width < text.len() ==> ellipsised(text, width).len() == width && ellipsised(
            text,
            width,
        ).last() == '…' && forall|i: int|
            0 <= i < width - 1 ==> #[trigger] ellipsised(text, width)[i] == text[i],
{
}

/// A tilde stands for the home directory at the start of a path, and other paths stay as they are.
pub proof fn tilde_stands_for_home(home: Seq<char>, rest: Seq<char>, path: Seq<char>)
    ensures
        short_form(home + rest, Some(home)) == seq!['~'] + rest,
        short_form(path, None) == path,
        path.len() < home.len() || path.take(home.len() as int) != home ==> short_form(
            path,
            Some(home),
        ) == path,
{
    reveal_strlit("~");
    assert("~"@ == seq!['~']);
    let n = home.len() as int;
    assert((home + rest).subrange(0, n) == home);
    assert((home + rest).skip(n) == rest);
    if path.len() >= n {
        assert(path.subrange(0, n) == path.take(n));
    }
}

/// Each status has a sign and a colour of its own, and each kind of session an icon.
pub proof fn signs_tell_the_status(status: SessionStatus, source: SessionSource)
    ensures
        status_sign(status)[0] == '●' <==> status is Running,
        status_sign(status)[0] == '◐' <==> status is Waiting,
        status_sign(status)[0] == '○' <==> status is Idle,
        status_sign(status)[0] == '✕' <==> status is Error,
        status_color(status) == tokyo_green() <==> status is Running,
        status_color(status) == tokyo_yellow() <==> status is Waiting,
        status_color(status) == tokyo_comment() <==> status is Idle,
        status_color(status) == tokyo_red() <==> status is Error,
        icon_of(source)[0] == '\u{e795}' <==> source is Local,
        icon_of(source)[0] == '\u{e709}' <==> source is Remote,
{
    reveal_strlit("●");
    reveal_strlit("◐");
    reveal_strlit("○");
    reveal_strlit("✕");
    reveal_strlit("\u{e795} ");
    reveal_strlit("\u{e709} ");
    assert("●"@[0] == '●');
    assert("◐"@[0] == '◐');
    assert("○"@[0] == '○');
    assert("✕"@[0] == '✕');
    assert("\u{e795} "@[0] == '\u{e795}');
    assert("\u{e709} "@[0] == '\u{e709}');
}

/// The first line of a session shows its icon, the start of its name, and behind blanks how long ago
/// it changed. The name is whole where there is room for it.
pub proof fn first_line_names_the_session(
    session: SessionView,
    width: nat,
    prefix: Seq<char>,
    is_active: bool,
    name_style: Style,
    now: Timestamp,
)
    requires
        session.name() is Some,
    ensures
        ({
            let line = title_line(session, width, prefix, is_active, name_style, now);
            let name = on_one_line(session.name()->0);
            let age = age_text(elapsed_seconds(session.updated_at, now));
            &&& line.len() == 5
            &&& line[0].text == prefix
            &&& line[1].text == icon_of(session.source)
            &&& line[2].style == name_style
            &&& prefix.len() + icon_of(session.source).len() + name.len() + 1 + age.len() <= width
                ==> line[2].text == name
            &&& line[3].text.len() >= 1 && forall|i: int|
                0 <= i < line[3].text.len() ==> line[3].text[i] == ' '
            &&& line[4].text == age
        }),
{
}

/// A session is described by its last response, on one line; where it has none, by what is missing.
pub proof fn session_is_described_by_its_response(session: SessionView)
    ensures
        ({
            let said = session.last_agent_message is Some && words(
                session.last_agent_message->0,
            ).len() > 0;
            &&& said ==> words(description(session)) == words(session.last_agent_message->0)
            &&& !said && session.source is Remote ==> description(session) == "Remote agent task."@
            &&& !said && session.source is Local ==> description(session)
                == "No agent response yet."@
        }),
{
    match session.last_agent_message {
        Some(message) => {
            one_line_keeps_the_words(message);
            words_are_solid(message);
            let all = words(message);
            if all.len() > 0 {
                last_word_is_joined(all, " "@);
            }
        },
        None => {},
    }
}

proof fn last_word_is_joined(parts: Seq<Seq<char>>, sep: Seq<char>)
    requires
        parts.len() > 0,
    ensures
        join(parts, sep).len() >= parts.last().len(),
{
}

/// The mark of the cursor stands before the session under it while the list has the focus, and
/// before no other. Its name is bold, and so is that of the session that is shown.
pub proof fn cursor_marks_one_session(
    sessions: Seq<SessionView>,
    order: Seq<usize>,
    cursor: usize,
    selected: Option<usize>,
    is_focused: bool,
    width: nat,
    now: Timestamp,
    i: int,
)
    requires
        0 <= i < order.len(),
    ensures
        ({
            let list = list_view(sessions, order, cursor, selected, is_focused, width, now);
            let first = list[i].0;
            let second = list[i].1;
            let session = sessions[order[i] as int];
            &&& list.len() == order.len()
            &&& first[0].text[0] == '▌' <==> is_focused && i == cursor
            &&& second[0].text == first[0].text
            &&& first[1].text == icon_of(session.source)
            &&& first[2].style.bold <==> (is_focused && i == cursor) || selected == Some(order[i])
            &&& first[4].text == age_text(elapsed_seconds(session.updated_at, now))
            &&& second[1].text == ellipsised(description(session), one_at_least(minus(width, 2)))
        }),
{
    reveal_strlit("▌ ");
    reveal_strlit("  ");
    assert("▌ "@[0] == '▌');
    assert("  "@[0] == ' ');
    let list = list_view(sessions, order, cursor, selected, is_focused, width, now);
    assert(list[i] == item_view(
        sessions[order[i] as int],
        width,
        cursor == i,
        selected == Some(order[i]),
        is_focused,
        now,
    ));
}

/// What is known of a session is shown under its labels: its name, its directory and its status
/// first. A repository and a branch follow where there are some; of a remote task also who started
/// it, its pull request and its address, of a local session none of these.
pub proof fn known_things_are_shown(session: SessionView, home: Option<Seq<char>>)
    requires
        session.name() is Some,
    ensures
        ({
            let page = info_view(session, home);
            let there = |value: Option<Seq<char>>|
                if value is Some {
                    1int
                } else {
                    0
                };
            let a = 3 + there(session.repository);
            let b = a + there(session.branch);
            let c = b + 1 + there(session.remote_user);
            let d = c + there(session.pull_request);
            &&& page[0][1].text == session.name()->0
            &&& page[1][1].text == short_form(session.cwd, home)
            &&& page[2][1].text == status_sign(session.status) + seq![' '] + label_text(
                session.status,
            )
            &&& page[2][1].style.fg == Some(status_color(session.status))
            &&& session.repository is Some ==> page[3][0].text == "  Repo:      "@
                && page[3][1].text == session.repository->0
            &&& session.branch is Some ==> page[a][0].text == "  Branch:    "@ && page[a][1].text
                == session.branch->0
            &&& page[b][0].text == "  Source:    "@
            &&& session.source is Local ==> page.len() == b + 1 && page[b][2].text
                == "Local terminal session"@
            &&& session.source is Remote ==> {
                &&& page.len() == d + there(session.remote_url)
                &&& page[b][2].text == task_text(session.remote_state)
                &&& session.remote_user is Some ==> page[b + 1][0].text == "  User:      "@
                    && page[b + 1][1].text == session.remote_user->0
                &&& session.pull_request is Some ==> page[c][0].text == "  PR:        "@
                    && page[c][1].text == session.pull_request->0
                &&& session.remote_url is Some ==> page[d][0].text == "  URL:       "@
                    && page[d][1].text == session.remote_url->0
            }
        }),
{
    reveal_strlit(" ");
    assert(" "@ == seq![' ']);
}

/// What is said of a task names its state, where it is known.
pub proof fn task_is_said_with_its_state(state: Seq<char>)
    ensures
        task_text(Some(state)) == task_text(None) + seq![' ', '('] + state + seq![')'],
        task_text(None) == "Remote agent task"@,
{
    reveal_strlit("Remote agent task");
    reveal_strlit("Remote agent task (");
    reveal_strlit(")");
    assert("Remote agent task ("@ == "Remote agent task"@ + seq![' ', '(']);
    assert(")"@ == seq![')']);
}

/// Of a response its first twenty lines are shown, and where there are more, that it was cut; a
/// message is shown whole.
pub proof fn long_responses_are_cut(text: Seq<char>, i: int)
    ensures
        ({
            let page = response_view(Some(text));
            let n = lines(text).len();
            &&& n <= 20 ==> page.len() == n + 2
            &&& n > 20 ==> page.len() == 23 && page[21] == muted("  … (truncated)"@)
            &&& page[0][0].text == "  Copilot"@
            &&& 0 <= i < n && i < 20 ==> page[i + 1] == shown_lines(
                head_lines(text, Some(20)),
                tokyo_fg(),
            )[i]
        }),
        ({
            let page = message_view(Some(text));
            &&& page.len() == lines(text).len() + 2
            &&& page[0][0].text == "  You"@
            &&& 0 <= i < lines(text).len() ==> page[i + 1] == shown_lines(lines(text), tokyo_fg())[i]
        }),
        response_view(None).len() == 0,
        message_view(None).len() == 0,
{
    crate::markdown::each_line_is_shown(head_lines(text, Some(20)), tokyo_fg());
    crate::markdown::each_line_is_shown(lines(text), tokyo_fg());
}

/// Exchanges are shown one after the other, of each the message, the response and its number,
/// counted from one.
pub proof fn exchanges_are_shown_in_order(turns: Seq<Turn<Seq<char>>>, turn: Turn<Seq<char>>)
    ensures
        turns_view(turns.push(turn)) == turns_view(turns) + turn_view(turn),
        turns_view(Seq::empty()).len() == 0,
        ({
            let page = turn_view(turn);
            let message = message_view(turn.user_message);
            let response = response_view(turn.assistant_response);
            let n = (message.len() + response.len()) as int;
            &&& page.take(message.len() as int) == message
            &&& page.subrange(message.len() as int, n) == response
            &&& page.len() == n + 2
            &&& page[n][0].text == "  ─── Turn "@ + signed_decimal(turn.turn_index + 1) + " "@
        }),
{
    assert(turns.push(turn).drop_last() == turns);
}

/// Of a remote task its log is shown, or that it is being read, or that there is none; of a local
/// session its exchanges, or that there are none.
pub proof fn history_is_that_of_the_session(session: SessionView, turns: Seq<Turn<Seq<char>>>)
    ensures
        ({
            let page = history_view(session, turns);
            &&& session.source is Local && turns.len() > 0 ==> page == turns_view(turns)
            &&& session.source is Local && turns.len() == 0 ==> page.len() == 3 && page[0] == muted(
                "  No conversation history yet."@,
            )
            &&& session.source is Remote && session.remote_log is None ==> page.len() == 5
                && page[2] == muted("  Loading remote task log…"@)
            &&& session.source is Remote && session.remote_log is Some
                && session.remote_log->0.len() == 0 ==> page.len() == 5 && page[2] == muted(
                "  No remote task log output available."@,
            )
            &&& session.source is Remote && session.remote_log is Some
                && session.remote_log->0.len() > 0 ==> page.subrange(2, page.len() - 2)
                == shown_lines(lines(session.remote_log->0), tokyo_fg())
            &&& session.source is Remote ==> page[0][0].text
                == "  Remote agent task log: gh agent-task view "@ + session.id + " --log"@
        }),
{
    if session.source is Remote && session.remote_log is Some && session.remote_log->0.len() > 0 {
        let page = history_view(session, turns);
        assert(page.subrange(2, page.len() - 2) == shown_lines(
            lines(session.remote_log->0),
            tokyo_fg(),
        ));
    }
}

/// The footer tells how to open a session only where there is one, how to view one only in the list,
/// and how to go back only from the detail panel; how to start a session and where to find help it
/// always tells.
pub proof fn footer_tells_what_can_be_done(panel: Panel, has_target: bool)
    ensures
        ({
            let said = panel_shortcuts(panel, has_target);
            let n = said.len() as int;
            &&& said[n - 2] == ("New"@, "n"@) && said[n - 1] == ("Help"@, "?"@)
            &&& has_target ==> said[n - 3] == ("Open"@, "o"@)
            &&& panel is Sessions ==> said[0] == ("Navigate"@, "j/k"@)
            &&& panel is Sessions && has_target ==> n == 5 && said[1] == ("View"@, "Enter"@)
            &&& panel is Sessions && !has_target ==> n == 3
            &&& panel is Detail ==> said[0] == ("Scroll"@, "j/k"@) && said[1] == (
                "Back"@,
                "h/Esc"@,
            )
            &&& panel is Detail ==> n == if has_target {
                5
            } else {
                4int
            }
        }),
        footer_view(Mode::Normal, panel, has_target).text == join(
            shortcut_words(panel_shortcuts(panel, has_target)),
            "  "@,
        ),
        footer_view(Mode::NewSessionDir, panel, has_target).text.take(13) == "Launch: Enter"@,
        footer_view(Mode::Help, panel, has_target).text.take(11) == "Scroll: j/k"@,
        footer_view(Mode::Terminal, panel, has_target).text.take(18) == "Fullscreen: Ctrl+F"@,
{
    reveal_strlit("Launch: Enter  Cancel: Esc");
    reveal_strlit("Scroll: j/k  Close: Esc/q  Help: ?");
    reveal_strlit("Fullscreen: Ctrl+F  Detach: Ctrl+W  Input: forwarded to Copilot");
    reveal_strlit("Launch: Enter");
    reveal_strlit("Scroll: j/k");
    reveal_strlit("Fullscreen: Ctrl+F");
}

/// An overlay takes up its share of the screen, rounded down, and never more than the screen.
pub proof fn overlay_takes_its_share(percent: u16, width: u16)
    ensures
        percent <= 100 ==> share_of(percent, width) * 100 <= width * percent,
        percent <= 100 ==> width * percent < share_of(percent, width) * 100 + 100,
        percent >= 100 ==> share_of(percent, width) == width,
{
    let w = width as int;
    let p = percent as int;
    if p <= 100 {
        assert(w * p <= w * 100) by (nonlinear_arith)
            requires
                p <= 100,
                w >= 0,
        ;
    }
    if p >= 100 {
        assert(w * p >= w * 100) by (nonlinear_arith)
            requires
                p >= 100,
                w >= 0,
        ;
    }
}

/// The characters of spans, each with its style.
pub open spec fn glyphs(spans: Seq<SpanView>) -> Seq<(char, Style)>
    decreases spans.len(),
{
    if spans.len() == 0 {
        seq![]
    } else {
        let last = spans.last();
        glyphs(spans.drop_last()) + last.text.map_values(|c: char| (c, last.style))
    }
}

/// The characters of cells, each with its style; a blank stands for a cell without any.
pub open spec fn cell_glyphs(cells: Seq<SpanView>) -> Seq<(char, Style)>
    decreases cells.len(),
{
    if cells.len() == 0 {
        seq![]
    } else {
        let last = cells.last();
        cell_glyphs(cells.drop_last()) + if last.text.len() > 0 {
            last.text.map_values(|c: char| (c, last.style))
        } else {
            seq![(' ', last.style)]
        }
    }
}

/// Each character of a row looks as its cell does.
pub proof fn characters_look_as_their_cells(cells: Seq<SpanView>)
    ensures
        glyphs(row_of(cells).spans()) == cell_glyphs(cells),
{
    row_glyphs(cells);
    finished_glyphs(row_of(cells));
}

proof fn row_glyphs(cells: Seq<SpanView>)
    ensures
        ({
            let style = row_of(cells).style;
            glyphs(row_of(cells).done) + row_of(cells).text.map_values(|c: char| (c, style))
                == cell_glyphs(cells)
        }),
    decreases cells.len(),
{
    let row = row_of(cells);
    let style = row.style;
    if cells.len() > 0 {
        reveal_strlit(" ");
        let before = row_of(cells.drop_last());
        let cell = cells.last();
        let old_style = before.style;
        row_glyphs(cells.drop_last());
        let more = cell_text(cell).map_values(|c: char| (c, cell.style));
        assert(more == if cell.text.len() > 0 {
            cell.text.map_values(|c: char| (c, cell.style))
        } else {
            seq![(' ', cell.style)]
        });
        if cell.style == before.style {
            assert(row.text.map_values(|c: char| (c, style)) == before.text.map_values(
                |c: char| (c, old_style),
            ) + more);
            assert(glyphs(row.done) + (before.text.map_values(|c: char| (c, old_style)) + more) == (
            glyphs(row.done) + before.text.map_values(|c: char| (c, old_style))) + more);
        } else {
            finished_glyphs(before);
            assert(row.text.map_values(|c: char| (c, style)) == more);
        }
    } else {
        assert(row.text.map_values(|c: char| (c, style)) == Seq::<(char, Style)>::empty());
    }
}

proof fn finished_glyphs(row: Row)
    ensures
        ({
            let style = row.style;
            glyphs(row.spans()) == glyphs(row.done) + row.text.map_values(|c: char| (c, style))
        }),
{
    let style = row.style;
    if row.text.len() > 0 {
        assert(row.spans().drop_last() == row.done);
        let last = row.spans().last();
        assert(row.text.map_values(|c: char| (c, style)) == last.text.map_values(
            |c: char| (c, last.style),
        ));
    } else {
        assert(row.text.map_values(|c: char| (c, style)) == Seq::<(char, Style)>::empty());
    }
}

} // verus!
