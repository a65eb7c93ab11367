use gh_pilot::markdown::{
    is_code_fence, is_heading, push_markdown_lines, split_list_marker, splittable, text_drawable,
};
use gh_pilot::panel::{
    cell_style, centered_rect, clamp_scroll, cursor_place, footer, footer_text, help_lines,
    help_popup_height, history_drawable, history_lines, info_height, info_lines, input_text,
    list_cursor, log_title, middle_area, no_selection_lines, no_sessions_lines, relative_time, row_line,
    session_item, session_list, short_path, single_line, status_display, toast, toast_area, truncate_ellipsis,
    Mode, Panel,
};
use gh_pilot::session::{
    parse_workspace_yaml, CopilotSession, SessionSource, SessionStatus, Timestamp, Turn,
};
use gh_pilot::style::{Color, Line, Span};
use gh_pilot::view::Area;

const NOW: Timestamp = Timestamp {
    secs: 1_000_000,
    nanos: 500,
};

fn session(content: &str) -> CopilotSession {
    parse_workspace_yaml(content, NOW).unwrap()
}

fn text(line: &Line) -> String {
    line.spans.iter().map(|span| span.text.as_str()).collect()
}

fn texts(lines: &[Line]) -> Vec<String> {
    lines.iter().map(text).collect()
}

fn markdown(source: &str, max: Option<usize>) -> (Vec<Line>, bool) {
    let mut lines = Vec::new();
    let cut = push_markdown_lines(&mut lines, source, Color::Reset, max);
    (lines, cut)
}

fn ago(seconds: i64) -> Timestamp {
    Timestamp {
        secs: NOW.secs - seconds,
        nanos: NOW.nanos,
    }
}

#[test]
fn times_in_words() {
    assert_eq!(relative_time(NOW, NOW), "0s");
    assert_eq!(relative_time(ago(-5), NOW), "0s");
    assert_eq!(relative_time(ago(59), NOW), "59s");
    assert_eq!(relative_time(ago(60), NOW), "1m");
    assert_eq!(relative_time(ago(3_599), NOW), "59m");
    assert_eq!(relative_time(ago(3_600), NOW), "1h");
    assert_eq!(relative_time(ago(86_400), NOW), "1d");
    assert_eq!(relative_time(ago(604_800), NOW), "1w");
    let nearly = Timestamp {
        secs: NOW.secs - 2,
        nanos: NOW.nanos + 1,
    };
    assert_eq!(relative_time(nearly, NOW), "1s");
}

#[test]
fn texts_on_one_line() {
    assert_eq!(single_line(" a\n\tb  c "), "a b c");
    assert_eq!(truncate_ellipsis("abcdef", 4), "abc…");
    assert_eq!(truncate_ellipsis("abcdef", 1), "…");
    assert_eq!(truncate_ellipsis("abc", 3), "abc");
    assert_eq!(short_path("/home/me/x", Some("/home/me")), "~/x");
    assert_eq!(short_path("/home/mean", Some("/home/me")), "~an");
    assert_eq!(short_path("/var", Some("/home/me")), "/var");
    assert_eq!(short_path("/var", None), "/var");
}

#[test]
fn sessions_in_the_list() {
    let mut local = session("id: a\ntitle: A long title of a session");
    local.updated_at = ago(120);
    let (title, description) = session_item(&local, 24, true, false, true, NOW);
    assert_eq!(text(&title).chars().count(), 24);
    assert!(text(&title).starts_with("▌ \u{e795} A long"));
    assert!(text(&title).ends_with("… 2m"));
    assert_eq!(text(&description), "▌ No agent response yet.");
    let (plain, _) = session_item(&local, 24, true, false, false, NOW);
    assert!(text(&plain).starts_with("  "));
    local.last_agent_message = Some("did\nit".to_owned());
    let (_, said) = session_item(&local, 24, false, true, true, NOW);
    assert_eq!(text(&said), "  did it");
}

#[test]
fn the_list_follows_its_order() {
    let sessions = vec![session("id: a\ntitle: One"), session("id: b\ntitle: Two")];
    let items = session_list(&sessions, &vec![1, 0], 0, Some(0), true, 30, NOW);
    assert!(text(&items[0].0).starts_with("▌ \u{e795} Two"));
    assert!(text(&items[1].0).starts_with("  \u{e795} One"));
    assert!(items[1].0.spans[2].style.bold);
    assert_eq!(list_cursor(1, 2), Some(1));
    assert_eq!(list_cursor(2, 2), None);
}

#[test]
fn what_is_known_of_a_session() {
    let local = session("id: a\ncwd: /home/me/x\nbranch: main\nrepository: o/r");
    let lines = texts(&info_lines(&local, Some("/home/me")));
    assert_eq!(
        lines,
        vec![
            "  Title:     main",
            "  Directory: ~/x",
            "  Status:    ○ Idle",
            "  Repo:      o/r",
            "  Branch:    main",
            "  Source:    \u{e795} Local terminal session",
        ]
    );
    let mut remote = session("id: task\ntitle: T");
    remote.source = SessionSource::Remote;
    remote.remote_state = Some("queued".to_owned());
    remote.pull_request = Some("#1".to_owned());
    let lines = texts(&info_lines(&remote, None));
    assert_eq!(lines[3], "  Source:    \u{e709} Remote agent task (queued)");
    assert_eq!(lines[4], "  PR:        #1");
    assert_eq!(info_height(5, 10), 6);
    assert_eq!(info_height(5, 3), 3);
    assert_eq!(status_display(SessionStatus::Error).1, "✕");
}

#[test]
fn what_happened_in_a_session() {
    let local = session("id: a\ntitle: T");
    assert_eq!(
        texts(&history_lines(&local, &vec![]))[0],
        "  No conversation history yet."
    );
    let turn = Turn {
        turn_index: 0,
        user_message: Some("hello".to_owned()),
        assistant_response: Some("line\n".repeat(25)),
        timestamp: String::new(),
    };
    let lines = texts(&history_lines(&local, &vec![turn]));
    assert_eq!(lines[0], "  You");
    assert_eq!(lines[1], "  hello");
    assert_eq!(lines[3], "  Copilot");
    assert_eq!(lines[24], "  … (truncated)");
    assert_eq!(lines[26], "  ─── Turn 1 ");
    assert_eq!(lines.len(), 28);
    let mut remote = session("id: task\ntitle: T");
    remote.source = SessionSource::Remote;
    let waiting = texts(&history_lines(&remote, &vec![]));
    assert_eq!(waiting[0], "  Remote agent task log: gh agent-task view task --log");
    assert_eq!(waiting[2], "  Loading remote task log…");
    assert_eq!(waiting[4], format!("  Press [o] to open this {} in your browser.", "task"));
    remote.remote_log = Some(String::new());
    assert_eq!(
        texts(&history_lines(&remote, &vec![]))[2],
        "  No remote task log output available."
    );
    remote.remote_log = Some("été".to_owned());
    assert!(!history_drawable(&remote, &vec![]));
}

#[test]
fn scrolling_and_titles() {
    assert_eq!(clamp_scroll(9, 10, 4), 6);
    assert_eq!(clamp_scroll(3, 10, 4), 3);
    assert_eq!(clamp_scroll(3, 2, 4), 0);
    assert_eq!(
        log_title(true, SessionSource::Remote, false),
        " Preview [k/j scroll, o=open browser] "
    );
    assert_eq!(
        log_title(true, SessionSource::Local, true),
        " Conversation [k/j scroll, o=open live] "
    );
    assert_eq!(log_title(false, SessionSource::Local, true), " Conversation ");
    assert_eq!(texts(&no_sessions_lines())[2], "Press [n] to start a new session.");
    assert_eq!(texts(&no_selection_lines())[0], "Select a session with j/k + Enter");
}

#[test]
fn footers() {
    assert_eq!(
        footer_text(Panel::Sessions, true),
        "Navigate: j/k  View: Enter  Open: o  New: n  Help: ?"
    );
    assert_eq!(
        footer_text(Panel::Detail, false),
        "Scroll: j/k  Back: h/Esc  New: n  Help: ?"
    );
    assert_eq!(
        footer(Mode::Help, Panel::Detail, false).text,
        "Scroll: j/k  Close: Esc/q  Help: ?"
    );
    assert_eq!(
        footer(Mode::NewSessionDir, Panel::Detail, false).text,
        "Launch: Enter  Cancel: Esc"
    );
    assert_eq!(input_text("/tmp"), "▶ /tmp█");
}

#[test]
fn overlays_lie_on_the_screen() {
    let screen = Area {
        x: 2,
        y: 1,
        width: 100,
        height: 40,
    };
    assert_eq!(
        centered_rect(70, 5, screen),
        Area {
            x: 17,
            y: 18,
            width: 70,
            height: 5
        }
    );
    assert_eq!(help_popup_height(40), 24);
    assert_eq!(help_popup_height(20), 16);
    assert_eq!(help_popup_height(3), 1);
    assert_eq!(
        toast_area("é", screen),
        Area {
            x: 94,
            y: 37,
            width: 6,
            height: 1
        }
    );
    assert_eq!(toast("saved").text, "  saved  ");
    assert_eq!(middle_area(screen).y, 20);
    assert_eq!(cursor_place(screen, 3, 4, false), Some((6, 4)));
    assert_eq!(cursor_place(screen, 3, 4, true), None);
    assert_eq!(cursor_place(screen, 40, 4, false), None);
    let help = texts(&help_lines());
    assert_eq!(help.len(), 37);
    assert_eq!(help[1], "  ?                 Show or hide this shortcut help");
}

#[test]
fn rows_of_a_screen_join_cells_of_one_style() {
    let red = cell_style(Color::Indexed(1), Color::Reset, false, false, false, false);
    let blue = cell_style(Color::Indexed(4), Color::Reset, true, false, false, false);
    let cell = |text: &str, style| Span {
        text: text.to_owned(),
        style,
    };
    let line = row_line(&vec![
        cell("a", red),
        cell("", red),
        cell("b", red),
        cell("c", blue),
        cell("d", red),
    ]);
    let parts: Vec<&str> = line.spans.iter().map(|span| span.text.as_str()).collect();
    assert_eq!(parts, vec!["a b", "c", "d"]);
    assert!(line.spans[1].style.bold);
    assert!(row_line(&vec![]).spans.is_empty());
}

#[test]
fn markdown_lines_keep_their_text() {
    let (lines, cut) = markdown("# Title\n- item\n> quote\n12. two\nplain", None);
    assert!(!cut);
    assert_eq!(
        texts(&lines),
        vec!["  # Title", "  - item", "  > quote", "  12. two", "  plain"]
    );
    assert!(lines[0].spans[1].style.bold);
    assert_eq!(lines[1].spans[2].text, "- ");
    assert_eq!(lines[2].spans[2].text, ">");
    assert_eq!(lines[3].spans[2].text, "12. ");
    let (head, cut) = markdown("a\nb\nc", Some(2));
    assert!(cut);
    assert_eq!(head.len(), 2);
}

#[test]
fn markdown_code_and_emphasis() {
    let (lines, _) = markdown("a `b*c*` **d** _e_ ***f*** g*", None);
    let spans: Vec<(&str, bool, bool)> = lines[0]
        .spans
        .iter()
        .map(|span| (span.text.as_str(), span.style.bold, span.style.italic))
        .collect();
    assert_eq!(
        spans,
        vec![
            ("  ", false, false),
            ("a ", false, false),
            ("`b*c*`", false, false),
            (" ", false, false),
            ("d", true, false),
            (" ", false, false),
            ("e", false, true),
            (" ", false, false),
            ("f", true, true),
            (" g*", false, false),
        ]
    );
    let (open, _) = markdown("x `y", None);
    let parts: Vec<&str> = open[0].spans.iter().map(|span| span.text.as_str()).collect();
    assert_eq!(parts, vec!["  ", "x ", "`y"]);
    let (block, _) = markdown("```rust\n# no heading\n```\n# heading", None);
    assert!(!block[1].spans[1].style.bold);
    assert!(block[3].spans[1].style.bold);
}

#[test]
fn markdown_marks() {
    let chars = |text: &str| text.chars().collect::<Vec<char>>();
    assert!(is_heading(&chars("###### x")));
    assert!(!is_heading(&chars("####### x")));
    assert!(!is_heading(&chars("#x")));
    assert!(!is_heading(&chars("#")));
    assert!(is_code_fence(&chars("~~~")));
    assert_eq!(split_list_marker(&chars("* x")), Some(2));
    assert_eq!(split_list_marker(&chars("*x")), None);
    assert_eq!(split_list_marker(&chars("123456789. x")), Some(11));
    assert_eq!(split_list_marker(&chars("1234567890. x")), None);
    assert_eq!(split_list_marker(&chars("1.x")), None);
    assert_eq!(split_list_marker(&chars("a. x")), None);
    assert!(!splittable(&chars("-\u{a0}x")));
    assert!(!text_drawable("é", None));
    assert!(text_drawable("# é\n> é\n```\né", None));
}
