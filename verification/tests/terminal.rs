use gh_pilot::keys::{Key, Wheel};
use gh_pilot::tables::TextMap;
use gh_pilot::terminal::{
    attach_tmux_session, copilot_shell_command_with_env, ensure_tmux_session, has_session_args,
    key_to_bytes, mouse_to_bytes, pane_title_args, reuse_tmux_session, reused_name, run_failure,
    spawn_args, terminal_env_pairs, terminal_variable_names, title_from_tmux_output,
    tmux_session_name, CachedTmuxTitle, EmbeddedTerminal,
};

fn texts(items: &[&str]) -> Vec<String> {
    items.iter().map(|item| item.to_string()).collect()
}

#[test]
fn tmux_title_output_is_trimmed_and_ignores_empty_titles() {
    assert_eq!(
        title_from_tmux_output(b"Updated Copilot Title\n").as_deref(),
        Some("Updated Copilot Title")
    );
    assert_eq!(title_from_tmux_output(b" \n"), None);
}

#[test]
fn copilot_shell_command_preserves_terminal_capability_env() {
    let mut env = TextMap::new();
    env.insert("TERM", "xterm-kitty".to_string());
    env.insert("COLORTERM", "truecolor".to_string());
    env.insert("TERM_PROGRAM", "kitty".to_string());
    let command = copilot_shell_command_with_env(
        "/usr/local/bin/copilot",
        &texts(&["-C", "/tmp/project dir", "--resume=session-1"]),
        &env,
    );

    assert_eq!(
        command,
        "env 'TERM=xterm-kitty' 'COLORTERM=truecolor' 'TERM_PROGRAM=kitty' /usr/local/bin/copilot -C '/tmp/project dir' '--resume=session-1'"
    );
}

#[test]
fn copilot_shell_command_uses_color_fallbacks() {
    let command = copilot_shell_command_with_env(
        "/usr/local/bin/copilot",
        &texts(&["-C", "/tmp"]),
        &TextMap::new(),
    );

    assert_eq!(
        command,
        "env 'TERM=xterm-256color' 'COLORTERM=truecolor' /usr/local/bin/copilot -C /tmp"
    );
}

#[test]
fn quotes_in_arguments_are_escaped() {
    let command = copilot_shell_command_with_env("it's", &texts(&[""]), &TextMap::new());
    assert!(command.ends_with(" 'it'\\''s' ''"), "{command}");
}

#[test]
fn empty_variables_count_as_unset() {
    let mut env = TextMap::new();
    env.insert("TERM", "  ".to_owned());
    env.insert("VTE_VERSION", "7000".to_owned());
    env.insert("UNRELATED", "x".to_owned());
    let pairs = terminal_env_pairs(&env);
    assert_eq!(
        pairs,
        vec![
            ("TERM".to_owned(), "xterm-256color".to_owned()),
            ("COLORTERM".to_owned(), "truecolor".to_owned()),
            ("VTE_VERSION".to_owned(), "7000".to_owned()),
        ]
    );
    assert_eq!(terminal_variable_names().len(), 8);
}

#[test]
fn names_of_tmux_sessions() {
    assert_eq!(tmux_session_name("ab-1_c", 5), "ghpilot_ab-1_c");
    assert_eq!(tmux_session_name("a.b c", 5), "ghpilot_a_b_c");
    assert_eq!(tmux_session_name("new", 5), "ghpilot_new_5");
    assert_eq!(tmux_session_name(&"x".repeat(100), 0).len(), 88);
    assert_ne!(tmux_session_name("a", 0), tmux_session_name("b", 0));
}

#[test]
fn runs_of_tmux() {
    assert_eq!(has_session_args("s"), texts(&["has-session", "-t", "s"]));
    assert_eq!(
        pane_title_args("s"),
        texts(&["display-message", "-p", "-t", "s", "#{pane_title}"])
    );
    assert_eq!(
        attach_tmux_session("s"),
        texts(&["-2", "-T", "RGB", "attach-session", "-t", "s"])
    );
    let attach = spawn_args("s", true, Some("/d"), "cmd");
    assert_eq!(
        attach,
        texts(&[
            "-2", "-T", "RGB", "set-option", "-t", "s", "status", "off", ";", "set-option", "-t",
            "s", "mouse", "on", ";", "attach-session", "-t", "s",
        ])
    );
    let start = spawn_args("s", false, Some("/d"), "cmd");
    assert_eq!(
        start[..11],
        texts(&["-2", "-T", "RGB", "new-session", "-d", "-s", "s", "-c", "/d", "cmd", ";"])[..]
    );
    assert_eq!(start[11..], attach[3..]);
    assert!(ensure_tmux_session("s", true, None, "cmd").is_empty());
    let runs = ensure_tmux_session("s", false, None, "cmd");
    assert_eq!(runs[0].args, texts(&["new-session", "-d", "-s", "s", "cmd"]));
    assert_eq!(runs[1].task, "set-option");
    assert_eq!(
        run_failure(&runs[0].task, "exit status: 1"),
        "tmux new-session exited with exit status: 1"
    );
}

#[test]
fn sessions_are_renamed_once_their_id_is_known() {
    assert_eq!(reuse_tmux_session("a", "a", false, true), None);
    assert_eq!(reuse_tmux_session("a", "b", true, true), None);
    assert_eq!(reuse_tmux_session("a", "b", false, false), None);
    assert_eq!(
        reuse_tmux_session("a", "b", false, true).unwrap().args,
        texts(&["rename-session", "-t", "a", "b"])
    );
    assert_eq!(reused_name("a", "b", true), "b");
    assert_eq!(reused_name("a", "b", false), "a");

    let mut shown = EmbeddedTerminal::spawn("new".to_owned(), 5, 24, 80);
    assert_eq!(shown.tmux_session, "ghpilot_new_5");
    assert!(shown.reuse_as_session("b", false).is_some());
    assert!(shown.reuse_as_session("b", true).is_none());
    shown.reused_as_session("id", "b", false);
    assert_eq!(shown.session_id, "new");
    shown.reused_as_session("id", "b", true);
    assert_eq!((shown.session_id.as_str(), shown.tmux_session.as_str()), ("id", "b"));
}

#[test]
fn titles_hold_for_a_moment() {
    let mut cache = CachedTmuxTitle::new();
    assert!(!cache.fresh(0));
    cache.note(1_000, Some("t".to_owned()));
    assert!(cache.fresh(1_249));
    assert!(!cache.fresh(1_250));
    assert!(cache.fresh(900));
    assert_eq!(cache.value.as_deref(), Some("t"));
    let mut terminal = EmbeddedTerminal::spawn("a".to_owned(), 0, 24, 80);
    let window = Some("w".to_owned());
    assert_eq!(terminal.terminal_title(&window), window);
    terminal.tmux_title.note(2_000, Some("t".to_owned()));
    assert_eq!(terminal.terminal_title(&window), Some("t".to_owned()));
    assert!(!terminal.resize(24, 80));
    assert!(terminal.resize(30, 80));
    assert_eq!(terminal.rows, 30);
}

#[test]
fn keys_as_bytes() {
    assert_eq!(key_to_bytes(Key::Char('a'), false), b"a");
    assert_eq!(key_to_bytes(Key::Char('é'), false), "é".as_bytes());
    assert_eq!(key_to_bytes(Key::Char('C'), true), vec![3]);
    assert_eq!(key_to_bytes(Key::Char('z'), true), vec![26]);
    assert_eq!(key_to_bytes(Key::Char('['), true), vec![0x1b]);
    assert_eq!(key_to_bytes(Key::Char('_'), true), vec![0x1f]);
    assert_eq!(key_to_bytes(Key::Char('1'), true), b"1");
    assert_eq!(key_to_bytes(Key::Enter, true), b"\r");
    assert_eq!(key_to_bytes(Key::Backspace, false), vec![0x7f]);
    assert_eq!(key_to_bytes(Key::BackTab, false), b"\x1b[Z");
    assert_eq!(key_to_bytes(Key::PageDown, false), b"\x1b[6~");
    assert_eq!(key_to_bytes(Key::F(4), false), b"\x1bOS");
    assert_eq!(key_to_bytes(Key::F(12), false), b"\x1b[24~");
    assert!(key_to_bytes(Key::F(13), false).is_empty());
    assert!(key_to_bytes(Key::Other, false).is_empty());
}

#[test]
fn the_wheel_as_bytes() {
    assert_eq!(mouse_to_bytes(Wheel::Up, 0, 4), b"\x1b[<64;1;5M");
    assert_eq!(mouse_to_bytes(Wheel::Down, 65_535, 9), b"\x1b[<65;65535;10M");
    assert!(mouse_to_bytes(Wheel::Other, 0, 0).is_empty());
}
