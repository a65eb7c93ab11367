//! The terminal in which Copilot runs: its tmux session, its environment and its input.
use crate::chars::{alnum, is_alnum, is_alpha, lower, to_lower};
use crate::foreign::{decode_lossy, lossy_text, shell_join, shell_line};
use crate::keys::{Key, Wheel};
use crate::numbers::{decimal, decimal_of};
use crate::tables::TextMap;
use crate::text::{
    chars_of, concat, copy_opt, copy_texts, first_chars, first_chars_of, opt_str, opt_view,
    same_text, string_of, texts_of, trim, trim_end_is_head, trim_start, trim_start_is_tail, trimmed,
    views,
};
use vstd::prelude::*;
use vstd::string::StrSliceExecFns;
use vstd::utf8::encode_utf8;

verus! {

// ---------------------------------------------------------------------------
// Names of tmux sessions
// ---------------------------------------------------------------------------
/// What the name of each tmux session of Copilot starts with.
pub const TMUX_SESSION_PREFIX: &'static str = "ghpilot_";

/// How many characters of an id stand in the name of its tmux session.
pub const TMUX_SESSION_NAME_MAX_LEN: usize = 80;

/// A character may stand in the name of a tmux session.
pub open spec fn is_name_char(c: char) -> bool {
    is_alnum(c) || c == '_' || c == '-'
}

/// An id with an underscore for each character that may not stand in a name.
pub open spec fn plain_name(id: Seq<char>) -> Seq<char> {
    id.map_values(
        |c: char|
            if is_name_char(c) {
                c
            } else {
                '_'
            },
    )
}

/// The name of the tmux session for a Copilot session. A session without an id has the time in its
/// place.
pub open spec fn session_name(session_id: Seq<char>, millis: nat) -> Seq<char> {
    let suffix = if session_id == "new"@ {
        "new_"@ + decimal(millis)
    } else {
        session_id
    };
    TMUX_SESSION_PREFIX@ + first_chars(plain_name(suffix), TMUX_SESSION_NAME_MAX_LEN as int)
}

/// The name of the tmux session for a Copilot session.
pub fn tmux_session_name(session_id: &str, millis: u128) -> (out: String)
    ensures
        out@ == session_name(session_id@, millis as nat),
{
    let suffix = if same_text(session_id, "new") {
        concat("new_", &decimal_of(millis))
    } else {
        session_id.to_owned()
    };
    let s = chars_of(&suffix);
    let mut plain: Vec<char> = Vec::new();
    let mut i: usize = 0;
    while i < s.len()
        invariant
            i <= s.len(),
            plain@ == plain_name(s@).take(i as int),
        decreases s.len() - i,
    {
        let ghost before = plain@;
        if alnum(s[i]) || s[i] == '_' || s[i] == '-' {
            plain.push(s[i]);
        } else {
            plain.push('_');
        }
        assert(plain@ == before.push(plain_name(s@)[i as int]));
        i += 1;
    }
    assert(plain_name(s@).take(s@.len() as int) == plain_name(s@));
    concat(TMUX_SESSION_PREFIX, &string_of(first_chars_of(&plain, TMUX_SESSION_NAME_MAX_LEN)))
}

/// The name of a tmux session is made of letters, digits, underscores and hyphens, and is short.
pub proof fn session_name_is_plain(session_id: Seq<char>, millis: nat)
    ensures
        session_name(session_id, millis).len() <= 88,
        forall|i: int|
            0 <= i < session_name(session_id, millis).len() ==> is_name_char(
                #[trigger] session_name(session_id, millis)[i],
            ),
{
    let name = session_name(session_id, millis);
    let tail = name.skip(TMUX_SESSION_PREFIX@.len() as int);
    reveal_strlit("ghpilot_");
    assert forall|i: int| 0 <= i < name.len() implies is_name_char(#[trigger] name[i]) by {
        if i >= 8 {
            assert(name[i] == tail[i - 8]);
        }
    }
}

/// Ids that may stand in a name, and stand there whole, give different sessions different names.
pub proof fn session_names_differ(a: Seq<char>, b: Seq<char>, millis: nat)
    requires
        a != "new"@,
        b != "new"@,
        a.len() <= TMUX_SESSION_NAME_MAX_LEN,
        b.len() <= TMUX_SESSION_NAME_MAX_LEN,
        forall|i: int| 0 <= i < a.len() ==> is_name_char(#[trigger] a[i]),
        forall|i: int| 0 <= i < b.len() ==> is_name_char(#[trigger] b[i]),
        session_name(a, millis) == session_name(b, millis),
    ensures
        a == b,
{
    let start = TMUX_SESSION_PREFIX@;
    assert(plain_name(a) == a);
    assert(plain_name(b) == b);
    assert(first_chars(a, 80) == a);
    assert(first_chars(b, 80) == b);
    assert(session_name(a, millis).skip(start.len() as int) == a);
    assert(session_name(b, millis).skip(start.len() as int) == b);
}

// ---------------------------------------------------------------------------
// The environment
// ---------------------------------------------------------------------------
/// The variables that tell what a terminal can do, with what they are where the host leaves them
/// unset.
pub open spec fn terminal_variables() -> Seq<(Seq<char>, Seq<char>)> {
    seq![
        ("TERM"@, "xterm-256color"@),
        ("COLORTERM"@, "truecolor"@),
        ("TERM_PROGRAM"@, ""@),
        ("TERM_PROGRAM_VERSION"@, ""@),
        ("WEZTERM_EXECUTABLE"@, ""@),
        ("WEZTERM_PANE"@, ""@),
        ("KITTY_WINDOW_ID"@, ""@),
        ("VTE_VERSION"@, ""@),
    ]
}

/// The names of the variables that tell what a terminal can do.
pub fn terminal_variable_names() -> (out: Vec<String>)
    ensures
        views(out@) == terminal_variables().map_values(|pair: (Seq<char>, Seq<char>)| pair.0),
{
    let names: Vec<&str> = vec![
        "TERM",
        "COLORTERM",
        "TERM_PROGRAM",
        "TERM_PROGRAM_VERSION",
        "WEZTERM_EXECUTABLE",
        "WEZTERM_PANE",
        "KITTY_WINDOW_ID",
        "VTE_VERSION",
    ];
    assert(views(names@) == terminal_variables().map_values(
        |pair: (Seq<char>, Seq<char>)| pair.0,
    ));
    texts_of(&names)
}

/// The value that a variable is given: the host's, where it holds something, else its own, where it
/// has one.
pub open spec fn variable_value(
    env: Map<Seq<char>, String>,
    name: Seq<char>,
    fallback: Seq<char>,
) -> Option<Seq<char>> {
    if env.dom().contains(name) && trim(env[name]@).len() > 0 {
        Some(env[name]@)
    } else if fallback.len() > 0 {
        Some(fallback)
    } else {
        None
    }
}

/// The variables that are given, with their values.
pub open spec fn given_variables(
    variables: Seq<(Seq<char>, Seq<char>)>,
    env: Map<Seq<char>, String>,
) -> Seq<(Seq<char>, Seq<char>)>
    decreases variables.len(),
{
    if variables.len() == 0 {
        seq![]
    } else {
        let rest = given_variables(variables.drop_last(), env);
        let (name, fallback) = variables.last();
        match variable_value(env, name, fallback) {
            Some(value) => rest.push((name, value)),
            None => rest,
        }
    }
}

/// The environment of the terminal, as pairs of a name and a value.
pub open spec fn terminal_env(env: Map<Seq<char>, String>) -> Seq<(Seq<char>, Seq<char>)> {
    given_variables(terminal_variables(), env)
}

/// The environment of the terminal, as assignments.
pub open spec fn env_assignments(env: Map<Seq<char>, String>) -> Seq<Seq<char>> {
    terminal_env(env).map_values(|pair: (Seq<char>, Seq<char>)| pair.0 + "="@ + pair.1)
}

/// Pairs of texts, as contracts speak of them.
pub open spec fn pair_views(pairs: Seq<(String, String)>) -> Seq<(Seq<char>, Seq<char>)> {
    pairs.map_values(|pair: (String, String)| (pair.0@, pair.1@))
}

fn give_variable(
    out: &mut Vec<(String, String)>,
    env: &TextMap<String>,
    name: &str,
    fallback: &str,
    Ghost(variables): Ghost<Seq<(Seq<char>, Seq<char>)>>,
)
    requires
        pair_views(old(out)@) == given_variables(variables, env@),
    ensures
        pair_views(final(out)@) == given_variables(variables.push((name@, fallback@)), env@),
{
    let ghost all = variables.push((name@, fallback@));
    assert(all.drop_last() == variables);
    let ghost before = out@;
    match env.get(name) {
        Some(value) => {
            if trimmed(&chars_of(value)).len() > 0 {
                out.push((name.to_owned(), value.clone()));
                assert(pair_views(out@) == pair_views(before).push((name@, value@)));
                return;
            }
        },
        None => {},
    }
    if chars_of(fallback).len() > 0 {
        out.push((name.to_owned(), fallback.to_owned()));
        assert(pair_views(out@) == pair_views(before).push((name@, fallback@)));
    }
}

/// The environment of the terminal, as pairs of a name and a value: of each variable that tells what
/// a terminal can do, what the host says, and what Copilot can count on where it says nothing.
pub fn terminal_env_pairs(env: &TextMap<String>) -> (out: Vec<(String, String)>)
    ensures
        pair_views(out@) == terminal_env(env@),
{
    let mut out: Vec<(String, String)> = Vec::new();
    let ghost all = terminal_variables();
    assert(pair_views(out@) == given_variables(all.take(0), env@));
    give_variable(&mut out, env, "TERM", "xterm-256color", Ghost(all.take(0)));
    assert(all.take(0).push(all[0]) == all.take(1));
    give_variable(&mut out, env, "COLORTERM", "truecolor", Ghost(all.take(1)));
    assert(all.take(1).push(all[1]) == all.take(2));
    give_variable(&mut out, env, "TERM_PROGRAM", "", Ghost(all.take(2)));
    assert(all.take(2).push(all[2]) == all.take(3));
    give_variable(&mut out, env, "TERM_PROGRAM_VERSION", "", Ghost(all.take(3)));
    assert(all.take(3).push(all[3]) == all.take(4));
    give_variable(&mut out, env, "WEZTERM_EXECUTABLE", "", Ghost(all.take(4)));
    assert(all.take(4).push(all[4]) == all.take(5));
    give_variable(&mut out, env, "WEZTERM_PANE", "", Ghost(all.take(5)));
    assert(all.take(5).push(all[5]) == all.take(6));
    give_variable(&mut out, env, "KITTY_WINDOW_ID", "", Ghost(all.take(6)));
    assert(all.take(6).push(all[6]) == all.take(7));
    give_variable(&mut out, env, "VTE_VERSION", "", Ghost(all.take(7)));
    assert(all.take(7).push(all[7]) == all);
    out
}

/// The environment of the terminal, as assignments.
pub fn terminal_env_assignments(env: &TextMap<String>) -> (out: Vec<String>)
    ensures
        views(out@) == env_assignments(env@),
{
    let pairs = terminal_env_pairs(env);
    let ghost wanted = env_assignments(env@);
    let mut out: Vec<String> = Vec::new();
    let mut i: usize = 0;
    while i < pairs.len()
        invariant
            i <= pairs.len(),
            pair_views(pairs@) == terminal_env(env@),
            wanted == env_assignments(env@),
            views(out@) == wanted.take(i as int),
        decreases pairs.len() - i,
    {
        let ghost before = out@;
        assert(terminal_env(env@)[i as int] == (pairs@[i as int].0@, pairs@[i as int].1@));
        out.push(concat(&concat(&pairs[i].0, "="), &pairs[i].1));
        assert(views(out@) == views(before).push(wanted[i as int]));
        i += 1;
    }
    assert(wanted.take(pairs@.len() as int) == wanted);
    out
}

/// The shell command that runs Copilot with its arguments in the environment of the terminal.
pub fn copilot_shell_command_with_env(
    copilot_bin: &str,
    args: &Vec<String>,
    env: &TextMap<String>,
) -> (out: String)
    ensures
        out@ == shell_line(
            seq!["env"@] + env_assignments(env@) + seq![copilot_bin@] + views(args@),
        ),
{
    let mut words: Vec<String> = vec!["env".to_owned()];
    let mut assignments = terminal_env_assignments(env);
    let mut arguments = copy_texts(args);
    words.append(&mut assignments);
    words.push(copilot_bin.to_owned());
    words.append(&mut arguments);
    assert(views(words@) == seq!["env"@] + env_assignments(env@) + seq![copilot_bin@] + views(
        args@,
    ));
    shell_join(&words)
}

/// Copilot is always told of a terminal with colours.
pub proof fn colours_are_always_told(env: Map<Seq<char>, String>)
    ensures
        terminal_env(env).len() >= 2,
        terminal_env(env)[0].0 == "TERM"@,
        terminal_env(env)[0].1.len() > 0,
        terminal_env(env)[1].0 == "COLORTERM"@,
        terminal_env(env)[1].1.len() > 0,
{
    let all = terminal_variables();
    reveal_strlit("xterm-256color");
    reveal_strlit("truecolor");
    value_is_long_enough(env, all[0].0, all[0].1);
    value_is_long_enough(env, all[1].0, all[1].1);
    assert(all.take(1).drop_last() == Seq::<(Seq<char>, Seq<char>)>::empty());
    assert(all.take(2).drop_last() == all.take(1));
    assert(given_variables(all.take(1).drop_last(), env).len() == 0);
    assert(given_variables(all.take(1), env).len() == 1);
    assert(given_variables(all.take(2), env).len() == 2);
    variables_stay(all, 2, env);
}

/// Copilot is told nothing of the terminal that the host does not say, but for its kind and its
/// colours.
pub proof fn nothing_else_is_made_up(env: Map<Seq<char>, String>, i: int)
    requires
        0 <= i < terminal_env(env).len(),
        terminal_env(env)[i].0 != "TERM"@,
        terminal_env(env)[i].0 != "COLORTERM"@,
    ensures
        env.dom().contains(terminal_env(env)[i].0),
        env[terminal_env(env)[i].0]@ == terminal_env(env)[i].1,
{
    reveal_strlit("");
    given_value_is_known(terminal_variables(), env, i);
    let pair = terminal_env(env)[i];
    let k = choose|k: int|
        0 <= k < terminal_variables().len() && (#[trigger] terminal_variables()[k]).0 == pair.0
            && variable_value(env, pair.0, terminal_variables()[k].1) == Some(pair.1);
    assert(k >= 2) by {
        assert(terminal_variables()[0].0 == "TERM"@);
        assert(terminal_variables()[1].0 == "COLORTERM"@);
    }
    assert(terminal_variables()[k].1 == ""@);
}

proof fn given_value_is_known(
    variables: Seq<(Seq<char>, Seq<char>)>,
    env: Map<Seq<char>, String>,
    i: int,
)
    requires
        0 <= i < given_variables(variables, env).len(),
    ensures
        exists|k: int|
            0 <= k < variables.len() && (#[trigger] variables[k]).0 == given_variables(
                variables,
                env,
            )[i].0 && variable_value(
                env,
                given_variables(variables, env)[i].0,
                variables[k].1,
            ) == Some(given_variables(variables, env)[i].1),
    decreases variables.len(),
{
    if variables.len() > 0 {
        let head = variables.drop_last();
        let rest = given_variables(head, env);
        let pair = given_variables(variables, env)[i];
        if i < rest.len() {
            assert(pair == rest[i]);
            given_value_is_known(head, env, i);
            let k = choose|k: int|
                0 <= k < head.len() && (#[trigger] head[k]).0 == pair.0 && variable_value(
                    env,
                    pair.0,
                    head[k].1,
                ) == Some(pair.1);
            assert(variables[k] == head[k]);
        } else {
            assert(variables[variables.len() - 1] == variables.last());
        }
    }
}

proof fn value_is_long_enough(env: Map<Seq<char>, String>, name: Seq<char>, fallback: Seq<char>)
    requires
        fallback.len() > 0,
    ensures
        variable_value(env, name, fallback) is Some,
        variable_value(env, name, fallback)->0.len() > 0,
{
    if env.dom().contains(name) {
        trim_start_is_tail(env[name]@);
        trim_end_is_head(trim_start(env[name]@));
    }
}

proof fn variables_stay(
    variables: Seq<(Seq<char>, Seq<char>)>,
    n: int,
    env: Map<Seq<char>, String>,
)
    requires
        0 <= n <= variables.len(),
    ensures
        given_variables(variables.take(n), env).len() <= given_variables(variables, env).len(),
        forall|i: int|
            0 <= i < given_variables(variables.take(n), env).len() ==> #[trigger] given_variables(
                variables,
                env,
            )[i] == given_variables(variables.take(n), env)[i],
    decreases variables.len(),
{
    if n == variables.len() {
        assert(variables.take(n) == variables);
    } else {
        assert(variables.drop_last().take(n) == variables.take(n));
        variables_stay(variables.drop_last(), n, env);
    }
}

// ---------------------------------------------------------------------------
// Runs of tmux
// ---------------------------------------------------------------------------
/// What a client of tmux is told that its terminal can do.
pub const TMUX_CLIENT_FEATURES: &'static str = "RGB";

/// The arguments that tell whether a session is there.
pub fn has_session_args(tmux_session: &str) -> (out: Vec<String>)
    ensures
        views(out@) == seq!["has-session"@, "-t"@, tmux_session@],
{
    let words: Vec<&str> = vec!["has-session", "-t", tmux_session];
    assert(views(words@) == seq!["has-session"@, "-t"@, tmux_session@]);
    texts_of(&words)
}

/// The arguments that print the title of a session's pane.
pub fn pane_title_args(tmux_session: &str) -> (out: Vec<String>)
    ensures
        views(out@) == seq!["display-message"@, "-p"@, "-t"@, tmux_session@, "#{pane_title}"@],
{
    let words: Vec<&str> = vec!["display-message", "-p", "-t", tmux_session, "#{pane_title}"];
    assert(views(words@) == seq![
        "display-message"@,
        "-p"@,
        "-t"@,
        tmux_session@,
        "#{pane_title}"@,
    ]);
    texts_of(&words)
}

/// The arguments that start a session in the background.
pub open spec fn new_session(name: Seq<char>, dir: Option<Seq<char>>, command: Seq<char>) -> Seq<
    Seq<char>,
> {
    seq!["new-session"@, "-d"@, "-s"@, name] + (match dir {
        Some(dir) => seq!["-c"@, dir],
        None => seq![],
    }) + seq![command]
}

/// The arguments that start a session in the background.
pub fn new_session_args(tmux_session: &str, cwd: Option<&str>, command: &str) -> (out: Vec<String>)
    ensures
        views(out@) == new_session(tmux_session@, opt_str(cwd), command@),
{
    let mut words: Vec<&str> = vec!["new-session", "-d", "-s", tmux_session];
    match cwd {
        Some(dir) => {
            words.push("-c");
            words.push(dir);
        },
        None => {},
    }
    words.push(command);
    assert(views(words@) == new_session(tmux_session@, opt_str(cwd), command@));
    texts_of(&words)
}

/// The arguments that hide the status line of a session and let it see the mouse.
pub open spec fn configuration(name: Seq<char>) -> Seq<Seq<char>> {
    seq![
        "set-option"@,
        "-t"@,
        name,
        "status"@,
        "off"@,
        ";"@,
        "set-option"@,
        "-t"@,
        name,
        "mouse"@,
        "on"@,
    ]
}

/// The arguments that hide the status line of a session and let it see the mouse.
pub fn configure_tmux_session(tmux_session: &str) -> (out: Vec<String>)
    ensures
        views(out@) == configuration(tmux_session@),
{
    let words: Vec<&str> = vec![
        "set-option",
        "-t",
        tmux_session,
        "status",
        "off",
        ";",
        "set-option",
        "-t",
        tmux_session,
        "mouse",
        "on",
    ];
    assert(views(words@) == configuration(tmux_session@));
    texts_of(&words)
}

/// The arguments that attach a client to a session.
pub fn attach_tmux_session(tmux_session: &str) -> (out: Vec<String>)
    ensures
        views(out@) == seq![
            "-2"@,
            "-T"@,
            TMUX_CLIENT_FEATURES@,
            "attach-session"@,
            "-t"@,
            tmux_session@,
        ],
{
    let words: Vec<&str> = vec![
        "-2",
        "-T",
        TMUX_CLIENT_FEATURES,
        "attach-session",
        "-t",
        tmux_session,
    ];
    assert(views(words@) == seq![
        "-2"@,
        "-T"@,
        TMUX_CLIENT_FEATURES@,
        "attach-session"@,
        "-t"@,
        tmux_session@,
    ]);
    texts_of(&words)
}

/// The arguments of the client that shows a session: it starts the session where it is not there,
/// configures it and attaches to it.
pub open spec fn client_args(
    name: Seq<char>,
    exists: bool,
    dir: Option<Seq<char>>,
    command: Seq<char>,
) -> Seq<Seq<char>> {
    seq!["-2"@, "-T"@, TMUX_CLIENT_FEATURES@] + (if exists {
        seq![]
    } else {
        new_session(name, dir, command).push(";"@)
    }) + configuration(name) + seq![";"@, "attach-session"@, "-t"@, name]
}

/// The arguments of the client that shows a session: it starts the session where it is not there,
/// configures it and attaches to it.
pub fn spawn_args(tmux_session: &str, exists: bool, cwd: Option<&str>, command: &str) -> (out: Vec<
    String,
>)
    ensures
        views(out@) == client_args(tmux_session@, exists, opt_str(cwd), command@),
{
    let mut out: Vec<String> = vec![
        "-2".to_owned(),
        "-T".to_owned(),
        TMUX_CLIENT_FEATURES.to_owned(),
    ];
    if !exists {
        let mut start = new_session_args(tmux_session, cwd, command);
        out.append(&mut start);
        out.push(";".to_owned());
    }
    let mut settings = configure_tmux_session(tmux_session);
    out.append(&mut settings);
    out.push(";".to_owned());
    out.push("attach-session".to_owned());
    out.push("-t".to_owned());
    out.push(tmux_session.to_owned());
    assert(views(out@) == client_args(tmux_session@, exists, opt_str(cwd), command@));
    out
}

/// The runs of tmux that make sure of a session: none where it is there, else its start and its
/// configuration, each with the task that is named where it fails.
pub open spec fn assured(
    name: Seq<char>,
    exists: bool,
    dir: Option<Seq<char>>,
    command: Seq<char>,
) -> Seq<(Seq<Seq<char>>, Seq<char>)> {
    if exists {
        seq![]
    } else {
        seq![
            (new_session(name, dir, command), "new-session"@),
            (configuration(name), "set-option"@),
        ]
    }
}

/// A run of tmux.
#[derive(Debug, PartialEq, Eq)]
pub struct TmuxRun {
    pub args: Vec<String>,
    /// What is named where the run fails.
    pub task: String,
}

impl View for TmuxRun {
    type V = (Seq<Seq<char>>, Seq<char>);

    open spec fn view(&self) -> (Seq<Seq<char>>, Seq<char>) {
        (views(self.args@), self.task@)
    }
}

/// The runs of tmux that make sure of a session, to be made as `tmux::after_run` says.
pub fn ensure_tmux_session(
    tmux_session: &str,
    exists: bool,
    cwd: Option<&str>,
    command: &str,
) -> (out: Vec<TmuxRun>)
    ensures
        views(out@) == assured(tmux_session@, exists, opt_str(cwd), command@),
{
    let mut out: Vec<TmuxRun> = Vec::new();
    if !exists {
        out.push(
            TmuxRun {
                args: new_session_args(tmux_session, cwd, command),
                task: "new-session".to_owned(),
            },
        );
        out.push(
            TmuxRun { args: configure_tmux_session(tmux_session), task: "set-option".to_owned() },
        );
    }
    assert(views(out@) == assured(tmux_session@, exists, opt_str(cwd), command@));
    out
}

/// What is said of a run of tmux that failed.
pub fn run_failure(task: &str, status: &str) -> (out: String)
    ensures
        out@ == "tmux "@ + task@ + " exited with "@ + status@,
{
    concat(&concat(&concat("tmux ", task), " exited with "), status)
}

/// The run of tmux that renames a session.
pub open spec fn renaming(name: Seq<char>, target: Seq<char>) -> (Seq<Seq<char>>, Seq<char>) {
    (seq!["rename-session"@, "-t"@, name, target], "rename-session"@)
}

fn rename_run(tmux_session: &str, target: &str) -> (out: TmuxRun)
    ensures
        out@ == renaming(tmux_session@, target@),
{
    let words: Vec<&str> = vec!["rename-session", "-t", tmux_session, target];
    assert(views(words@) == seq!["rename-session"@, "-t"@, tmux_session@, target@]);
    TmuxRun { args: texts_of(&words), task: "rename-session".to_owned() }
}

/// The run of tmux that gives a session the name of a Copilot session: none where it has that name,
/// where another session has it, or where the session is gone.
pub fn reuse_tmux_session(
    tmux_session: &str,
    target: &str,
    target_exists: bool,
    session_exists: bool,
) -> (out: Option<TmuxRun>)
    ensures
        opt_view(out) == if tmux_session@ != target@ && !target_exists && session_exists {
            Some(renaming(tmux_session@, target@))
        } else {
            None
        },
        target_exists || !session_exists || tmux_session@ == target@ ==> out is None,
        out is Some ==> views(out->0.args@) == seq![
            "rename-session"@,
            "-t"@,
            tmux_session@,
            target@,
        ],
{
    if !same_text(tmux_session, target) && !target_exists && session_exists {
        Some(rename_run(tmux_session, target))
    } else {
        None
    }
}

/// The name under which the session goes on, once it is known whether there is a session with the
/// name that it was to have.
pub fn reused_name(tmux_session: &str, target: &str, target_exists: bool) -> (out: String)
    ensures
        out@ == if tmux_session@ == target@ || target_exists {
            target@
        } else {
            tmux_session@
        },
{
    if same_text(tmux_session, target) || target_exists {
        target.to_owned()
    } else {
        tmux_session.to_owned()
    }
}

// ---------------------------------------------------------------------------
// Titles
// ---------------------------------------------------------------------------
/// A title without white space at its ends, where something is left.
pub open spec fn title_in(text: Seq<char>) -> Option<Seq<char>> {
    if trim(text).len() > 0 {
        Some(trim(text))
    } else {
        None
    }
}

/// A title without white space at its ends, where something is left.
pub fn title_of_text(text: &str) -> (out: Option<String>)
    ensures
        opt_view(out) == title_in(text@),
{
    let s = chars_of(text);
    let title = trimmed(&s);
    if title.len() > 0 {
        Some(string_of(title))
    } else {
        None
    }
}

/// The title that tmux printed, where it is not empty.
pub fn title_from_tmux_output(output: &[u8]) -> (out: Option<String>)
    ensures
        opt_view(out) == title_in(lossy_text(output@)),
{
    title_of_text(&decode_lossy(output))
}

/// For how many milliseconds a title that tmux gave is taken to hold.
pub const TMUX_TITLE_CACHE_MILLIS: u128 = 250;

/// The last title that tmux gave, and when.
#[derive(Debug, PartialEq, Eq)]
pub struct CachedTmuxTitle<T = String> {
    pub last_checked: Option<u128>,
    pub value: Option<T>,
}

impl View for CachedTmuxTitle<String> {
    type V = CachedTmuxTitle<Seq<char>>;

    open spec fn view(&self) -> CachedTmuxTitle<Seq<char>> {
        CachedTmuxTitle { last_checked: self.last_checked, value: opt_view(self.value) }
    }
}

impl<T> CachedTmuxTitle<T> {
    /// The title was given a moment ago.
    pub open spec fn is_fresh(self, now: u128) -> bool {
        match self.last_checked {
            Some(then) => now < then + TMUX_TITLE_CACHE_MILLIS,
            None => false,
        }
    }
}

impl CachedTmuxTitle<String> {
    /// No title yet.
    pub fn new() -> (out: CachedTmuxTitle)
        ensures
            out@ == (CachedTmuxTitle::<Seq<char>> { last_checked: None, value: None }),
    {
        CachedTmuxTitle { last_checked: None, value: None }
    }

    /// Whether the title was given a moment ago.
    pub fn fresh(&self, now: u128) -> (yes: bool)
        ensures
            yes == self@.is_fresh(now),
    {
        match self.last_checked {
            Some(then) => now < then || now - then < TMUX_TITLE_CACHE_MILLIS,
            None => false,
        }
    }

    /// Notes what tmux gave.
    pub fn note(&mut self, now: u128, title: Option<String>)
        ensures
            final(self)@ == (CachedTmuxTitle { last_checked: Some(now), value: opt_view(title) }),
    {
        self.last_checked = Some(now);
        self.value = title;
    }
}

// ---------------------------------------------------------------------------
// A terminal
// ---------------------------------------------------------------------------
/// A terminal in which a Copilot session is shown: which one, in which tmux session, under which
/// title, and how large it is.
#[derive(Debug, PartialEq, Eq)]
pub struct EmbeddedTerminal<T = String> {
    pub session_id: T,
    pub tmux_session: T,
    pub tmux_title: CachedTmuxTitle<T>,
    pub rows: u16,
    pub cols: u16,
}

/// A terminal, as contracts speak of it.
pub type TerminalView = EmbeddedTerminal<Seq<char>>;

impl View for EmbeddedTerminal<String> {
    type V = TerminalView;

    open spec fn view(&self) -> TerminalView {
        EmbeddedTerminal {
            session_id: self.session_id@,
            tmux_session: self.tmux_session@,
            tmux_title: self.tmux_title@,
            rows: self.rows,
            cols: self.cols,
        }
    }
}

impl EmbeddedTerminal<String> {
    /// A terminal for a Copilot session.
    pub fn spawn(session_id: String, millis: u128, rows: u16, cols: u16) -> (out: EmbeddedTerminal)
        ensures
            out@ == (EmbeddedTerminal {
                session_id: session_id@,
                tmux_session: session_name(session_id@, millis as nat),
                tmux_title: CachedTmuxTitle { last_checked: None, value: None },
                rows,
                cols,
            }),
    {
        let tmux_session = tmux_session_name(&session_id, millis);
        EmbeddedTerminal {
            session_id,
            tmux_session,
            tmux_title: CachedTmuxTitle::new(),
            rows,
            cols,
        }
    }

    /// The terminal gets a size; tells whether it is another one.
    pub fn resize(&mut self, rows: u16, cols: u16) -> (changed: bool)
        ensures
            final(self)@ == (EmbeddedTerminal { rows, cols, ..old(self)@ }),
            changed == (rows != old(self)@.rows || cols != old(self)@.cols),
    {
        let changed = self.rows != rows || self.cols != cols;
        self.rows = rows;
        self.cols = cols;
        changed
    }

    /// The title of the terminal: what tmux gave, else the window's own.
    pub fn terminal_title(&self, window_title: &Option<String>) -> (out: Option<String>)
        ensures
            opt_view(out) == if self@.tmux_title.value is Some {
                self@.tmux_title.value
            } else {
                opt_view(*window_title)
            },
    {
        if self.tmux_title.value.is_some() {
            copy_opt(&self.tmux_title.value)
        } else {
            copy_opt(window_title)
        }
    }

    /// The run of tmux that gives the terminal's session the name of a Copilot session: none where
    /// it has that name, or where another session has it.
    pub fn reuse_as_session(&self, target: &str, target_exists: bool) -> (out: Option<TmuxRun>)
        ensures
            opt_view(out) == if self@.tmux_session != target@ && !target_exists {
                Some(renaming(self@.tmux_session, target@))
            } else {
                None
            },
    {
        if !same_text(&self.tmux_session, target) && !target_exists {
            Some(rename_run(&self.tmux_session, target))
        } else {
            None
        }
    }

    /// The terminal shows the Copilot session from now on, where its tmux session has the name for
    /// it, or one with that name is there.
    pub fn reused_as_session(&mut self, session_id: &str, target: &str, target_exists: bool)
        ensures
            final(self)@ == if old(self)@.tmux_session == target@ || target_exists {
                (EmbeddedTerminal {
                    session_id: session_id@,
                    tmux_session: target@,
                    ..old(self)@
                })
            } else {
                old(self)@
            },
            target_exists ==> final(self)@.session_id == session_id@ && final(self)@.tmux_session
                == target@,
            final(self)@.session_id == old(self)@.session_id || final(self)@.tmux_session
                == target@,
            final(self)@.rows == old(self)@.rows && final(self)@.cols == old(self)@.cols,
    {
        if same_text(&self.tmux_session, target) || target_exists {
            self.session_id = session_id.to_owned();
            self.tmux_session = target.to_owned();
        }
    }
}

// ---------------------------------------------------------------------------
// Input
// ---------------------------------------------------------------------------
/// The byte that a character stands for together with the control key.
pub open spec fn control_byte(c: char) -> Option<u8> {
    let base = lower(c);
    if is_alpha(base) {
        Some((base as u32 - 'a' as u32 + 1) as u8)
    } else if base == '[' {
        Some(0x1b)
    } else if base == '\\' {
        Some(0x1c)
    } else if base == ']' {
        Some(0x1d)
    } else if base == '^' {
        Some(0x1e)
    } else if base == '_' {
        Some(0x1f)
    } else {
        None
    }
}

/// The bytes that a terminal sends for a key, without the control key.
pub open spec fn plain_bytes(key: Key) -> Seq<u8> {
    match key {
        Key::Char(c) => encode_utf8(seq![c]),
        Key::Enter => seq![13u8],
        Key::Backspace => seq![0x7fu8],
        Key::Tab => seq![9u8],
        Key::BackTab => encode_utf8("\x1b[Z"@),
        Key::Esc => seq![0x1bu8],
        Key::Up => encode_utf8("\x1b[A"@),
        Key::Down => encode_utf8("\x1b[B"@),
        Key::Right => encode_utf8("\x1b[C"@),
        Key::Left => encode_utf8("\x1b[D"@),
        Key::Home => encode_utf8("\x1b[H"@),
        Key::End => encode_utf8("\x1b[F"@),
        Key::PageUp => encode_utf8("\x1b[5~"@),
        Key::PageDown => encode_utf8("\x1b[6~"@),
        Key::Delete => encode_utf8("\x1b[3~"@),
        Key::Insert => encode_utf8("\x1b[2~"@),
        Key::F(1) => encode_utf8("\x1bOP"@),
        Key::F(2) => encode_utf8("\x1bOQ"@),
        Key::F(3) => encode_utf8("\x1bOR"@),
        Key::F(4) => encode_utf8("\x1bOS"@),
        Key::F(5) => encode_utf8("\x1b[15~"@),
        Key::F(6) => encode_utf8("\x1b[17~"@),
        Key::F(7) => encode_utf8("\x1b[18~"@),
        Key::F(8) => encode_utf8("\x1b[19~"@),
        Key::F(9) => encode_utf8("\x1b[20~"@),
        Key::F(10) => encode_utf8("\x1b[21~"@),
        Key::F(11) => encode_utf8("\x1b[23~"@),
        Key::F(12) => encode_utf8("\x1b[24~"@),
        _ => seq![],
    }
}

/// The bytes that a terminal sends for a key.
pub open spec fn key_bytes(key: Key, control: bool) -> Seq<u8> {
    match key {
        Key::Char(c) => if control && control_byte(c) is Some {
            seq![control_byte(c)->0]
        } else {
            plain_bytes(key)
        },
        _ => plain_bytes(key),
    }
}

fn controlled(c: char) -> (out: Option<u8>)
    ensures
        out == control_byte(c),
{
    let base = to_lower(c);
    if 'a' <= base && base <= 'z' {
        Some((base as u32 - 'a' as u32 + 1) as u8)
    } else if base == '[' {
        Some(0x1b)
    } else if base == '\\' {
        Some(0x1c)
    } else if base == ']' {
        Some(0x1d)
    } else if base == '^' {
        Some(0x1e)
    } else if base == '_' {
        Some(0x1f)
    } else {
        None
    }
}

/// The bytes that a terminal sends for a key.
pub fn key_to_bytes(key: Key, control: bool) -> (out: Vec<u8>)
    ensures
        out@ == key_bytes(key, control),
{
    match key {
        Key::Char(c) => {
            if control {
                match controlled(c) {
                    Some(byte) => {
                        return vec![byte];
                    },
                    None => {},
                }
            }
            let text = string_of(&[c]);
            assert(text@ == seq![c]);
            text.as_str().as_bytes_vec()
        },
        Key::Enter => vec![13u8],
        Key::Backspace => vec![0x7fu8],
        Key::Tab => vec![9u8],
        Key::BackTab => "\x1b[Z".as_bytes_vec(),
        Key::Esc => vec![0x1bu8],
        Key::Up => "\x1b[A".as_bytes_vec(),
        Key::Down => "\x1b[B".as_bytes_vec(),
        Key::Right => "\x1b[C".as_bytes_vec(),
        Key::Left => "\x1b[D".as_bytes_vec(),
        Key::Home => "\x1b[H".as_bytes_vec(),
        Key::End => "\x1b[F".as_bytes_vec(),
        Key::PageUp => "\x1b[5~".as_bytes_vec(),
        Key::PageDown => "\x1b[6~".as_bytes_vec(),
        Key::Delete => "\x1b[3~".as_bytes_vec(),
        Key::Insert => "\x1b[2~".as_bytes_vec(),
        Key::F(1) => "\x1bOP".as_bytes_vec(),
        Key::F(2) => "\x1bOQ".as_bytes_vec(),
        Key::F(3) => "\x1bOR".as_bytes_vec(),
        Key::F(4) => "\x1bOS".as_bytes_vec(),
        Key::F(5) => "\x1b[15~".as_bytes_vec(),
        Key::F(6) => "\x1b[17~".as_bytes_vec(),
        Key::F(7) => "\x1b[18~".as_bytes_vec(),
        Key::F(8) => "\x1b[19~".as_bytes_vec(),
        Key::F(9) => "\x1b[20~".as_bytes_vec(),
        Key::F(10) => "\x1b[21~".as_bytes_vec(),
        Key::F(11) => "\x1b[23~".as_bytes_vec(),
        Key::F(12) => "\x1b[24~".as_bytes_vec(),
        _ => Vec::new(),
    }
}

/// The next number, or the same where there is none.
pub open spec fn one_more(n: u16) -> nat {
    if n < u16::MAX {
        (n + 1) as nat
    } else {
        n as nat
    }
}

/// The text that a terminal sends for a turn of the mouse wheel: the button, and the place counted
/// from one.
pub open spec fn wheel_text(button: nat, column: u16, row: u16) -> Seq<char> {
    "\x1b[<"@ + decimal(button) + ";"@ + decimal(one_more(column)) + ";"@ + decimal(one_more(row))
        + "M"@
}

/// The bytes that a terminal sends for what the mouse did: nothing but turns of its wheel.
pub open spec fn mouse_bytes(wheel: Wheel, column: u16, row: u16) -> Seq<u8> {
    match wheel {
        Wheel::Up => encode_utf8(wheel_text(64, column, row)),
        Wheel::Down => encode_utf8(wheel_text(65, column, row)),
        Wheel::Other => seq![],
    }
}

/// The bytes that a terminal sends for what the mouse did.
pub fn mouse_to_bytes(wheel: Wheel, column: u16, row: u16) -> (out: Vec<u8>)
    ensures
        out@ == mouse_bytes(wheel, column, row),
{
    let button: u128 = match wheel {
        Wheel::Up => 64,
        Wheel::Down => 65,
        Wheel::Other => {
            return Vec::new();
        },
    };
    let x: u16 = column.saturating_add(1);
    let y: u16 = row.saturating_add(1);
    let start = concat(&concat("\x1b[<", &decimal_of(button)), ";");
    let middle = concat(&concat(&start, &decimal_of(x as u128)), ";");
    let text = concat(&concat(&middle, &decimal_of(y as u128)), "M");
    text.as_str().as_bytes_vec()
}

// ---------------------------------------------------------------------------
// What holds of them
// ---------------------------------------------------------------------------
/// The name of a tmux session is the prefix and the id of its session, character by character, with
/// an underscore in place of each but letters, digits, dashes and underscores. It ends after eighty
/// of them. A new session has the time in place of an id.
pub proof fn session_is_named_by_its_id(id: Seq<char>, millis: nat, i: int)
    ensures
        ({
            let whole = if id == seq!['n', 'e', 'w'] {
                seq!['n', 'e', 'w', '_'] + decimal(millis)
            } else {
                id
            };
            let name = session_name(id, millis);
            &&& name.take(8) == "ghpilot_"@
            &&& whole.len() <= 80 ==> name.len() == 8 + whole.len()
            &&& whole.len() > 80 ==> name.len() == 88
            &&& 8 <= i < name.len() ==> {
                let c = whole[i - 8];
                let safe = 'a' <= c <= 'z' || 'A' <= c <= 'Z' || '0' <= c <= '9' || c == '_' || c
                    == '-';
                name[i] == if safe {
                    c
                } else {
                    '_'
                }
            }
        }),
{
    reveal_strlit("ghpilot_");
    reveal_strlit("new");
    reveal_strlit("new_");
    assert("new"@ == seq!['n', 'e', 'w']);
    assert("new_"@ == seq!['n', 'e', 'w', '_']);
    assert(TMUX_SESSION_PREFIX@.len() == 8);
}

/// The variables of the host that Copilot is told of.
pub open spec fn told_variables() -> Seq<Seq<char>> {
    seq![
        "TERM"@,
        "COLORTERM"@,
        "TERM_PROGRAM"@,
        "TERM_PROGRAM_VERSION"@,
        "WEZTERM_EXECUTABLE"@,
        "WEZTERM_PANE"@,
        "KITTY_WINDOW_ID"@,
        "VTE_VERSION"@,
    ]
}

/// What the host says of its terminal is passed on. Where it does not say its kind or its colours,
/// or leaves them blank, Copilot is told of a terminal with many colours.
pub proof fn host_variables_are_passed_on(env: Map<Seq<char>, String>, k: int)
    requires
        0 <= k < told_variables().len(),
    ensures
        ({
            let name = told_variables()[k];
            let said = env.dom().contains(name) && trim(env[name]@).len() > 0;
            &&& said ==> terminal_env(env).contains((name, env[name]@))
            &&& !said && k == 0 ==> terminal_env(env).contains((name, "xterm-256color"@))
            &&& !said && k == 1 ==> terminal_env(env).contains((name, "truecolor"@))
        }),
{
    let all = terminal_variables();
    assert(all[k].0 == told_variables()[k]);
    reveal_strlit("xterm-256color");
    reveal_strlit("truecolor");
    match variable_value(env, all[k].0, all[k].1) {
        Some(value) => {
            variable_is_given(all, env, k, value);
        },
        None => {},
    }
}

proof fn variable_is_given(
    variables: Seq<(Seq<char>, Seq<char>)>,
    env: Map<Seq<char>, String>,
    k: int,
    value: Seq<char>,
)
    requires
        0 <= k < variables.len(),
        variable_value(env, variables[k].0, variables[k].1) == Some(value),
    ensures
        given_variables(variables, env).contains((variables[k].0, value)),
    decreases variables.len(),
{
    let head = variables.drop_last();
    let given = given_variables(variables, env);
    if k < head.len() {
        assert(head[k] == variables[k]);
        variable_is_given(head, env, k, value);
        let rest = given_variables(head, env);
        let i = choose|i: int| 0 <= i < rest.len() && rest[i] == (variables[k].0, value);
        assert(given[i] == rest[i]);
    } else {
        assert(variables.last() == variables[k]);
        assert(given[given.len() - 1] == (variables[k].0, value));
    }
}

/// Only variables of a terminal are told, and each assignment is a name, an equals sign and a value
/// that is not blank.
pub proof fn only_terminal_variables_are_told(env: Map<Seq<char>, String>, i: int)
    requires
        0 <= i < terminal_env(env).len(),
    ensures
        told_variables().contains(terminal_env(env)[i].0),
        terminal_env(env)[i].1.len() > 0,
        env_assignments(env).len() == terminal_env(env).len(),
        env_assignments(env)[i] == terminal_env(env)[i].0 + seq!['='] + terminal_env(env)[i].1,
{
    reveal_strlit("=");
    assert("="@ == seq!['=']);
    reveal_strlit("");
    given_value_is_known(terminal_variables(), env, i);
    let pair = terminal_env(env)[i];
    let k = choose|k: int|
        0 <= k < terminal_variables().len() && (#[trigger] terminal_variables()[k]).0 == pair.0
            && variable_value(env, pair.0, terminal_variables()[k].1) == Some(pair.1);
    assert(told_variables()[k] == pair.0);
    if env.dom().contains(pair.0) {
        trim_start_is_tail(env[pair.0]@);
        trim_end_is_head(trim_start(env[pair.0]@));
    }
}

/// A session is started in the background under its name, in its directory where it has one, with
/// its command last.
pub proof fn session_is_started_where_it_belongs(
    name: Seq<char>,
    dir: Option<Seq<char>>,
    command: Seq<char>,
)
    ensures
        ({
            let args = new_session(name, dir, command);
            &&& args.take(4) == seq!["new-session"@, "-d"@, "-s"@, name]
            &&& args.last() == command
            &&& dir is Some ==> args.len() == 7 && args[4] == "-c"@ && args[5] == dir->0
            &&& dir is None ==> args.len() == 5
        }),
{
}

/// A client attaches to its session, whose status line it hides. Where the session is not there it
/// starts it first, and does the same behind that.
pub proof fn client_starts_what_is_missing(
    name: Seq<char>,
    dir: Option<Seq<char>>,
    command: Seq<char>,
)
    ensures
        ({
            let there = client_args(name, true, dir, command);
            let missing = client_args(name, false, dir, command);
            let start = new_session(name, dir, command);
            &&& there.take(3) == seq!["-2"@, "-T"@, "RGB"@]
            &&& missing.take(3) == there.take(3)
            &&& missing.skip(3) == start.push(";"@) + there.skip(3)
            &&& there.skip(there.len() - 4) == seq![";"@, "attach-session"@, "-t"@, name]
            &&& there.subrange(3, 8) == seq!["set-option"@, "-t"@, name, "status"@, "off"@]
            &&& there.subrange(8, 14) == seq![";"@, "set-option"@, "-t"@, name, "mouse"@, "on"@]
            &&& there.len() == 18
        }),
{
}

/// Nothing is done for a session that is there; one that is not is started and then configured.
pub proof fn missing_session_is_started(
    name: Seq<char>,
    dir: Option<Seq<char>>,
    command: Seq<char>,
)
    ensures
        assured(name, true, dir, command).len() == 0,
        ({
            let runs = assured(name, false, dir, command);
            &&& runs.len() == 2
            &&& runs[0].0 == new_session(name, dir, command) && runs[0].1 == "new-session"@
            &&& runs[1].0.take(5) == seq!["set-option"@, "-t"@, name, "status"@, "off"@]
            &&& runs[1].0.skip(5) == seq![";"@, "set-option"@, "-t"@, name, "mouse"@, "on"@]
            &&& runs[1].1 == "set-option"@
        }),
        renaming(name, command).0 == seq!["rename-session"@, "-t"@, name, command],
{
}

/// A title that tmux gave holds for a quarter of a second.
pub proof fn title_holds_for_a_moment(title: CachedTmuxTitle<Seq<char>>, then: u128, now: u128)
    requires
        title.last_checked == Some(then),
    ensures
        title.is_fresh(now) <==> now - then < 250,
        !(CachedTmuxTitle::<Seq<char>> { last_checked: None, ..title }).is_fresh(now),
{
}

/// With the control key a letter, in small or capital, stands for its place in the alphabet, and the
/// five signs from the bracket on for the places behind those. No other character stands for one.
pub proof fn control_key_gives_a_place(c: char)
    ensures
        'a' <= c <= 'z' ==> control_byte(c) is Some && control_byte(c)->0 == (c as int) - 0x60,
        'A' <= c <= '_' ==> control_byte(c) is Some && control_byte(c)->0 == (c as int) - 0x40,
        !('a' <= c <= 'z') && !('A' <= c <= '_') ==> control_byte(c) is None,
{
}

/// The control key changes what a character sends only where it gives a place, and no other key.
pub proof fn control_key_is_for_characters(key: Key, c: char)
    ensures
        key_bytes(key, false) == plain_bytes(key),
        !(key is Char) ==> key_bytes(key, true) == plain_bytes(key),
        control_byte(c) is Some ==> key_bytes(Key::Char(c), true) == seq![control_byte(c)->0],
        control_byte(c) is None ==> key_bytes(Key::Char(c), true) == encode_utf8(seq![c]),
        key_bytes(Key::Char(c), false) == encode_utf8(seq![c]),
{
}

/// The keys that move the cursor, with the letters that end their sequences.
pub open spec fn cursor_keys() -> Seq<(Key, char)> {
    seq![
        (Key::Up, 'A'),
        (Key::Down, 'B'),
        (Key::Right, 'C'),
        (Key::Left, 'D'),
        (Key::End, 'F'),
        (Key::Home, 'H'),
        (Key::BackTab, 'Z'),
    ]
}

/// The keys for editing, with the digits in their sequences.
pub open spec fn editing_keys() -> Seq<(Key, char)> {
    seq![(Key::Insert, '2'), (Key::Delete, '3'), (Key::PageUp, '5'), (Key::PageDown, '6')]
}

/// A key that moves the cursor sends the escape character, a bracket and its letter; one for
/// editing has a digit and a tilde instead.
pub proof fn keys_send_their_sequences(k: int)
    ensures
        0 <= k < cursor_keys().len() ==> plain_bytes(cursor_keys()[k].0) == encode_utf8(
            seq!['\x1b', '[', cursor_keys()[k].1],
        ),
        0 <= k < editing_keys().len() ==> plain_bytes(editing_keys()[k].0) == encode_utf8(
            seq!['\x1b', '[', editing_keys()[k].1, '~'],
        ),
        plain_bytes(Key::Enter) == seq!['\r' as u8],
        plain_bytes(Key::Tab) == seq!['\t' as u8],
        plain_bytes(Key::Esc) == seq!['\x1b' as u8],
        plain_bytes(Key::Backspace) == seq!['\x7f' as u8],
        plain_bytes(Key::Other).len() == 0,
{
    reveal_strlit("\x1b[A");
    reveal_strlit("\x1b[B");
    reveal_strlit("\x1b[C");
    reveal_strlit("\x1b[D");
    reveal_strlit("\x1b[F");
    reveal_strlit("\x1b[H");
    reveal_strlit("\x1b[Z");
    reveal_strlit("\x1b[2~");
    reveal_strlit("\x1b[3~");
    reveal_strlit("\x1b[5~");
    reveal_strlit("\x1b[6~");
    assert("\x1b[A"@ == seq!['\x1b', '[', 'A']);
    assert("\x1b[B"@ == seq!['\x1b', '[', 'B']);
    assert("\x1b[C"@ == seq!['\x1b', '[', 'C']);
    assert("\x1b[D"@ == seq!['\x1b', '[', 'D']);
    assert("\x1b[F"@ == seq!['\x1b', '[', 'F']);
    assert("\x1b[H"@ == seq!['\x1b', '[', 'H']);
    assert("\x1b[Z"@ == seq!['\x1b', '[', 'Z']);
    assert("\x1b[2~"@ == seq!['\x1b', '[', '2', '~']);
    assert("\x1b[3~"@ == seq!['\x1b', '[', '3', '~']);
    assert("\x1b[5~"@ == seq!['\x1b', '[', '5', '~']);
    assert("\x1b[6~"@ == seq!['\x1b', '[', '6', '~']);
}

/// The first four function keys send a letter from P on. The others send a number, which leaves out
/// 16 and 22. There are twelve of them.
pub proof fn function_keys_are_numbered(n: u8)
    ensures
        1 <= n <= 4 ==> plain_bytes(Key::F(n)) == encode_utf8(
            seq!['\x1b', 'O', ((0x4f + n) as u32) as char],
        ),
        5 <= n <= 12 ==> plain_bytes(Key::F(n)) == encode_utf8(
            seq!['\x1b', '['] + decimal(
                if n == 5 {
                    15
                } else if n <= 10 {
                    (n + 11) as nat
                } else {
                    (n + 12) as nat
                },
            ) + seq!['~'],
        ),
        n == 0 || n > 12 ==> plain_bytes(Key::F(n)).len() == 0,
{
    reveal_strlit("\x1bOP");
    reveal_strlit("\x1bOQ");
    reveal_strlit("\x1bOR");
    reveal_strlit("\x1bOS");
    reveal_strlit("\x1b[15~");
    reveal_strlit("\x1b[17~");
    reveal_strlit("\x1b[18~");
    reveal_strlit("\x1b[19~");
    reveal_strlit("\x1b[20~");
    reveal_strlit("\x1b[21~");
    reveal_strlit("\x1b[23~");
    reveal_strlit("\x1b[24~");
    reveal_with_fuel(decimal, 3);
    let start = seq!['\x1b', '['];
    if n == 1 {
        assert("\x1bOP"@ == seq!['\x1b', 'O', ((0x4f + n) as u32) as char]);
    } else if n == 2 {
        assert("\x1bOQ"@ == seq!['\x1b', 'O', ((0x4f + n) as u32) as char]);
    } else if n == 3 {
        assert("\x1bOR"@ == seq!['\x1b', 'O', ((0x4f + n) as u32) as char]);
    } else if n == 4 {
        assert("\x1bOS"@ == seq!['\x1b', 'O', ((0x4f + n) as u32) as char]);
    } else if n == 5 {
        assert("\x1b[15~"@ == start + decimal(15) + seq!['~']);
    } else if n == 6 {
        assert("\x1b[17~"@ == start + decimal(17) + seq!['~']);
    } else if n == 7 {
        assert("\x1b[18~"@ == start + decimal(18) + seq!['~']);
    } else if n == 8 {
        assert("\x1b[19~"@ == start + decimal(19) + seq!['~']);
    } else if n == 9 {
        assert("\x1b[20~"@ == start + decimal(20) + seq!['~']);
    } else if n == 10 {
        assert("\x1b[21~"@ == start + decimal(21) + seq!['~']);
    } else if n == 11 {
        assert("\x1b[23~"@ == start + decimal(23) + seq!['~']);
    } else if n == 12 {
        assert("\x1b[24~"@ == start + decimal(24) + seq!['~']);
    }
}

/// A turn of the wheel sends its button, 64 up and 65 down, and its place counted from one, the
/// column first. The mouse sends nothing else.
pub proof fn wheel_sends_its_place(column: u16, row: u16)
    requires
        column < 65535,
        row < 65535,
    ensures
        ({
            let place = seq![';'] + decimal((column + 1) as nat) + seq![';'] + decimal(
                (row + 1) as nat,
            ) + seq!['M'];
            &&& mouse_bytes(Wheel::Up, column, row) == encode_utf8(
                seq!['\x1b', '[', '<', '6', '4'] + place,
            )
            &&& mouse_bytes(Wheel::Down, column, row) == encode_utf8(
                seq!['\x1b', '[', '<', '6', '5'] + place,
            )
            &&& mouse_bytes(Wheel::Other, column, row).len() == 0
        }),
        one_more(65535) == 65535,
{
    reveal_strlit("\x1b[<");
    reveal_strlit(";");
    reveal_strlit("M");
    reveal_with_fuel(decimal, 2);
    let place = seq![';'] + decimal((column + 1) as nat) + seq![';'] + decimal((row + 1) as nat)
        + seq!['M'];
    assert(decimal(64) == seq!['6', '4']);
    assert(decimal(65) == seq!['6', '5']);
    assert(wheel_text(64, column, row) == seq!['\x1b', '[', '<', '6', '4'] + place);
    assert(wheel_text(65, column, row) == seq!['\x1b', '[', '<', '6', '5'] + place);
}

/// A title counts where something is left of it without the white space at its ends.
pub proof fn blank_titles_do_not_count(text: Seq<char>)
    ensures
        match title_in(text) {
            Some(title) => title.len() > 0 && title == trim(text),
            None => trim(text).len() == 0,
        },
{
}

} // verus!
