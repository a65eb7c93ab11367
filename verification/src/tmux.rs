//! Sessions kept in tmux: their names, the commands that start and list them, what tmux says of
//! them.
use crate::chars::{
    alnum, control, is_alnum, is_control, is_digit, is_space, lower, to_lower,
};
use crate::foreign::{decode_lossy, lossy_text};
use crate::numbers::{
    decimal, decimal_has_value, decimal_of, parse_of_decimal, parse_u64, parsed_u64,
};
use crate::order::{
    is_less, rank_sorts_views, sort, sorted_by, text_less, text_less_is_asymmetric,
    text_not_less_chains, Ranked,
};
use crate::paths::{file_name, file_name_of};
use crate::status::{
    content_hash, detect_status, is_strippable, shown_status, status_rank, stripped, text_hash,
    SessionStatus,
};
use crate::tables::TextMap;
use crate::text::{
    char_trimmed_end, char_trimmed_start, chars_of, concat, contains, ends_lose_a_character, fields,
    fields_of, find, find_chars, find_from_is_first, first_chars, first_chars_of, is_solid, join,
    joined, lines, lines_of, mentions, occurs, opt_view, part, position, position_is_first,
    position_of, same_chars, same_text, starts, starts_with, string_of, strip_prefix, swapped,
    swapped_of, texts_of, trim, trim_char_end, trim_char_start, trim_end, trimmed, trimmed_end,
    views, words, words_are_solid, words_grow, words_of, words_of_joined,
};
use vstd::prelude::*;

verus! {

/// How the name of every managed tmux session starts.
pub const SESSION_PREFIX: &'static str = "gh-pilot__";

/// The session option that holds a session's directory.
pub const PROJECT_OPTION: &'static str = "@gh-pilot-project";

/// The session option that holds when a session was created.
pub const CREATED_OPTION: &'static str = "@gh-pilot-created";

/// The session option that holds the command of a session.
pub const COMMAND_OPTION: &'static str = "@gh-pilot-command";

/// The session option that holds when a session was last looked at.
pub const LAST_SEEN_OPTION: &'static str = "@gh-pilot-last-seen";

/// A Copilot session that runs in tmux. Times are in nanoseconds since the epoch.
#[derive(Debug, PartialEq, Eq)]
pub struct ManagedSession<T = String> {
    pub name: T,
    pub display_name: T,
    pub project_dir: T,
    pub is_current_project: bool,
    pub is_remote: bool,
    pub status: SessionStatus,
    pub last_activity: Option<u128>,
    pub has_bell: bool,
    pub pane_dead: bool,
}

impl View for ManagedSession<String> {
    type V = ManagedSession<Seq<char>>;

    open spec fn view(&self) -> ManagedSession<Seq<char>> {
        ManagedSession {
            name: self.name@,
            display_name: self.display_name@,
            project_dir: self.project_dir@,
            is_current_project: self.is_current_project,
            is_remote: self.is_remote,
            status: self.status,
            last_activity: self.last_activity,
            has_bell: self.has_bell,
            pane_dead: self.pane_dead,
        }
    }
}

impl Clone for ManagedSession<String> {
    fn clone(&self) -> (out: Self)
        ensures
            out == *self,
    {
        ManagedSession {
            name: self.name.clone(),
            display_name: self.display_name.clone(),
            project_dir: self.project_dir.clone(),
            is_current_project: self.is_current_project,
            is_remote: self.is_remote,
            status: self.status,
            last_activity: self.last_activity,
            has_bell: self.has_bell,
            pane_dead: self.pane_dead,
        }
    }
}


/// What the terminals of the sessions last showed, by the names of the sessions.
pub struct StatusCache {
    content_hashes: TextMap<u64>,
}

impl View for StatusCache {
    type V = Map<Seq<char>, u64>;

    closed spec fn view(&self) -> Map<Seq<char>, u64> {
        self.content_hashes@
    }
}

impl Default for StatusCache {
    fn default() -> (out: Self)
        ensures
            out@ == Map::<Seq<char>, u64>::empty(),
    {
        StatusCache { content_hashes: TextMap::new() }
    }
}

impl StatusCache {
    /// Forgets what a session showed.
    pub fn remove(&mut self, name: &str)
        ensures
            final(self)@ == old(self)@.remove(name@),
    {
        self.content_hashes.remove(name);
    }

    /// Forgets what all sessions showed.
    pub fn clear(&mut self)
        ensures
            final(self)@ == Map::<Seq<char>, u64>::empty(),
    {
        self.content_hashes.clear();
    }

    /// Keeps the number of what a session shows; gives back that of what it showed before.
    pub fn update(&mut self, name: &str, hash: u64) -> (previous: Option<u64>)
        ensures
            final(self)@ == old(self)@.insert(name@, hash),
            match previous {
                Some(value) => old(self)@.contains_key(name@) && value == old(self)@[name@],
                None => !old(self)@.contains_key(name@),
            },
    {
        self.content_hashes.insert(name, hash)
    }
}

// ---------------------------------------------------------------------------
// Starting a session
// ---------------------------------------------------------------------------
/// What a new session runs.
#[derive(Debug, PartialEq, Eq)]
pub enum LaunchKind<T = String> {
    Local { remote_enabled: bool },
    Connect { id: T, remote_enabled: bool },
}

impl View for LaunchKind<String> {
    type V = LaunchKind<Seq<char>>;

    open spec fn view(&self) -> LaunchKind<Seq<char>> {
        match self {
            LaunchKind::Local { remote_enabled } => LaunchKind::Local {
                remote_enabled: *remote_enabled,
            },
            LaunchKind::Connect { id, remote_enabled } => LaunchKind::Connect {
                id: id@,
                remote_enabled: *remote_enabled,
            },
        }
    }
}

/// Why a remote session cannot be joined.
#[derive(Debug, Clone, Copy, PartialEq, Eq, Structural)]
pub enum LaunchError {
    /// Its id is empty.
    EmptyId,
    /// Its id holds characters that no id has.
    UnsupportedId,
}

impl LaunchError {
    /// What the error is called.
    pub open spec fn text(self) -> Seq<char> {
        match self {
            LaunchError::EmptyId => "remote session id cannot be empty"@,
            LaunchError::UnsupportedId => "remote session id contains unsupported characters"@,
        }
    }

    /// What the error is called.
    pub fn message(self) -> (out: String)
        ensures
            out@ == self.text(),
    {
        match self {
            LaunchError::EmptyId => "remote session id cannot be empty".to_owned(),
            LaunchError::UnsupportedId => "remote session id contains unsupported characters".to_owned(),
        }
    }
}

/// `c` can stand in the id of a remote session.
pub open spec fn is_id_char(c: char) -> bool {
    is_alnum(c) || c == '-' || c == '_' || c == '.' || c == ':'
}

/// Whether a text is the id of a remote session, and what is wrong with it where it is not.
pub open spec fn id_check(id: Seq<char>) -> Result<(), LaunchError> {
    if id.len() == 0 {
        Err(LaunchError::EmptyId)
    } else if forall|i: int| 0 <= i < id.len() ==> is_id_char(#[trigger] id[i]) {
        Ok(())
    } else {
        Err(LaunchError::UnsupportedId)
    }
}

/// The shell command of a new session.
pub open spec fn launch_command(launch: LaunchKind<Seq<char>>) -> Result<Seq<char>, LaunchError> {
    match launch {
        LaunchKind::Local { remote_enabled } => Ok(
            if remote_enabled {
                "exec copilot --remote"@
            } else {
                "exec copilot"@
            },
        ),
        LaunchKind::Connect { id, remote_enabled } => match id_check(id) {
            Ok(_) => Ok(
                if remote_enabled {
                    "exec copilot --remote --resume="@ + id
                } else {
                    "exec copilot --resume="@ + id
                },
            ),
            Err(error) => Err(error),
        },
    }
}

/// Tests the id of a remote session.
pub fn validate_session_id(id: &str) -> (out: Result<(), LaunchError>)
    ensures
        out == id_check(id@),
{
    let s = chars_of(id);
    if s.len() == 0 {
        return Err(LaunchError::EmptyId);
    }
    let mut i: usize = 0;
    while i < s.len()
        invariant
            i <= s.len(),
            s@ == id@,
            forall|j: int| 0 <= j < i ==> is_id_char(#[trigger] s@[j]),
        decreases s.len() - i,
    {
        let c = s[i];
        if !(alnum(c) || c == '-' || c == '_' || c == '.' || c == ':') {
            assert(!is_id_char(id@[i as int]));
            return Err(LaunchError::UnsupportedId);
        }
        i += 1;
    }
    Ok(())
}

impl LaunchKind<String> {
    /// The shell command of a new session.
    pub fn command(&self) -> (out: Result<String, LaunchError>)
        ensures
            match out {
                Ok(command) => launch_command(self@) == Ok::<Seq<char>, LaunchError>(command@),
                Err(error) => launch_command(self@) == Err::<Seq<char>, LaunchError>(error),
            },
    {
        match self {
            LaunchKind::Local { remote_enabled } => {
                if *remote_enabled {
                    Ok("exec copilot --remote".to_owned())
                } else {
                    Ok("exec copilot".to_owned())
                }
            },
            LaunchKind::Connect { id, remote_enabled } => {
                match validate_session_id(id) {
                    Ok(_) => {},
                    Err(error) => {
                        return Err(error);
                    },
                }
                if *remote_enabled {
                    Ok(concat("exec copilot --remote --resume=", id))
                } else {
                    Ok(concat("exec copilot --resume=", id))
                }
            },
        }
    }
}

/// `c` means nothing to a shell but itself, or separates words, or assigns.
pub open spec fn is_plain_char(c: char) -> bool {
    is_id_char(c) || c == ' ' || c == '='
}

/// The command of a session holds no character that a shell would act on: it is one command, with
/// the id as part of its last word.
pub proof fn launch_command_is_plain(launch: LaunchKind<Seq<char>>)
    ensures
        match launch_command(launch) {
            Ok(command) => forall|i: int|
                0 <= i < command.len() ==> is_plain_char(#[trigger] command[i]),
            Err(_) => true,
        },
{
    reveal_strlit("exec copilot");
    reveal_strlit("exec copilot --remote");
    reveal_strlit("exec copilot --resume=");
    reveal_strlit("exec copilot --remote --resume=");
}

/// A session that joins a remote one starts if and only if the id is one.
pub proof fn launch_fails_on_bad_ids_only(launch: LaunchKind<Seq<char>>)
    ensures
        launch_command(launch) is Err <==> (launch is Connect && id_check(launch->id) is Err),
{
}

/// A text with each ASCII letter made small and every other character but digits turned into a
/// dash.
pub open spec fn dashed(s: Seq<char>) -> Seq<char> {
    s.map_values(
        |c: char|
            if is_alnum(c) {
                lower(c)
            } else {
                '-'
            },
    )
}

/// A text with each run of dashes made one dash.
pub open spec fn squeezed(s: Seq<char>) -> Seq<char>
    decreases s.len(),
{
    if s.len() == 0 {
        seq![]
    } else if s.len() > 1 && s.last() == '-' && s[s.len() - 2] == '-' {
        squeezed(s.drop_last())
    } else {
        squeezed(s.drop_last()).push(s.last())
    }
}

/// A name made fit to be part of the name of a tmux session.
pub open spec fn slug(input: Seq<char>) -> Seq<char> {
    first_chars(trim_char_end(trim_char_start(squeezed(dashed(input)), '-'), '-'), 32)
}

/// A name made fit to be part of the name of a tmux session.
pub fn slugify(input: &str) -> (out: String)
    ensures
        out@ == slug(input@),
{
    let s = chars_of(input);
    let ghost full = dashed(input@);
    let mut out: Vec<char> = Vec::new();
    let mut i: usize = 0;
    let mut after_dash = false;
    assert(squeezed(full.take(0)) == Seq::<char>::empty());
    while i < s.len()
        invariant
            i <= s.len(),
            s@ == input@,
            full == dashed(input@),
            out@ == squeezed(full.take(i as int)),
            after_dash == (i > 0 && full[i - 1] == '-'),
        decreases s.len() - i,
    {
        let c = if alnum(s[i]) { to_lower(s[i]) } else { '-' };
        assert(c == full[i as int]);
        assert(full.take(i + 1).drop_last() == full.take(i as int));
        assert(full.take(i + 1).last() == c);
        assert(i > 0 ==> full.take(i + 1)[i - 1] == full[i - 1]);
        if !(c == '-' && after_dash) {
            out.push(c);
        }
        after_dash = c == '-';
        i += 1;
    }
    assert(full.take(s@.len() as int) == full);
    string_of(first_chars_of(char_trimmed_end(char_trimmed_start(&out, '-'), '-'), 32))
}

proof fn squeezed_has_single_dashes(s: Seq<char>)
    ensures
        squeezed(s).len() > 0 <==> s.len() > 0,
        s.len() > 0 ==> squeezed(s).last() == s.last(),
        forall|i: int|
            0 < i < squeezed(s).len() ==> #[trigger] squeezed(s)[i] != '-' || squeezed(s)[i - 1]
                != '-',
        forall|i: int| 0 <= i < squeezed(s).len() ==> s.contains(#[trigger] squeezed(s)[i]),
    decreases s.len(),
{
    if s.len() > 0 {
        let rest = s.drop_last();
        squeezed_has_single_dashes(rest);
        assert forall|i: int| 0 <= i < squeezed(s).len() implies s.contains(
            #[trigger] squeezed(s)[i],
        ) by {
            if i < squeezed(rest).len() {
                assert(rest.contains(squeezed(rest)[i]));
                let k = choose|k: int| 0 <= k < rest.len() && rest[k] == squeezed(rest)[i];
                assert(s[k] == rest[k]);
            } else {
                assert(s.contains(s.last()));
            }
        }
    }
}

proof fn trimmed_is_within(s: Seq<char>, c: char)
    ensures
        ({
            let t = trim_char_start(s, c);
            &&& t.len() <= s.len()
            &&& t == s.skip(s.len() - t.len())
            &&& t.len() > 0 ==> t[0] != c
        }),
    decreases s.len(),
{
    if s.len() > 0 && s[0] == c {
        trimmed_is_within(s.skip(1), c);
        let t = trim_char_start(s, c);
        assert(s.skip(1).skip(s.len() - 1 - t.len()) == s.skip(s.len() - t.len()));
    } else {
        assert(s.skip(0) == s);
    }
}

proof fn end_trimmed_is_within(s: Seq<char>, c: char)
    ensures
        ({
            let t = trim_char_end(s, c);
            &&& t.len() <= s.len()
            &&& t == s.take(t.len() as int)
        }),
    decreases s.len(),
{
    if s.len() > 0 && s.last() == c {
        end_trimmed_is_within(s.drop_last(), c);
        let t = trim_char_end(s, c);
        assert(s.drop_last().take(t.len() as int) == s.take(t.len() as int));
    } else {
        assert(s.take(s.len() as int) == s);
    }
}

/// A slug has at most 32 characters. They are small ASCII letters, digits and dashes; it does not
/// start with a dash, and no two dashes stand side by side.
pub proof fn slug_is_tame(input: Seq<char>)
    ensures
        slug(input).len() <= 32,
        slug(input).len() > 0 ==> slug(input)[0] != '-',
        forall|i: int|
            0 <= i < slug(input).len() ==> ({
                let c = #[trigger] slug(input)[i];
                c == '-' || (is_alnum(c) && lower(c) == c)
            }),
        forall|i: int|
            0 < i < slug(input).len() ==> #[trigger] slug(input)[i] != '-' || slug(input)[i - 1]
                != '-',
{
    let d = dashed(input);
    let q = squeezed(d);
    squeezed_has_single_dashes(d);
    let a = trim_char_start(q, '-');
    trimmed_is_within(q, '-');
    let b = trim_char_end(a, '-');
    end_trimmed_is_within(a, '-');
    let off = q.len() - a.len();
    assert forall|i: int| 0 <= i < slug(input).len() implies slug(input)[i] == q[i + off] by {
        assert(a[i] == q[i + off]);
        assert(b[i] == a[i]);
    }
    assert forall|i: int| 0 <= i < slug(input).len() implies ({
        let c = #[trigger] slug(input)[i];
        c == '-' || (is_alnum(c) && lower(c) == c)
    }) by {
        assert(d.contains(q[i + off]));
        let k = choose|k: int| 0 <= k < d.len() && d[k] == q[i + off];
        assert(d[k] == '-' || d[k] == lower(input[k]));
    }
    assert forall|i: int| 0 < i < slug(input).len() implies #[trigger] slug(input)[i] != '-'
        || slug(input)[i - 1] != '-' by {
        assert(q[i + off] != '-' || q[i + off - 1] != '-');
    }
    if slug(input).len() > 0 {
        assert(b[0] == a[0]);
    }
}

/// What a session of the project is called in tmux: the slug of its directory, or a word for it.
pub open spec fn project_slug(project_dir: Seq<char>) -> Seq<char> {
    match file_name(project_dir) {
        Some(name) => if slug(name).len() > 0 {
            slug(name)
        } else {
            "project"@
        },
        None => "project"@,
    }
}

/// A name for a new session of a project, from the time in seconds and a number.
pub open spec fn session_name(project_dir: Seq<char>, seconds: nat, number: nat) -> Seq<char> {
    SESSION_PREFIX@ + project_slug(project_dir) + "__"@ + decimal(seconds) + "__"@ + decimal(number)
}

/// The name to try for a new session of a project at the given attempt.
pub fn candidate_name(project_dir: &str, seconds: u64, process: u32, attempt: u32) -> (out: String)
    requires
        process + attempt <= u32::MAX,
    ensures
        out@ == session_name(project_dir@, seconds as nat, (process + attempt) as nat),
{
    let slug = match file_name_of(project_dir) {
        Some(name) => {
            let slug = slugify(&name);
            if chars_of(&slug).len() > 0 {
                slug
            } else {
                "project".to_owned()
            }
        },
        None => "project".to_owned(),
    };
    let start = concat(SESSION_PREFIX, &slug);
    let time = decimal_of(seconds as u128);
    let number = decimal_of((process + attempt) as u128);
    concat(&concat(&concat(&concat(&start, "__"), &time), "__"), &number)
}

/// How many names are tried for a new session.
pub const NAME_ATTEMPTS: u32 = 100;

/// What becomes of a name that was tried for a new session.
#[derive(Debug, Clone, Copy, PartialEq, Eq, Structural)]
pub enum NameStep {
    /// It is free and is taken.
    Take,
    /// Another one is tried.
    Try(u32),
    /// No other one is tried.
    GiveUp,
}

/// What becomes of the name of an attempt, once it is known whether a session has it.
pub fn after_attempt(attempt: u32, taken: bool) -> (out: NameStep)
    ensures
        out == if !taken {
            NameStep::Take
        } else if attempt + 1 < NAME_ATTEMPTS {
            NameStep::Try((attempt + 1) as u32)
        } else {
            NameStep::GiveUp
        },
        out is Take <==> !taken,
        match out {
            NameStep::Try(next) => attempt < next < NAME_ATTEMPTS && next - attempt == 1,
            NameStep::GiveUp => attempt + 1 >= NAME_ATTEMPTS,
            NameStep::Take => true,
        },
{
    if !taken {
        NameStep::Take
    } else if attempt < NAME_ATTEMPTS - 1 {
        NameStep::Try(attempt + 1)
    } else {
        NameStep::GiveUp
    }
}

/// What a session is called where its terminal has no title: the part of its name between the
/// prefix and the numbers, with spaces for dashes.
pub open spec fn shown_name(name: Seq<char>) -> Seq<char> {
    let rest = match strip_prefix(name, SESSION_PREFIX@) {
        Some(rest) => rest,
        None => name,
    };
    let head = match find(rest, "__"@) {
        Some(n) => rest.take(n),
        None => rest,
    };
    swapped(head, '-', ' ')
}

/// What a session is called where its terminal has no title.
pub fn display_name(name: &str) -> (out: String)
    ensures
        out@ == shown_name(name@),
{
    let s = chars_of(name);
    let from: usize = if starts_with(&s, SESSION_PREFIX) {
        chars_of(SESSION_PREFIX).len()
    } else {
        0
    };
    assert(s@.subrange(0, s@.len() as int) == s@);
    assert(s@.subrange(from as int, s@.len() as int) == s@.skip(from as int));
    let rest = part(&s, from, s.len());
    let end: usize = match find_chars(rest, &chars_of("__"), 0) {
        Some(n) => n,
        None => rest.len(),
    };
    proof {
        find_from_is_first(rest@, "__"@, 0);
        assert(rest@.subrange(0, end as int) == rest@.take(end as int));
        assert(rest@.take(rest@.len() as int) == rest@);
    }
    string_of(&swapped_of(part(rest, 0, end), '-', ' '))
}

/// The name of a new session shows its project: the slug with spaces for dashes.
pub proof fn new_session_shows_its_project(project_dir: Seq<char>, seconds: nat, number: nat)
    ensures
        shown_name(session_name(project_dir, seconds, number)) == swapped(
            project_slug(project_dir),
            '-',
            ' ',
        ),
{
    let p = project_slug(project_dir);
    assert forall|i: int| 0 <= i < p.len() implies #[trigger] p[i] != '_' by {
        reveal_strlit("project");
        match file_name(project_dir) {
            Some(name) => {
                slug_is_tame(name);
            },
            None => {},
        }
    }
    reveal_strlit("__");
    let name = session_name(project_dir, seconds, number);
    let tail = "__"@ + decimal(seconds) + "__"@ + decimal(number);
    assert(name == SESSION_PREFIX@ + p + tail);
    assert(name.subrange(0, SESSION_PREFIX@.len() as int) == SESSION_PREFIX@);
    let rest = name.skip(SESSION_PREFIX@.len() as int);
    assert(rest == p + tail);
    find_from_is_first(rest, "__"@, 0);
    assert(rest.subrange(p.len() as int, p.len() as int + 2) == "__"@);
    assert(occurs(rest, "__"@, p.len() as int));
    match find(rest, "__"@) {
        Some(n) => {
            if n < p.len() {
                assert(rest.subrange(n, n + 2)[0] == p[n]);
            }
        },
        None => {},
    }
    assert(rest.take(p.len() as int) == p);
}

// ---------------------------------------------------------------------------
// Commands
// ---------------------------------------------------------------------------
/// A run of tmux with its arguments, and the words for where it fails.
#[derive(Debug, PartialEq, Eq)]
pub struct Step<T = String, L = Vec<T>> {
    /// The arguments.
    pub args: L,
    /// What the run is for.
    pub task: T,
    /// What is said where tmux cannot be started.
    pub not_started: T,
}

impl View for Step<String, Vec<String>> {
    type V = Step<Seq<char>, Seq<Seq<char>>>;

    open spec fn view(&self) -> Step<Seq<char>, Seq<Seq<char>>> {
        Step { args: views(self.args@), task: self.task@, not_started: self.not_started@ }
    }
}

/// A run of tmux that says the same wherever it fails.
pub open spec fn plain_step(args: Seq<Seq<char>>, task: Seq<char>) -> Step<
    Seq<char>,
    Seq<Seq<char>>,
> {
    Step { args, task, not_started: task }
}

fn step(words: Vec<&str>, task: &str) -> (out: Step)
    ensures
        out@ == plain_step(views(words@), task@),
{
    Step { args: texts_of(&words), task: task.to_owned(), not_started: task.to_owned() }
}

/// The runs of tmux that start a session and mark it as managed.
pub open spec fn creation_steps(
    name: Seq<char>,
    project_dir: Seq<char>,
    command: Seq<char>,
    created: nat,
    seen: nat,
) -> Seq<Step<Seq<char>, Seq<Seq<char>>>> {
    seq![
        Step {
            args: seq!["new-session"@, "-d"@, "-s"@, name, "-c"@, project_dir, command],
            task: "tmux new-session"@,
            not_started: "failed to start tmux session "@ + name,
        },
        plain_step(
            seq!["set-option"@, "-q"@, "-t"@, name, PROJECT_OPTION@, project_dir],
            "tmux set project metadata"@,
        ),
        plain_step(
            seq!["set-option"@, "-q"@, "-t"@, name, CREATED_OPTION@, decimal(created)],
            "tmux set created metadata"@,
        ),
        plain_step(
            seq!["set-option"@, "-q"@, "-t"@, name, COMMAND_OPTION@, command],
            "tmux set command metadata"@,
        ),
        plain_step(
            seq!["set-option"@, "-q"@, "-t"@, name, LAST_SEEN_OPTION@, decimal(seen)],
            "tmux set last-seen metadata"@,
        ),
        plain_step(
            seq!["set-window-option"@, "-q"@, "-t"@, name + ":0"@, "remain-on-exit"@, "on"@],
            "tmux enable remain-on-exit"@,
        ),
        plain_step(
            seq!["set-window-option"@, "-q"@, "-t"@, name + ":0"@, "monitor-bell"@, "on"@],
            "tmux enable bell monitoring"@,
        ),
        plain_step(
            seq!["set-option"@, "-q"@, "-t"@, name, "bell-action"@, "any"@],
            "tmux set bell action"@,
        ),
        plain_step(
            seq!["set-option"@, "-q"@, "-t"@, name, "status-left"@, ""@],
            "tmux hide generated session name"@,
        ),
        plain_step(
            seq!["set-option"@, "-q"@, "-t"@, name, "status-left-length"@, "0"@],
            "tmux hide generated session name length"@,
        ),
    ]
}

/// A session as it is right after its start.
pub open spec fn fresh_session(name: Seq<char>, project_dir: Seq<char>, now: u128) -> ManagedSession<
    Seq<char>,
> {
    ManagedSession {
        name,
        display_name: shown_name(name),
        project_dir,
        is_current_project: true,
        is_remote: false,
        status: SessionStatus::Busy,
        last_activity: Some(now),
        has_bell: false,
        pane_dead: false,
    }
}

/// How a session is started, and what it is then.
#[derive(Debug, PartialEq, Eq)]
pub struct SessionPlan {
    pub steps: Vec<Step>,
    pub session: ManagedSession,
}

/// The runs of tmux that start a session under the given name, to be made as `after_run` says, and
/// the session that is there once all are made. `created` and `seen` are in seconds, `now` in
/// nanoseconds since the epoch.
pub fn create_session(
    name: &str,
    project_dir: &str,
    launch: &LaunchKind,
    created: u64,
    seen: u64,
    now: u128,
) -> (out: Result<SessionPlan, LaunchError>)
    ensures
        match out {
            Ok(plan) => launch_command(launch@) is Ok && views(plan.steps@) == creation_steps(
                name@,
                project_dir@,
                launch_command(launch@)->Ok_0,
                created as nat,
                seen as nat,
            ) && plan.session@ == fresh_session(name@, project_dir@, now),
            Err(error) => launch_command(launch@) == Err::<Seq<char>, LaunchError>(error),
        },
{
    let command = match launch.command() {
        Ok(command) => command,
        Err(error) => {
            return Err(error);
        },
    };
    let window = concat(name, ":0");
    let mut steps: Vec<Step> = Vec::new();
    let words: Vec<&str> = vec!["new-session", "-d", "-s", name, "-c", project_dir, &command];
    assert(views(words@) == seq![
        "new-session"@,
        "-d"@,
        "-s"@,
        name@,
        "-c"@,
        project_dir@,
        command@,
    ]);
    steps.push(
        Step {
            args: texts_of(&words),
            task: "tmux new-session".to_owned(),
            not_started: concat("failed to start tmux session ", name),
        },
    );
    steps.push(option_step("set-option", name, PROJECT_OPTION, project_dir, "tmux set project metadata"));
    let created_text = decimal_of(created as u128);
    steps.push(option_step("set-option", name, CREATED_OPTION, &created_text, "tmux set created metadata"));
    steps.push(option_step("set-option", name, COMMAND_OPTION, &command, "tmux set command metadata"));
    let seen_text = decimal_of(seen as u128);
    steps.push(option_step("set-option", name, LAST_SEEN_OPTION, &seen_text, "tmux set last-seen metadata"));
    steps.push(
        option_step("set-window-option", &window, "remain-on-exit", "on", "tmux enable remain-on-exit"),
    );
    steps.push(
        option_step("set-window-option", &window, "monitor-bell", "on", "tmux enable bell monitoring"),
    );
    steps.push(option_step("set-option", name, "bell-action", "any", "tmux set bell action"));
    steps.push(option_step("set-option", name, "status-left", "", "tmux hide generated session name"));
    steps.push(
        option_step(
            "set-option",
            name,
            "status-left-length",
            "0",
            "tmux hide generated session name length",
        ),
    );
    assert(views(steps@) == creation_steps(
        name@,
        project_dir@,
        command@,
        created as nat,
        seen as nat,
    ));
    let session = ManagedSession {
        name: name.to_owned(),
        display_name: display_name(name),
        project_dir: project_dir.to_owned(),
        is_current_project: true,
        is_remote: false,
        status: SessionStatus::Busy,
        last_activity: Some(now),
        has_bell: false,
        pane_dead: false,
    };
    Ok(SessionPlan { steps, session })
}

fn option_step(verb: &str, target: &str, option: &str, value: &str, task: &str) -> (out: Step)
    ensures
        out@ == plain_step(seq![verb@, "-q"@, "-t"@, target@, option@, value@], task@),
{
    let words: Vec<&str> = vec![verb, "-q", "-t", target, option, value];
    assert(views(words@) == seq![verb@, "-q"@, "-t"@, target@, option@, value@]);
    step(words, task)
}

/// The arguments of tmux that show a session on the terminal.
pub fn attach_session(name: &str) -> (out: Vec<String>)
    ensures
        views(out@) == seq!["attach-session"@, "-t"@, name@],
{
    let words: Vec<&str> = vec!["attach-session", "-t", name];
    assert(views(words@) == seq!["attach-session"@, "-t"@, name@]);
    texts_of(&words)
}

/// The second in which a session counts as looked at: that of its last activity, or now where that
/// is not known.
pub open spec fn seen_second(last_activity: Option<u128>, now: u128) -> nat {
    match last_activity {
        Some(time) => time as nat / 1_000_000_000,
        None => now as nat / 1_000_000_000,
    }
}

/// The run of tmux that marks a session as looked at: at the time of its last activity, or now
/// where that is not known. Times are in nanoseconds since the epoch.
pub fn mark_seen(name: &str, last_activity: Option<u128>, now: u128) -> (out: Step)
    ensures
        out@ == plain_step(
            seq![
                "set-option"@,
                "-q"@,
                "-t"@,
                name@,
                LAST_SEEN_OPTION@,
                decimal(seen_second(last_activity, now)),
            ],
            "tmux mark session seen"@,
        ),
{
    let time: u128 = match last_activity {
        Some(time) => time,
        None => now,
    };
    let seconds = decimal_of(time / 1_000_000_000);
    option_step("set-option", name, LAST_SEEN_OPTION, &seconds, "tmux mark session seen")
}

/// The run of tmux that ends a session.
pub open spec fn kill_step(name: Seq<char>) -> Step<Seq<char>, Seq<Seq<char>>> {
    plain_step(seq!["kill-session"@, "-t"@, name], "tmux kill-session"@)
}

/// The run of tmux that ends a session.
pub fn kill_session(name: &str) -> (out: Step)
    ensures
        out@ == kill_step(name@),
{
    let words: Vec<&str> = vec!["kill-session", "-t", name];
    assert(views(words@) == seq!["kill-session"@, "-t"@, name@]);
    step(words, "tmux kill-session")
}

/// The runs of tmux that end the sessions, in order.
pub open spec fn kill_steps(names: Seq<Seq<char>>) -> Seq<Step<Seq<char>, Seq<Seq<char>>>> {
    names.map_values(|name: Seq<char>| kill_step(name))
}

/// The runs of tmux that end the sessions, in order, to be made as `after_run` says.
pub fn kill_sessions(names: &Vec<String>) -> (out: Vec<Step>)
    ensures
        views(out@) == kill_steps(views(names@)),
{
    let mut out: Vec<Step> = Vec::new();
    let ghost wanted = kill_steps(views(names@));
    let mut i: usize = 0;
    while i < names.len()
        invariant
            i <= names.len(),
            wanted == kill_steps(views(names@)),
            views(out@) == wanted.take(i as int),
        decreases names.len() - i,
    {
        let ghost before = out@;
        out.push(kill_session(&names[i]));
        assert(views(out@) == views(before).push(kill_step(names@[i as int]@)));
        i += 1;
    }
    assert(wanted.take(names@.len() as int) == wanted);
    out
}

/// What follows in a row of runs.
#[derive(Debug, PartialEq, Eq)]
pub enum NextRun<E> {
    /// The run at the place is made.
    Make(usize),
    /// The row ends with the error of its last run.
    Failed(E),
    /// All runs were made.
    Done,
}

/// What follows in a row of `count` runs once `made` of them were made, by how the last one went:
/// the error of a run that failed ends the row.
pub open spec fn run_after<E>(made: usize, count: usize, last: Result<(), E>) -> NextRun<E> {
    match last {
        Err(error) => NextRun::Failed(error),
        Ok(_) => if made < count {
            NextRun::Make(made)
        } else {
            NextRun::Done
        },
    }
}

/// What follows in a row of `count` runs once `made` of them were made, by how the last one went.
/// Before the first run it is as if one had gone well.
pub fn after_run<E>(made: usize, count: usize, last: Result<(), E>) -> (out: NextRun<E>)
    ensures
        out == run_after(made, count, last),
{
    match last {
        Err(error) => NextRun::Failed(error),
        Ok(_) => if made < count {
            NextRun::Make(made)
        } else {
            NextRun::Done
        },
    }
}

/// The runs that are made of the rest of a row and what comes of them, where each goes as its
/// outcome says.
pub open spec fn rest_of_runs<S, E>(
    steps: Seq<S>,
    outcomes: Seq<Result<(), E>>,
    made: usize,
    last: Result<(), E>,
) -> (Seq<S>, Result<(), E>)
    decreases steps.len() - made,
{
    match run_after(made, steps.len() as usize, last) {
        NextRun::Make(place) => {
            let rest = rest_of_runs(
                steps,
                outcomes,
                (place + 1) as usize,
                outcomes[place as int],
            );
            (seq![steps[place as int]] + rest.0, rest.1)
        },
        NextRun::Failed(error) => (seq![], Err(error)),
        NextRun::Done => (seq![], Ok(())),
    }
}

/// The runs that are made of a row and what comes of them, where each goes as its outcome says.
pub open spec fn row_of_runs<S, E>(steps: Seq<S>, outcomes: Seq<Result<(), E>>) -> (
    Seq<S>,
    Result<(), E>,
) {
    rest_of_runs(steps, outcomes, 0, Ok(()))
}

/// The runs of a row are made in order, up to and with the first one that fails, whose error is
/// then the result. The result is good just where every run goes well, and then all are made.
pub proof fn runs_end_with_the_first_failure<S, E>(
    steps: Seq<S>,
    outcomes: Seq<Result<(), E>>,
)
    requires
        steps.len() == outcomes.len(),
        steps.len() <= usize::MAX,
    ensures
        ({
            let (made, result) = row_of_runs(steps, outcomes);
            &&& made.len() <= steps.len()
            &&& made == steps.take(made.len() as int)
            &&& match result {
                Ok(_) => made == steps && forall|i: int|
                    0 <= i < outcomes.len() ==> #[trigger] outcomes[i] is Ok,
                Err(error) => made.len() > 0 && outcomes[made.len() - 1] == Err::<(), E>(error)
                    && forall|i: int|
                    0 <= i < made.len() - 1 ==> #[trigger] outcomes[i] is Ok,
            }
        }),
{
    rest_ends_with_the_first_failure(steps, outcomes, 0, Ok(()));
    let made = row_of_runs(steps, outcomes).0;
    assert(steps.skip(0) == steps);
    assert(made == steps.take(made.len() as int));
    assert(steps.take(steps.len() as int) == steps);
}

proof fn rest_ends_with_the_first_failure<S, E>(
    steps: Seq<S>,
    outcomes: Seq<Result<(), E>>,
    from: usize,
    last: Result<(), E>,
)
    requires
        steps.len() == outcomes.len(),
        steps.len() <= usize::MAX,
        from <= steps.len(),
        last is Ok,
    ensures
        ({
            let (made, result) = rest_of_runs(steps, outcomes, from, last);
            &&& made.len() <= steps.len() - from
            &&& made == steps.skip(from as int).take(made.len() as int)
            &&& match result {
                Ok(_) => made.len() == steps.len() - from && forall|i: int|
                    from <= i < outcomes.len() ==> #[trigger] outcomes[i] is Ok,
                Err(error) => made.len() > 0 && outcomes[from + made.len() - 1] == Err::<(), E>(
                    error,
                ) && forall|i: int|
                    from <= i < from + made.len() - 1 ==> #[trigger] outcomes[i] is Ok,
            }
        }),
    decreases steps.len() - from,
{
    let made = rest_of_runs(steps, outcomes, from, last).0;
    if from < steps.len() {
        let rest = rest_of_runs(steps, outcomes, (from + 1) as usize, outcomes[from as int]).0;
        assert(made == seq![steps[from as int]] + rest);
        if outcomes[from as int] is Ok {
            rest_ends_with_the_first_failure(
                steps,
                outcomes,
                (from + 1) as usize,
                outcomes[from as int],
            );
        }
    }
    assert(made == steps.skip(from as int).take(made.len() as int));
}

/// The sessions are ended in order, up to and with the first one for which tmux fails; that error
/// is then the result. Where there is none, or no session, all are ended and the result is good.
pub proof fn killing_ends_with_the_first_failure<E>(
    names: Seq<Seq<char>>,
    outcomes: Seq<Result<(), E>>,
)
    requires
        names.len() == outcomes.len(),
        names.len() <= usize::MAX,
    ensures
        ({
            let (made, result) = row_of_runs(kill_steps(names), outcomes);
            &&& made.len() <= names.len()
            &&& made == kill_steps(names.take(made.len() as int))
            &&& match result {
                Ok(_) => made == kill_steps(names) && forall|i: int|
                    0 <= i < outcomes.len() ==> #[trigger] outcomes[i] is Ok,
                Err(error) => made.len() > 0 && outcomes[made.len() - 1] == Err::<(), E>(error)
                    && forall|i: int|
                    0 <= i < made.len() - 1 ==> #[trigger] outcomes[i] is Ok,
            }
        }),
{
    runs_end_with_the_first_failure(kill_steps(names), outcomes);
    let made = row_of_runs(kill_steps(names), outcomes).0;
    assert(made == kill_steps(names.take(made.len() as int)));
}

/// The arguments of tmux that list the sessions.
pub fn list_args() -> (out: Vec<String>)
    ensures
        views(out@) == seq![
            "list-sessions"@,
            "-F"@,
            "#{session_name}\t#{@gh-pilot-project}\t#{@gh-pilot-created}\t#{@gh-pilot-last-seen}"@,
        ],
        out@[2]@ == "#{session_name}\t#{"@ + PROJECT_OPTION@ + "}\t#{"@ + CREATED_OPTION@ + "}\t#{"@
            + LAST_SEEN_OPTION@ + "}"@,
{
    proof {
        format_names_the_options();
    }
    let words: Vec<&str> = vec![
        "list-sessions",
        "-F",
        "#{session_name}\t#{@gh-pilot-project}\t#{@gh-pilot-created}\t#{@gh-pilot-last-seen}",
    ];
    assert(views(words@) == seq![
        "list-sessions"@,
        "-F"@,
        "#{session_name}\t#{@gh-pilot-project}\t#{@gh-pilot-created}\t#{@gh-pilot-last-seen}"@,
    ]);
    let out = texts_of(&words);
    assert(views(out@)[2] == out@[2]@);
    out
}

proof fn format_names_the_options()
    ensures
        "#{session_name}\t#{@gh-pilot-project}\t#{@gh-pilot-created}\t#{@gh-pilot-last-seen}"@
            == "#{session_name}\t#{"@ + PROJECT_OPTION@ + "}\t#{"@ + CREATED_OPTION@ + "}\t#{"@
            + LAST_SEEN_OPTION@ + "}"@,
{
    reveal_strlit(
        "#{session_name}\t#{@gh-pilot-project}\t#{@gh-pilot-created}\t#{@gh-pilot-last-seen}",
    );
    reveal_strlit("#{session_name}\t#{");
    reveal_strlit("@gh-pilot-project");
    reveal_strlit("}\t#{");
    reveal_strlit("@gh-pilot-created");
    reveal_strlit("@gh-pilot-last-seen");
    reveal_strlit("}");
}

/// The run of tmux that shows what the terminal of a session shows, 120 lines back.
pub fn capture_pane(name: &str) -> (out: Step)
    ensures
        out@ == (Step {
            args: seq![
                "capture-pane"@,
                "-p"@,
                "-e"@,
                "-J"@,
                "-S"@,
                "-120"@,
                "-t"@,
                name@,
            ],
            task: "tmux capture-pane"@,
            not_started: "failed to capture tmux pane "@ + name@,
        }),
{
    let words: Vec<&str> = vec!["capture-pane", "-p", "-e", "-J", "-S", "-120", "-t", name];
    assert(views(words@) == seq![
        "capture-pane"@,
        "-p"@,
        "-e"@,
        "-J"@,
        "-S"@,
        "-120"@,
        "-t"@,
        name@,
    ]);
    Step {
        args: texts_of(&words),
        task: "tmux capture-pane".to_owned(),
        not_started: concat("failed to capture tmux pane ", name),
    }
}

/// The run of tmux that tells about the window of a session.
pub fn inspect_window(name: &str) -> (out: Step)
    ensures
        out@ == (Step {
            args: seq![
                "display-message"@,
                "-p"@,
                "-t"@,
                name@,
                "#{window_activity}\t#{pane_dead}\t#{pane_current_path}\t#{window_flags}\t#{pane_title}"@,
            ],
            task: "tmux display-message"@,
            not_started: "failed to inspect tmux session "@ + name@,
        }),
{
    let words: Vec<&str> = vec![
        "display-message",
        "-p",
        "-t",
        name,
        "#{window_activity}\t#{pane_dead}\t#{pane_current_path}\t#{window_flags}\t#{pane_title}",
    ];
    assert(views(words@) == seq![
        "display-message"@,
        "-p"@,
        "-t"@,
        name@,
        "#{window_activity}\t#{pane_dead}\t#{pane_current_path}\t#{window_flags}\t#{pane_title}"@,
    ]);
    Step {
        args: texts_of(&words),
        task: "tmux display-message".to_owned(),
        not_started: concat("failed to inspect tmux session ", name),
    }
}

/// The arguments of tmux that ask whether a session is there.
pub fn exists_args(name: &str) -> (out: Vec<String>)
    ensures
        views(out@) == seq!["has-session"@, "-t"@, name@],
{
    let words: Vec<&str> = vec!["has-session", "-t", name];
    assert(views(words@) == seq!["has-session"@, "-t"@, name@]);
    texts_of(&words)
}

/// What is said of a failed run: what it was for, and what it said.
pub open spec fn failure_text(task: Seq<char>, said: Seq<char>) -> Seq<char> {
    task + " failed: "@ + trim(said)
}

/// What is said of a failed run: what it was for, and what it said.
pub fn failure_message(task: &str, said: &str) -> (out: String)
    ensures
        out@ == failure_text(task@, said@),
{
    concat(&concat(task, " failed: "), &string_of(trimmed(&chars_of(said))))
}

/// What a run printed, or what is said where it failed.
pub fn check_output(success: bool, stdout: &[u8], stderr: &[u8], task: &str) -> (out: Result<
    String,
    String,
>)
    ensures
        match out {
            Ok(text) => success && text@ == lossy_text(stdout@),
            Err(message) => !success && message@ == failure_text(task@, lossy_text(stderr@)),
        },
{
    if success {
        Ok(decode_lossy(stdout))
    } else {
        Err(failure_message(task, &decode_lossy(stderr)))
    }
}

// ---------------------------------------------------------------------------
// Titles
// ---------------------------------------------------------------------------
/// A text with spaces for its control characters.
pub open spec fn without_controls(s: Seq<char>) -> Seq<char> {
    s.map_values(
        |c: char|
            if is_control(c) {
                ' '
            } else {
                c
            },
    )
}

/// A title made fit to be shown: its words with single spaces between them. Nothing where it has
/// none.
pub open spec fn clean_title(title: Seq<char>) -> Option<Seq<char>> {
    let clean = join(words(without_controls(title)), " "@);
    if clean.len() > 0 {
        Some(clean)
    } else {
        None
    }
}

/// A title made fit to be shown.
pub fn sanitize_title(title: &str) -> (out: Option<String>)
    ensures
        opt_view(out) == clean_title(title@),
{
    let s = chars_of(title);
    let mut plain: Vec<char> = Vec::new();
    let mut i: usize = 0;
    while i < s.len()
        invariant
            i <= s.len(),
            s@ == title@,
            plain@ == without_controls(title@).take(i as int),
        decreases s.len() - i,
    {
        let c = if control(s[i]) { ' ' } else { s[i] };
        assert(without_controls(title@).take(i + 1) == without_controls(title@).take(i as int).push(c));
        plain.push(c);
        i += 1;
    }
    assert(without_controls(title@).take(s@.len() as int) == without_controls(title@));
    let clean = joined(&words_of(&plain), " ");
    if clean.len() > 0 {
        Some(string_of(&clean))
    } else {
        None
    }
}

proof fn joined_has_no_controls(parts: Seq<Seq<char>>)
    requires
        forall|i: int, k: int|
            0 <= i < parts.len() && 0 <= k < parts[i].len() ==> !is_control(#[trigger] parts[i][k]),
    ensures
        forall|k: int|
            0 <= k < join(parts, seq![' ']).len() ==> !is_control(
                #[trigger] join(parts, seq![' '])[k],
            ),
    decreases parts.len(),
{
    if parts.len() > 1 {
        let rest = parts.drop_last();
        assert forall|i: int, k: int| 0 <= i < rest.len() && 0 <= k < rest[i].len() implies !is_control(
            #[trigger] rest[i][k],
        ) by {
            assert(parts[i][k] == rest[i][k]);
        }
        joined_has_no_controls(rest);
        let a = join(rest, seq![' ']);
        let s = join(parts, seq![' ']);
        assert forall|k: int| 0 <= k < s.len() implies !is_control(#[trigger] s[k]) by {
            if k < a.len() {
                assert(s[k] == a[k]);
            } else if k > a.len() {
                assert(s[k] == parts.last()[k - a.len() - 1]);
            }
        }
    }
}

/// A title that was made fit to be shown stays as it is.
pub proof fn clean_titles_stay(title: Seq<char>)
    ensures
        clean_title(title) is Some ==> clean_title(clean_title(title)->0) == clean_title(title),
{
    reveal_strlit(" ");
    assert(" "@ == seq![' ']);
    let plain = without_controls(title);
    let w = words(plain);
    let clean = join(w, " "@);
    words_are_solid(plain);
    assert forall|i: int, k: int| 0 <= i < w.len() && 0 <= k < w[i].len() implies !is_control(
        #[trigger] w[i][k],
    ) by {
        assert(plain.contains(w[i][k]));
        let j = choose|j: int| 0 <= j < plain.len() && plain[j] == w[i][k];
        assert(!is_control(plain[j]));
    }
    joined_has_no_controls(w);
    assert(without_controls(clean) == clean);
    words_of_joined(w);
}

/// What a session is called: by the title of its terminal where it has one of its own, else by its
/// name.
pub open spec fn shown_title(name: Seq<char>, title: Option<Seq<char>>) -> Seq<char> {
    match title {
        Some(title) => match clean_title(title) {
            Some(clean) => if clean != name && !starts(clean, SESSION_PREFIX@) {
                clean
            } else {
                shown_name(name)
            },
            None => shown_name(name),
        },
        None => shown_name(name),
    }
}

/// What a session is called.
pub fn session_display_name(name: &str, title: Option<&str>) -> (out: String)
    ensures
        out@ == shown_title(
            name@,
            match title {
                Some(title) => Some(title@),
                None => None,
            },
        ),
{
    match title {
        Some(title) => match sanitize_title(title) {
            Some(clean) => if !same_text(&clean, name) && !starts_with(
                &chars_of(&clean),
                SESSION_PREFIX,
            ) {
                clean
            } else {
                display_name(name)
            },
            None => display_name(name),
        },
        None => display_name(name),
    }
}

// ---------------------------------------------------------------------------
// What tmux says
// ---------------------------------------------------------------------------
/// A session in the list that tmux gives.
#[derive(Debug, PartialEq, Eq)]
pub struct ListedSession<T = String> {
    pub name: T,
    pub project: Option<T>,
    pub last_seen: Option<u128>,
}

impl View for ListedSession<String> {
    type V = ListedSession<Seq<char>>;

    open spec fn view(&self) -> ListedSession<Seq<char>> {
        ListedSession {
            name: self.name@,
            project: opt_view(self.project),
            last_seen: self.last_seen,
        }
    }
}

/// What tmux tells of the window of a session.
#[derive(Debug, PartialEq, Eq)]
pub struct WindowInfo<T = String> {
    pub last_activity: Option<u128>,
    pub pane_dead: bool,
    pub has_bell: bool,
    pub current_path: Option<T>,
    pub title: Option<T>,
}

impl View for WindowInfo<String> {
    type V = WindowInfo<Seq<char>>;

    open spec fn view(&self) -> WindowInfo<Seq<char>> {
        WindowInfo {
            last_activity: self.last_activity,
            pane_dead: self.pane_dead,
            has_bell: self.has_bell,
            current_path: opt_view(self.current_path),
            title: opt_view(self.title),
        }
    }
}

/// What is taken of a window of which nothing is known.
pub open spec fn unknown_window() -> WindowInfo<Seq<char>> {
    WindowInfo {
        last_activity: None,
        pane_dead: false,
        has_bell: false,
        current_path: None,
        title: None,
    }
}

impl Default for WindowInfo<String> {
    fn default() -> (out: Self)
        ensures
            out@ == unknown_window(),
    {
        WindowInfo {
            last_activity: None,
            pane_dead: false,
            has_bell: false,
            current_path: None,
            title: None,
        }
    }
}

/// A time that tmux gives in seconds.
pub open spec fn tmux_time(field: Seq<char>) -> Option<u128> {
    match parsed_u64(field) {
        Some(seconds) => Some((seconds * 1_000_000_000) as u128),
        None => None,
    }
}

/// A time that tmux gives in seconds.
pub fn parse_tmux_time(field: &[char]) -> (out: Option<u128>)
    ensures
        out == tmux_time(field@),
{
    match parse_u64(field) {
        Some(seconds) => Some(seconds as u128 * 1_000_000_000),
        None => None,
    }
}

/// A field, where it is there and not empty.
pub open spec fn full_field(all: Seq<Seq<char>>, k: int) -> Option<Seq<char>> {
    if k < all.len() && all[k].len() > 0 {
        Some(all[k])
    } else {
        None
    }
}

/// What a line of the list says, where it is about a managed session.
pub open spec fn listed_line(line: Seq<char>) -> Option<ListedSession<Seq<char>>> {
    let all = fields(line, '\t', 4);
    if starts(all[0], SESSION_PREFIX@) {
        Some(
            ListedSession {
                name: all[0],
                project: full_field(all, 1),
                last_seen: if all.len() > 3 {
                    tmux_time(all[3])
                } else {
                    None
                },
            },
        )
    } else {
        None
    }
}

/// What the lines of the list say of managed sessions.
pub open spec fn listed_lines(all: Seq<Seq<char>>) -> Seq<ListedSession<Seq<char>>>
    decreases all.len(),
{
    if all.len() == 0 {
        seq![]
    } else {
        match listed_line(all.last()) {
            Some(session) => listed_lines(all.drop_last()).push(session),
            None => listed_lines(all.drop_last()),
        }
    }
}

fn text_at(all: &Vec<Vec<char>>, k: usize) -> (out: Option<String>)
    ensures
        opt_view(out) == full_field(views(all@), k as int),
{
    if k < all.len() && all[k].len() > 0 {
        Some(string_of(&all[k]))
    } else {
        None
    }
}

fn time_at(all: &Vec<Vec<char>>, k: usize) -> (out: Option<u128>)
    ensures
        out == (if k < all@.len() {
            tmux_time(all@[k as int]@)
        } else {
            None
        }),
{
    if k < all.len() {
        parse_tmux_time(&all[k])
    } else {
        None
    }
}

/// The managed sessions in the list that tmux printed.
pub fn listed_sessions(printed: &str) -> (out: Vec<ListedSession>)
    ensures
        views(out@) == listed_lines(lines(printed@)),
{
    let all = lines_of(&chars_of(printed));
    let ghost text = lines(printed@);
    let mut out: Vec<ListedSession> = Vec::new();
    let mut i: usize = 0;
    while i < all.len()
        invariant
            i <= all.len(),
            text == views(all@),
            views(out@) == listed_lines(text.take(i as int)),
        decreases all.len() - i,
    {
        assert(text.take(i + 1).drop_last() == text.take(i as int));
        assert(text.take(i + 1).last() == all@[i as int]@);
        let parts = fields_of(&all[i], '\t', 4);
        assert(views(parts@)[0] == parts@[0]@);
        if starts_with(&parts[0], SESSION_PREFIX) {
            let session = ListedSession {
                name: string_of(&parts[0]),
                project: text_at(&parts, 1),
                last_seen: time_at(&parts, 3),
            };
            let ghost before = out@;
            out.push(session);
            assert(views(out@) == views(before).push(session@));
        }
        i += 1;
    }
    assert(text.take(all@.len() as int) == text);
    out
}

/// The list has the managed sessions only.
pub proof fn listed_sessions_are_managed(all: Seq<Seq<char>>)
    ensures
        forall|i: int|
            0 <= i < listed_lines(all).len() ==> starts(
                #[trigger] listed_lines(all)[i].name,
                SESSION_PREFIX@,
            ),
        listed_lines(all).len() <= all.len(),
    decreases all.len(),
{
    if all.len() > 0 {
        listed_sessions_are_managed(all.drop_last());
    }
}

/// What a failed run of the list comes to, by what it said: no sessions where no tmux runs, else
/// an error.
pub fn failed_listing(said: &str) -> (out: Result<Vec<ListedSession>, String>)
    ensures
        match out {
            Ok(sessions) => mentions(said@, "no server running"@) && sessions@.len() == 0,
            Err(message) => !mentions(said@, "no server running"@) && message@ == failure_text(
                "tmux list-sessions"@,
                said@,
            ),
        },
{
    if contains(&chars_of(said), "no server running") {
        Ok(Vec::new())
    } else {
        Err(failure_message("tmux list-sessions", said))
    }
}

/// The managed sessions in what a run of the list printed, or what is said where it failed.
pub fn read_listing(success: bool, stdout: &[u8], stderr: &[u8]) -> (out: Result<
    Vec<ListedSession>,
    String,
>)
    ensures
        match out {
            Ok(sessions) => if success {
                views(sessions@) == listed_lines(lines(lossy_text(stdout@)))
            } else {
                mentions(lossy_text(stderr@), "no server running"@) && sessions@.len() == 0
            },
            Err(message) => !success && !mentions(lossy_text(stderr@), "no server running"@) && message@
                == failure_text("tmux list-sessions"@, lossy_text(stderr@)),
        },
{
    if success {
        Ok(listed_sessions(&decode_lossy(stdout)))
    } else {
        failed_listing(&decode_lossy(stderr))
    }
}

/// What tmux tells of a window.
pub open spec fn told_window(info: Seq<char>) -> WindowInfo<Seq<char>> {
    let all = fields(trim_end(info), '\t', 5);
    WindowInfo {
        last_activity: tmux_time(all[0]),
        pane_dead: all.len() > 1 && all[1] == "1"@,
        has_bell: all.len() > 3 && all[3].contains('!'),
        current_path: full_field(all, 2),
        title: if all.len() > 4 {
            clean_title(all[4])
        } else {
            None
        },
    }
}

/// What tmux tells of a window.
pub fn window_info(info: &str) -> (out: WindowInfo)
    ensures
        out@ == told_window(info@),
{
    let all = fields_of(trimmed_end(&chars_of(info)), '\t', 5);
    let ghost parts = views(all@);
    assert(parts == fields(trim_end(info@), '\t', 5));
    assert(forall|i: int| 0 <= i < all@.len() ==> parts[i] == all@[i]@);
    let pane_dead = all.len() > 1 && same_chars(&all[1], &chars_of("1"));
    let has_bell = all.len() > 3 && position_of(&all[3], '!') < all[3].len();
    proof {
        if all@.len() > 3 {
            position_is_first(all@[3]@, '!');
        }
    }
    let title = if all.len() > 4 {
        sanitize_title(&string_of(&all[4]))
    } else {
        None
    };
    WindowInfo {
        last_activity: time_at(&all, 0),
        pane_dead,
        has_bell,
        current_path: text_at(&all, 2),
        title,
    }
}

// ---------------------------------------------------------------------------
// Putting the sessions together
// ---------------------------------------------------------------------------
/// A listed session with what was found out about it.
#[derive(Debug, PartialEq, Eq)]
pub struct Probe<T = String> {
    pub listed: ListedSession<T>,
    pub window: WindowInfo<T>,
    /// What its terminal shows.
    pub content: T,
    /// Its directory is the current one.
    pub is_current: bool,
}

impl View for Probe<String> {
    type V = Probe<Seq<char>>;

    open spec fn view(&self) -> Probe<Seq<char>> {
        Probe {
            listed: self.listed@,
            window: self.window@,
            content: self.content@,
            is_current: self.is_current,
        }
    }
}

/// The directory of a session: the one noted with it, or where its terminal is, or here.
pub open spec fn session_dir(
    listed: ListedSession<Seq<char>>,
    window: WindowInfo<Seq<char>>,
) -> Seq<char> {
    match listed.project {
        Some(dir) => dir,
        None => match window.current_path {
            Some(dir) => dir,
            None => "."@,
        },
    }
}

/// The directory of a session.
pub fn session_project_dir(listed: &ListedSession, window: &WindowInfo) -> (out: String)
    ensures
        out@ == session_dir(listed@, window@),
{
    match &listed.project {
        Some(dir) => dir.clone(),
        None => match &window.current_path {
            Some(dir) => dir.clone(),
            None => ".".to_owned(),
        },
    }
}

/// What the terminal of a session shows; nothing where it is dead.
pub open spec fn live_content(probe: Probe<Seq<char>>) -> Seq<char> {
    if probe.window.pane_dead {
        ""@
    } else {
        probe.content
    }
}

/// The number of what a session shows.
pub open spec fn shown_hash(probe: Probe<Seq<char>>) -> u64 {
    text_hash(trim(stripped(live_content(probe))))
}

/// What is known of the sessions' terminals once they were looked at, one after the other.
pub open spec fn cache_after(
    cache: Map<Seq<char>, u64>,
    probes: Seq<Probe<Seq<char>>>,
) -> Map<Seq<char>, u64>
    decreases probes.len(),
{
    if probes.len() == 0 {
        cache
    } else {
        cache_after(cache, probes.drop_last()).insert(
            probes.last().listed.name,
            shown_hash(probes.last()),
        )
    }
}

/// An activity within the last four seconds.
pub open spec fn is_recent(last_activity: Option<u128>, now: u128) -> bool {
    match last_activity {
        Some(last) => last <= now && now - last <= 4_000_000_000,
        None => false,
    }
}

/// What a session is doing, by what was found out about it and what was known before.
pub open spec fn probed_status(
    probe: Probe<Seq<char>>,
    cache: Map<Seq<char>, u64>,
    now: u128,
) -> SessionStatus {
    let name = probe.listed.name;
    if probe.window.pane_dead {
        SessionStatus::Idle
    } else {
        shown_status(
            stripped(probe.content),
            (cache.contains_key(name) && cache[name] != shown_hash(probe)) || is_recent(
                probe.window.last_activity,
                now,
            ),
        )
    }
}

/// A session, by what was found out about it and what was known before.
pub open spec fn probed_session(
    probe: Probe<Seq<char>>,
    cache: Map<Seq<char>, u64>,
    now: u128,
) -> ManagedSession<Seq<char>> {
    ManagedSession {
        name: probe.listed.name,
        display_name: shown_title(probe.listed.name, probe.window.title),
        project_dir: session_dir(probe.listed, probe.window),
        is_current_project: probe.is_current,
        is_remote: false,
        status: probed_status(probe, cache, now),
        last_activity: probe.window.last_activity,
        has_bell: probe.window.has_bell,
        pane_dead: probe.window.pane_dead,
    }
}

/// The sessions, in the order in which they were found.
pub open spec fn probed_sessions(
    probes: Seq<Probe<Seq<char>>>,
    cache: Map<Seq<char>, u64>,
    now: u128,
) -> Seq<ManagedSession<Seq<char>>>
    decreases probes.len(),
{
    if probes.len() == 0 {
        seq![]
    } else {
        probed_sessions(probes.drop_last(), cache, now).push(
            probed_session(probes.last(), cache_after(cache, probes.drop_last()), now),
        )
    }
}

/// The first time is later than the second; a time that is not known is earlier than any other.
pub open spec fn is_later(a: Option<u128>, b: Option<u128>) -> bool {
    match (a, b) {
        (Some(a), Some(b)) => a > b,
        (Some(_), None) => true,
        _ => false,
    }
}

/// Whether the first time is later than the second.
pub fn later(a: Option<u128>, b: Option<u128>) -> (yes: bool)
    ensures
        yes == is_later(a, b),
{
    match (a, b) {
        (Some(a), Some(b)) => a > b,
        (Some(_), None) => true,
        _ => false,
    }
}

/// The order of sessions: by status, then the last active first, then by what they are called.
pub open spec fn session_before(
    a: ManagedSession<Seq<char>>,
    b: ManagedSession<Seq<char>>,
) -> bool {
    if status_rank(a.status) != status_rank(b.status) {
        status_rank(a.status) < status_rank(b.status)
    } else if a.last_activity != b.last_activity {
        is_later(a.last_activity, b.last_activity)
    } else {
        text_less(a.display_name, b.display_name)
    }
}

impl Ranked for ManagedSession<String> {
    open spec fn before(self, other: Self) -> bool {
        session_before(self@, other@)
    }

    proof fn before_is_asymmetric(a: Self, b: Self) {
        text_less_is_asymmetric(a.display_name@, b.display_name@);
    }

    proof fn not_before_chains(a: Self, b: Self, c: Self) {
        if !text_less(a.display_name@, b.display_name@) && !text_less(
            b.display_name@,
            c.display_name@,
        ) {
            text_not_less_chains(a.display_name@, b.display_name@, c.display_name@);
        }
    }

    fn is_before(&self, other: &Self) -> (yes: bool) {
        let a: u8 = self.status.sort_rank();
        let b: u8 = other.status.sort_rank();
        if a != b {
            a < b
        } else if later(self.last_activity, other.last_activity) {
            true
        } else if later(other.last_activity, self.last_activity) {
            false
        } else {
            is_less(&self.display_name, &other.display_name)
        }
    }
}

/// The order of sessions as a function.
pub open spec fn session_order() -> spec_fn(ManagedSession<Seq<char>>, ManagedSession<Seq<char>>) -> bool {
    |a: ManagedSession<Seq<char>>, b: ManagedSession<Seq<char>>| session_before(a, b)
}

/// The managed sessions, in order, by what was found out about them and what their terminals showed
/// before; notes what they show now. `now` is in nanoseconds since the epoch.
pub fn list_sessions(probes: &Vec<Probe>, cache: &mut StatusCache, now: u128) -> (out: Vec<
    ManagedSession,
>)
    requires
        forall|i: int|
            0 <= i < probes@.len() ==> is_strippable(live_content(#[trigger] probes@[i]@)),
    ensures
        sorted_by(
            probed_sessions(views(probes@), old(cache)@, now),
            views(out@),
            session_order(),
        ),
        final(cache)@ == cache_after(old(cache)@, views(probes@)),
{
    let ghost found = views(probes@);
    let ghost known = cache@;
    let mut sessions: Vec<ManagedSession> = Vec::new();
    let mut i: usize = 0;
    while i < probes.len()
        invariant
            i <= probes.len(),
            found == views(probes@),
            forall|k: int|
                0 <= k < probes@.len() ==> is_strippable(live_content(#[trigger] probes@[k]@)),
            views(sessions@) == probed_sessions(found.take(i as int), known, now),
            cache@ == cache_after(known, found.take(i as int)),
        decreases probes.len() - i,
    {
        let probe = &probes[i];
        let ghost view = probe@;
        assert(found.take(i + 1).drop_last() == found.take(i as int));
        assert(found.take(i + 1).last() == view);
        assert(is_strippable(live_content(probes@[i as int]@)));
        let content = if probe.window.pane_dead { "".to_owned() } else { probe.content.clone() };
        let hash = content_hash(&content);
        let previous = cache.update(&probe.listed.name, hash);
        let content_changed = match previous {
            Some(previous) => previous != hash,
            None => false,
        };
        let activity_recent = match probe.window.last_activity {
            Some(last) => last <= now && now - last <= 4_000_000_000,
            None => false,
        };
        let seen = match (probe.window.last_activity, probe.listed.last_seen) {
            (Some(last_activity), Some(last_seen)) => last_activity <= last_seen,
            _ => false,
        };
        let status = if probe.window.pane_dead {
            SessionStatus::Idle
        } else {
            detect_status(&content, content_changed, activity_recent, seen)
        };
        let title = match &probe.window.title {
            Some(title) => Some(title.as_str()),
            None => None,
        };
        let session = ManagedSession {
            name: probe.listed.name.clone(),
            display_name: session_display_name(&probe.listed.name, title),
            project_dir: session_project_dir(&probe.listed, &probe.window),
            is_current_project: probe.is_current,
            is_remote: false,
            status,
            last_activity: probe.window.last_activity,
            has_bell: probe.window.has_bell,
            pane_dead: probe.window.pane_dead,
        };
        assert(session@ == probed_session(view, cache_after(known, found.take(i as int)), now));
        let ghost before = sessions@;
        sessions.push(session);
        assert(views(sessions@) == views(before).push(session@));
        i += 1;
    }
    assert(found.take(probes@.len() as int) == found);
    let ghost built = sessions@;
    sort(&mut sessions);
    proof {
        rank_sorts_views(built, sessions@, session_order());
    }
    sessions
}

// ---------------------------------------------------------------------------
// What is started and what is listed
// ---------------------------------------------------------------------------
/// The words of a launch command: the shell is replaced by Copilot; `--remote` is among them just
/// where remote control was asked for; a session that joins another one names its id in the last
/// word, and a new one names none.
pub proof fn launch_words_say_what_was_asked_for(launch: LaunchKind<Seq<char>>)
    ensures
        match launch_command(launch) {
            Ok(command) => {
                let all = words(command);
                let asked = match launch {
                    LaunchKind::Local { remote_enabled } => remote_enabled,
                    LaunchKind::Connect { remote_enabled, .. } => remote_enabled,
                };
                &&& all.len() >= 2 && all[0] == "exec"@ && all[1] == "copilot"@
                &&& all.contains("--remote"@) <==> asked
                &&& match launch {
                    LaunchKind::Local { .. } => all.len() == if asked {
                        3int
                    } else {
                        2
                    },
                    LaunchKind::Connect { id, .. } => all.last() == "--resume="@ + id && all.len()
                        == if asked {
                        4int
                    } else {
                        3
                    },
                }
            },
            Err(_) => true,
        },
{
    reveal_strlit("exec");
    reveal_strlit("copilot");
    reveal_strlit("--remote");
    reveal_strlit("--resume=");
    reveal_strlit("exec copilot");
    reveal_strlit("exec copilot --remote");
    reveal_strlit("exec copilot --resume=");
    reveal_strlit("exec copilot --remote --resume=");
    let a = "exec"@;
    let b = "copilot"@;
    let r = "--remote"@;
    assert(r[0] == '-' && a[0] == 'e' && b[0] == 'c');
    match launch_command(launch) {
        Ok(command) => {
            match launch {
                LaunchKind::Local { remote_enabled } => {
                    if remote_enabled {
                        three_words(a, b, r);
                        assert(command =~= a + seq![' '] + b + seq![' '] + r);
                        assert(words(command)[2] == r);
                    } else {
                        two_words(a, b);
                        assert(command =~= a + seq![' '] + b);
                    }
                },
                LaunchKind::Connect { id, remote_enabled } => {
                    let c = "--resume="@ + id;
                    assert(c[3] == 'e' && r[3] == 'e' && c[4] == 's' && r[4] == 'm');
                    assert forall|i: int| 0 <= i < c.len() implies !is_space(#[trigger] c[i]) by {
                        if i >= 9 {
                            assert(is_id_char(id[i - 9]));
                        }
                    }
                    if remote_enabled {
                        three_words(a, b, r);
                        words_grow(a + seq![' '] + b + seq![' '] + r, c);
                        assert(command =~= a + seq![' '] + b + seq![' '] + r + seq![' '] + c);
                        assert(words(command)[2] == r);
                    } else {
                        three_words(a, b, c);
                        assert(command =~= a + seq![' '] + b + seq![' '] + c);
                    }
                },
            }
        },
        Err(_) => {},
    }
}

proof fn two_words(a: Seq<char>, b: Seq<char>)
    requires
        a.len() > 0 && is_solid(a),
        b.len() > 0 && is_solid(b),
    ensures
        words(a + seq![' '] + b) == seq![a, b],
{
    words_grow(seq![], a);
    words_grow(a, b);
    assert(seq![a].push(b) == seq![a, b]);
}

proof fn three_words(a: Seq<char>, b: Seq<char>, c: Seq<char>)
    requires
        a.len() > 0 && is_solid(a),
        b.len() > 0 && is_solid(b),
        c.len() > 0 && is_solid(c),
    ensures
        words(a + seq![' '] + b + seq![' '] + c) == seq![a, b, c],
{
    two_words(a, b);
    words_grow(a + seq![' '] + b, c);
    assert(seq![a, b].push(c) == seq![a, b, c]);
}

/// An id is taken just where it is not empty and holds ASCII letters, digits, dashes, underscores,
/// dots and colons only; an empty one is told from one with other characters.
pub proof fn ids_hold_safe_characters(id: Seq<char>)
    ensures
        id_check(id) is Ok <==> id.len() > 0 && forall|i: int|
            0 <= i < id.len() ==> ({
                let c = #[trigger] id[i];
                ('a' <= c && c <= 'z') || ('A' <= c && c <= 'Z') || ('0' <= c && c <= '9') || c
                    == '-' || c == '_' || c == '.' || c == ':'
            }),
        id_check(id) == Err::<(), LaunchError>(LaunchError::EmptyId) <==> id.len() == 0,
{
    if id_check(id) is Ok {
        assert forall|i: int| 0 <= i < id.len() implies ({
            let c = #[trigger] id[i];
            ('a' <= c && c <= 'z') || ('A' <= c && c <= 'Z') || ('0' <= c && c <= '9') || c == '-'
                || c == '_' || c == '.' || c == ':'
        }) by {
            assert(is_id_char(id[i]));
        }
    }
}

/// A run that gives a session or its window an option.
pub open spec fn sets_option(
    step: Step<Seq<char>, Seq<Seq<char>>>,
    verb: Seq<char>,
    target: Seq<char>,
    option: Seq<char>,
    value: Seq<char>,
) -> bool {
    step.args.len() == 6 && step.args[0] == verb && step.args[1] == "-q"@ && step.args[2] == "-t"@
        && step.args[3] == target && step.args[4] == option && step.args[5] == value
}

/// A new session is started first: not attached, under its name, in the directory of its project,
/// with its command. Then its project, its command and the times of its start and of the last look
/// at it are noted with it; it stays once its command ends, its bell is heard, and its name is not
/// shown. The session that is then known has that name and lies in that project.
pub proof fn new_session_is_noted_with_its_project(
    name: Seq<char>,
    project_dir: Seq<char>,
    command: Seq<char>,
    created: nat,
    seen: nat,
    now: u128,
)
    ensures
        ({
            let steps = creation_steps(name, project_dir, command, created, seen);
            &&& steps.len() == 10
            &&& steps[0].args.len() == 7 && steps[0].args[0] == "new-session"@ && steps[0].args[1]
                == "-d"@ && steps[0].args[2] == "-s"@ && steps[0].args[3] == name
                && steps[0].args[4] == "-c"@ && steps[0].args[5] == project_dir
                && steps[0].args[6] == command
            &&& exists|i: int| 0 < i < 10 && sets_option(
                #[trigger] steps[i],
                "set-option"@,
                name,
                PROJECT_OPTION@,
                project_dir,
            )
            &&& exists|i: int| 0 < i < 10 && sets_option(
                #[trigger] steps[i],
                "set-option"@,
                name,
                CREATED_OPTION@,
                decimal(created),
            )
            &&& exists|i: int| 0 < i < 10 && sets_option(
                #[trigger] steps[i],
                "set-option"@,
                name,
                COMMAND_OPTION@,
                command,
            )
            &&& exists|i: int| 0 < i < 10 && sets_option(
                #[trigger] steps[i],
                "set-option"@,
                name,
                LAST_SEEN_OPTION@,
                decimal(seen),
            )
            &&& exists|i: int| 0 < i < 10 && sets_option(
                #[trigger] steps[i],
                "set-window-option"@,
                name + ":0"@,
                "remain-on-exit"@,
                "on"@,
            )
            &&& exists|i: int| 0 < i < 10 && sets_option(
                #[trigger] steps[i],
                "set-window-option"@,
                name + ":0"@,
                "monitor-bell"@,
                "on"@,
            )
            &&& exists|i: int| 0 < i < 10 && sets_option(
                #[trigger] steps[i],
                "set-option"@,
                name,
                "bell-action"@,
                "any"@,
            )
            &&& exists|i: int| 0 < i < 10 && sets_option(
                #[trigger] steps[i],
                "set-option"@,
                name,
                "status-left"@,
                ""@,
            )
            &&& exists|i: int| 0 < i < 10 && sets_option(
                #[trigger] steps[i],
                "set-option"@,
                name,
                "status-left-length"@,
                "0"@,
            )
            &&& fresh_session(name, project_dir, now).name == name
            &&& fresh_session(name, project_dir, now).project_dir == project_dir
            &&& fresh_session(name, project_dir, now).status is Busy
            &&& fresh_session(name, project_dir, now).last_activity == Some(now)
            &&& fresh_session(name, project_dir, now).is_current_project
            &&& !fresh_session(name, project_dir, now).is_remote
            &&& !fresh_session(name, project_dir, now).has_bell
            &&& !fresh_session(name, project_dir, now).pane_dead
        }),
{
    let steps = creation_steps(name, project_dir, command, created, seen);
    assert(sets_option(steps[1], "set-option"@, name, PROJECT_OPTION@, project_dir));
    assert(sets_option(steps[2], "set-option"@, name, CREATED_OPTION@, decimal(created)));
    assert(sets_option(steps[3], "set-option"@, name, COMMAND_OPTION@, command));
    assert(sets_option(steps[4], "set-option"@, name, LAST_SEEN_OPTION@, decimal(seen)));
    assert(sets_option(steps[5], "set-window-option"@, name + ":0"@, "remain-on-exit"@, "on"@));
    assert(sets_option(steps[6], "set-window-option"@, name + ":0"@, "monitor-bell"@, "on"@));
    assert(sets_option(steps[7], "set-option"@, name, "bell-action"@, "any"@));
    assert(sets_option(steps[8], "set-option"@, name, "status-left"@, ""@));
    assert(sets_option(steps[9], "set-option"@, name, "status-left-length"@, "0"@));
}

/// A new session is one of those that are listed, and another number gives it another name.
pub proof fn new_names_are_managed_and_differ(
    project_dir: Seq<char>,
    seconds: nat,
    number: nat,
    other: nat,
)
    ensures
        starts(session_name(project_dir, seconds, number), SESSION_PREFIX@),
        session_name(project_dir, seconds, number) == session_name(project_dir, seconds, other)
            ==> number == other,
{
    let head = SESSION_PREFIX@ + project_slug(project_dir) + "__"@ + decimal(seconds) + "__"@;
    let a = session_name(project_dir, seconds, number);
    let b = session_name(project_dir, seconds, other);
    assert(a.subrange(0, SESSION_PREFIX@.len() as int) == SESSION_PREFIX@);
    if a == b {
        assert(a.skip(head.len() as int) == decimal(number));
        assert(b.skip(head.len() as int) == decimal(other));
        decimal_has_value(number);
        decimal_has_value(other);
    }
}

proof fn first_field(x: Seq<char>, c: char, rest: Seq<char>, n: nat)
    requires
        !x.contains(c),
        n > 1,
    ensures
        fields(x + seq![c] + rest, c, n) == seq![x] + fields(rest, c, (n - 1) as nat),
{
    let s = x + seq![c] + rest;
    position_is_first(s, c);
    assert(s[x.len() as int] == c);
    let p = position(s, c);
    if p < x.len() {
        assert(s[p] == x[p]);
        assert(x.contains(x[p]));
    }
    assert(s.take(p) == x);
    assert(s.skip(p + 1) == rest);
}

proof fn only_field(x: Seq<char>, c: char, n: nat)
    requires
        !x.contains(c),
    ensures
        fields(x, c, n) == seq![x],
{
    position_is_first(x, c);
}

proof fn decimal_is_bare(n: nat)
    ensures
        !decimal(n).contains('\t'),
        decimal(n).len() > 0,
{
    decimal_has_value(n);
    if decimal(n).contains('\t') {
        let i = choose|i: int| 0 <= i < decimal(n).len() && decimal(n)[i] == '\t';
        assert(is_digit(decimal(n)[i]));
    }
}

/// What was noted with a session is read back from its line of the list: its name, its project and
/// when it was last looked at. Where no project is noted none is read.
pub proof fn noted_session_is_listed(
    name: Seq<char>,
    project: Seq<char>,
    created: Seq<char>,
    seen: u64,
)
    requires
        starts(name, SESSION_PREFIX@),
        !name.contains('\t'),
        !project.contains('\t'),
        !created.contains('\t'),
    ensures
        listed_line(
            name + seq!['\t'] + (project + seq!['\t'] + (created + seq!['\t'] + decimal(
                seen as nat,
            ))),
        ) == Some(
            ListedSession {
                name,
                project: if project.len() > 0 {
                    Some(project)
                } else {
                    None
                },
                last_seen: Some((seen * 1_000_000_000) as u128),
            },
        ),
{
    let d = decimal(seen as nat);
    decimal_is_bare(seen as nat);
    parse_of_decimal(seen);
    let tail = created + seq!['\t'] + d;
    only_field(d, '\t', 1);
    first_field(created, '\t', d, 2);
    first_field(project, '\t', tail, 3);
    first_field(name, '\t', project + seq!['\t'] + tail, 4);
    let all = fields(name + seq!['\t'] + (project + seq!['\t'] + tail), '\t', 4);
    assert(all == seq![name, project, created, d]);
}

/// The lines of the list that are about managed sessions are those that start as their names do;
/// each gives one session, in order, and no other line does.
pub proof fn list_holds_every_managed_session(all: Seq<Seq<char>>)
    ensures
        listed_lines(all) == all.filter(
            |line: Seq<char>| starts(line, "gh-pilot__"@),
        ).map_values(|line: Seq<char>| listed_line(line)->0),
    decreases all.len(),
{
    reveal(Seq::filter);
    let pick = |line: Seq<char>| starts(line, "gh-pilot__"@);
    let read = |line: Seq<char>| listed_line(line)->0;
    if all.len() == 0 {
        assert(all.filter(pick).map_values(read) == Seq::<ListedSession<Seq<char>>>::empty());
    } else {
        list_holds_every_managed_session(all.drop_last());
        managed_lines_start_alike(all.last());
        let rest = all.drop_last().filter(pick);
        if pick(all.last()) {
            assert(rest.push(all.last()).map_values(read) == rest.map_values(read).push(
                read(all.last()),
            ));
        }
    }
}

proof fn managed_lines_start_alike(line: Seq<char>)
    ensures
        listed_line(line) is Some <==> starts(line, "gh-pilot__"@),
        listed_line(line) is Some ==> listed_line(line)->0.name == line.take(
            position(line, '\t'),
        ),
{
    reveal_strlit("gh-pilot__");
    let n = position(line, '\t');
    position_is_first(line, '\t');
    let first = fields(line, '\t', 4)[0];
    assert(line.take(line.len() as int) == line);
    assert(first == line.take(n));
    if starts(line, "gh-pilot__"@) {
        assert(line.subrange(0, 10) == "gh-pilot__"@);
        if n < 10 {
            assert("gh-pilot__"@[n] == line[n]);
        }
        assert(first.subrange(0, 10) == line.subrange(0, 10));
    }
    if starts(first, "gh-pilot__"@) {
        assert(first.subrange(0, 10) == line.subrange(0, 10));
    }
}

/// What tmux tells of a window is read field by field: when it was last active, whether its command
/// ended, where it is, whether its bell rang, and its title.
pub proof fn window_is_read_field_by_field(
    activity: Seq<char>,
    dead: Seq<char>,
    path: Seq<char>,
    flags: Seq<char>,
    title: Seq<char>,
)
    requires
        !activity.contains('\t') && !dead.contains('\t') && !path.contains('\t')
            && !flags.contains('\t'),
        title.len() > 0 && !is_space(title.last()),
    ensures
        ({
            let window = told_window(
                activity + seq!['\t'] + (dead + seq!['\t'] + (path + seq!['\t'] + (flags + seq![
                    '\t',
                ] + title))),
            );
            &&& window.last_activity == match parsed_u64(activity) {
                Some(seconds) => Some((seconds * 1_000_000_000) as u128),
                None => None,
            }
            &&& window.pane_dead <==> dead == "1"@
            &&& window.has_bell <==> flags.contains('!')
            &&& path.len() > 0 ==> window.current_path == Some(path)
            &&& path.len() == 0 ==> window.current_path is None
            &&& window.title == clean_title(title)
        }),
{
    let d = flags + seq!['\t'] + title;
    let c = path + seq!['\t'] + d;
    let b = dead + seq!['\t'] + c;
    let a = activity + seq!['\t'] + b;
    assert(a.last() == title.last());
    assert(fields(title, '\t', 1) == seq![title]);
    first_field(flags, '\t', title, 2);
    first_field(path, '\t', d, 3);
    first_field(dead, '\t', c, 4);
    first_field(activity, '\t', b, 5);
    assert(trim_end(a) == a);
    assert(fields(a, '\t', 5) == seq![activity, dead, path, flags, title]);
}

/// A session stays with the project that was noted with it, wherever its terminal is; only where
/// none was noted it is where its terminal is, and here where that is not known either. It keeps its
/// name, and when it was active and whether it rings or ended is what its window tells.
pub proof fn listed_session_stays_with_its_project(
    probe: Probe<Seq<char>>,
    cache: Map<Seq<char>, u64>,
    now: u128,
)
    ensures
        ({
            let session = probed_session(probe, cache, now);
            &&& probe.listed.project is Some ==> session.project_dir == probe.listed.project->0
            &&& probe.listed.project is None && probe.window.current_path is Some
                ==> session.project_dir == probe.window.current_path->0
            &&& probe.listed.project is None && probe.window.current_path is None
                ==> session.project_dir == "."@
            &&& session.project_dir == session_dir(probe.listed, probe.window)
            &&& session.name == probe.listed.name
            &&& session.is_current_project == probe.is_current
            &&& !session.is_remote
            &&& session.last_activity == probe.window.last_activity
            &&& session.has_bell == probe.window.has_bell
            &&& session.pane_dead == probe.window.pane_dead
        }),
{
}

/// A session is called by the words of the title of its terminal, unless it has none, or it is its
/// own name or looks like that of a managed session: then by the part of its name that tells its
/// project.
pub proof fn session_is_called_by_its_title(
    probe: Probe<Seq<char>>,
    cache: Map<Seq<char>, u64>,
    now: u128,
)
    ensures
        ({
            let shown = probed_session(probe, cache, now).display_name;
            let name = probe.listed.name;
            match probe.window.title {
                None => shown == shown_name(name),
                Some(title) => {
                    let clean = join(
                        words(
                            title.map_values(
                                |c: char|
                                    if is_control(c) {
                                        ' '
                                    } else {
                                        c
                                    },
                            ),
                        ),
                        " "@,
                    );
                    if clean.len() == 0 || clean == name || starts(clean, "gh-pilot__"@) {
                        shown == shown_name(name)
                    } else {
                        shown == clean
                    }
                },
            }
        }),
{
}

/// What stands between the prefix of a name and its first double underscore is shown, with spaces
/// for dashes; a name without them is shown whole.
pub proof fn name_is_shown_without_its_numbers(project: Seq<char>, rest: Seq<char>)
    requires
        forall|i: int| 0 <= i < project.len() ==> #[trigger] project[i] != '_',
    ensures
        shown_name("gh-pilot__"@ + project + "__"@ + rest) == project.map_values(
            |c: char|
                if c == '-' {
                    ' '
                } else {
                    c
                },
        ),
        shown_name("gh-pilot__"@ + project) == project.map_values(
            |c: char|
                if c == '-' {
                    ' '
                } else {
                    c
                },
        ),
{
    reveal_strlit("__");
    let name = "gh-pilot__"@ + project + "__"@ + rest;
    let prefix = "gh-pilot__"@;
    assert(name.subrange(0, prefix.len() as int) == prefix);
    let tail = name.skip(prefix.len() as int);
    assert(tail == project + "__"@ + rest);
    find_from_is_first(tail, "__"@, 0);
    assert(tail.subrange(project.len() as int, project.len() as int + 2) == "__"@);
    assert(occurs(tail, "__"@, project.len() as int));
    match find(tail, "__"@) {
        Some(n) => {
            if n < project.len() {
                assert(tail.subrange(n, n + 2)[0] == project[n]);
                assert(tail.subrange(n, n + 2)[0] == '_');
            }
            assert(tail.take(n) == project);
        },
        None => {},
    }
    let bare = "gh-pilot__"@ + project;
    assert(bare.subrange(0, prefix.len() as int) == prefix);
    assert(bare.skip(prefix.len() as int) == project);
    find_from_is_first(project, "__"@, 0);
    match find(project, "__"@) {
        Some(n) => {
            assert(project.subrange(n, n + 2)[0] == project[n]);
            assert(project.subrange(n, n + 2)[0] == '_');
        },
        None => {},
    }
}

/// A session whose command ended is idle. Of another one the screen tells what it is doing, and
/// something moved in it where what it shows is not what it showed before, or where it was active in
/// the last four seconds.
pub proof fn listed_session_is_doing_what_its_screen_tells(
    probe: Probe<Seq<char>>,
    cache: Map<Seq<char>, u64>,
    now: u128,
)
    ensures
        ({
            let status = probed_session(probe, cache, now).status;
            let name = probe.listed.name;
            let active = probe.window.last_activity;
            let changed = cache.contains_key(name) && cache[name] != text_hash(
                trim(stripped(probe.content)),
            );
            let recent = active is Some && active->0 <= now && now <= active->0 + 4_000_000_000;
            &&& probe.window.pane_dead ==> status is Idle
            &&& !probe.window.pane_dead ==> status == shown_status(
                stripped(probe.content),
                changed || recent,
            )
        }),
{
}

/// Every session that was found is listed once, by what was known before and what the sessions
/// before it in the list showed.
pub proof fn every_session_is_looked_at(
    probes: Seq<Probe<Seq<char>>>,
    cache: Map<Seq<char>, u64>,
    now: u128,
)
    ensures
        probed_sessions(probes, cache, now).len() == probes.len(),
        forall|i: int|
            0 <= i < probes.len() ==> #[trigger] probed_sessions(probes, cache, now)[i]
                == probed_session(probes[i], cache_after(cache, probes.take(i)), now),
    decreases probes.len(),
{
    if probes.len() > 0 {
        let rest = probes.drop_last();
        every_session_is_looked_at(rest, cache, now);
        assert forall|i: int| 0 <= i < probes.len() implies #[trigger] probed_sessions(
            probes,
            cache,
            now,
        )[i] == probed_session(probes[i], cache_after(cache, probes.take(i)), now) by {
            if i < rest.len() {
                assert(rest.take(i) == probes.take(i));
                assert(rest[i] == probes[i]);
            } else {
                assert(probes.take(i) == rest);
            }
        }
    }
}

/// The session at a place was the last one of its name.
pub open spec fn is_last_of_its_name(probes: Seq<Probe<Seq<char>>>, place: int) -> bool {
    0 <= place < probes.len() && forall|j: int|
        place < j < probes.len() ==> (#[trigger] probes[j]).listed.name
            != probes[place].listed.name
}

/// Once sessions were looked at, what is known of each is the number of what it showed last,
/// nothing where its command ended; of all others it is what was known before.
pub proof fn last_look_is_remembered(
    probes: Seq<Probe<Seq<char>>>,
    cache: Map<Seq<char>, u64>,
    name: Seq<char>,
    place: int,
)
    ensures
        (forall|i: int| 0 <= i < probes.len() ==> (#[trigger] probes[i]).listed.name != name) ==> (
        cache_after(cache, probes).contains_key(name) <==> cache.contains_key(name)) && (
        cache.contains_key(name) ==> cache_after(cache, probes)[name] == cache[name]),
        is_last_of_its_name(probes, place) ==> cache_after(cache, probes).contains_key(
            probes[place].listed.name,
        ) && cache_after(cache, probes)[probes[place].listed.name] == text_hash(
            trim(
                stripped(
                    if probes[place].window.pane_dead {
                        seq![]
                    } else {
                        probes[place].content
                    },
                ),
            ),
        ),
    decreases probes.len(),
{
    reveal_strlit("");
    assert(""@ =~= seq![]);
    if probes.len() > 0 {
        let rest = probes.drop_last();
        let n = probes.len() - 1;
        last_look_is_remembered(rest, cache, name, place);
        if forall|i: int| 0 <= i < probes.len() ==> (#[trigger] probes[i]).listed.name != name {
            assert forall|i: int| 0 <= i < rest.len() implies (#[trigger] rest[i]).listed.name
                != name by {
                assert(rest[i] == probes[i]);
            }
            assert(probes[n].listed.name != name);
        }
        if is_last_of_its_name(probes, place) && place < n {
            assert(rest[place] == probes[place]);
            assert forall|j: int| place < j < rest.len() implies (
            #[trigger] rest[j]).listed.name != rest[place].listed.name by {
                assert(rest[j] == probes[j]);
            }
            assert(probes[n].listed.name != probes[place].listed.name);
        }
    }
}

/// Sessions are listed by what they are doing, those that wait first; of those level in that the
/// last active first, with those behind of which it is not known; then by what they are called. Each
/// is listed once.
pub proof fn sessions_are_listed_in_order(
    found: Seq<ManagedSession<Seq<char>>>,
    listed: Seq<ManagedSession<Seq<char>>>,
    i: int,
    j: int,
)
    requires
        sorted_by(found, listed, session_order()),
        0 <= i < j < listed.len(),
    ensures
        listed.len() == found.len(),
        found.contains(listed[i]),
        status_rank(listed[i].status) <= status_rank(listed[j].status),
        listed[i].status == listed[j].status && listed[j].last_activity is Some
            ==> listed[i].last_activity is Some && listed[i].last_activity->0
            >= listed[j].last_activity->0,
        listed[i].status == listed[j].status && listed[i].last_activity == listed[j].last_activity
            ==> !text_less(listed[j].display_name, listed[i].display_name),
{
    let places = choose|places: Seq<int>|
        crate::order::is_sorting_by(found, listed, session_order(), places);
    assert(listed[i] == found[places[i]]);
    assert(session_order()(listed[i], listed[j]) || !session_order()(listed[j], listed[i]));
    text_less_is_asymmetric(listed[i].display_name, listed[j].display_name);
}

/// A session that is marked as looked at counts as looked at up to its last activity, to the second.
pub proof fn looking_reaches_the_last_activity(last_activity: Option<u128>, now: u128)
    requires
        now / 1_000_000_000 <= u64::MAX,
        last_activity is Some ==> last_activity->0 / 1_000_000_000 <= u64::MAX,
    ensures
        ({
            let time = match last_activity {
                Some(time) => time,
                None => now,
            };
            tmux_time(decimal(seen_second(last_activity, now))) == Some(
                (time - time % 1_000_000_000) as u128,
            )
        }),
{
    let time = match last_activity {
        Some(time) => time,
        None => now,
    };
    parse_of_decimal((time / 1_000_000_000) as u64);
    assert(time as int == 1_000_000_000 * (time as int / 1_000_000_000) + time as int
        % 1_000_000_000);
}

/// The slug of a name that is not too long holds its letters and digits, in their order and with its
/// capitals made small.
pub proof fn slug_holds_the_letters(input: Seq<char>)
    requires
        input.len() <= 32,
    ensures
        slug(input).filter(|c: char| c != '-') == input.filter(
            |c: char| 'a' <= c <= 'z' || 'A' <= c <= 'Z' || '0' <= c <= '9',
        ).map_values(
            |c: char|
                if 'A' <= c <= 'Z' {
                    ((c as u32) + 32) as char
                } else {
                    c
                },
        ),
{
    let d = dashed(input);
    let q = squeezed(d);
    squeezing_keeps_letters(d);
    let a = trim_char_start(q, '-');
    dashes_hold_no_letters(q);
    dashes_hold_no_letters(a);
    let b = trim_char_end(a, '-');
    squeezed_is_no_longer(d);
    trimmed_is_within(q, '-');
    end_trimmed_is_within(a, '-');
    assert(slug(input) == b);
    dashed_keeps_letters(input);
}

proof fn squeezed_is_no_longer(s: Seq<char>)
    ensures
        squeezed(s).len() <= s.len(),
    decreases s.len(),
{
    if s.len() > 0 {
        squeezed_is_no_longer(s.drop_last());
    }
}

proof fn squeezing_keeps_letters(s: Seq<char>)
    ensures
        squeezed(s).filter(|c: char| c != '-') == s.filter(|c: char| c != '-'),
    decreases s.len(),
{
    reveal(Seq::filter);
    if s.len() > 0 {
        squeezing_keeps_letters(s.drop_last());
        let rest = squeezed(s.drop_last());
        assert(rest.push(s.last()).drop_last() == rest);
    }
}

proof fn only_dashes_leave_nothing(s: Seq<char>)
    requires
        forall|i: int| 0 <= i < s.len() ==> s[i] == '-',
    ensures
        s.filter(|c: char| c != '-') == Seq::<char>::empty(),
    decreases s.len(),
{
    reveal(Seq::filter);
    if s.len() > 0 {
        only_dashes_leave_nothing(s.drop_last());
    }
}

proof fn dashes_hold_no_letters(s: Seq<char>)
    ensures
        trim_char_start(s, '-').filter(|c: char| c != '-') == s.filter(|c: char| c != '-'),
        trim_char_end(s, '-').filter(|c: char| c != '-') == s.filter(|c: char| c != '-'),
{
    let solid = |c: char| c != '-';
    ends_lose_a_character(s, '-');
    let tail = trim_char_start(s, '-');
    let head = trim_char_end(s, '-');
    let before = s.take(s.len() - tail.len());
    let behind = s.skip(head.len() as int);
    assert(before + tail == s);
    assert(head + behind == s);
    only_dashes_leave_nothing(before);
    only_dashes_leave_nothing(behind);
    Seq::filter_distributes_over_add(before, tail, solid);
    Seq::filter_distributes_over_add(head, behind, solid);
    assert(Seq::<char>::empty() + tail.filter(solid) == tail.filter(solid));
    assert(head.filter(solid) + Seq::<char>::empty() == head.filter(solid));
}

proof fn dashed_keeps_letters(input: Seq<char>)
    ensures
        dashed(input).filter(|c: char| c != '-') == input.filter(
            |c: char| 'a' <= c <= 'z' || 'A' <= c <= 'Z' || '0' <= c <= '9',
        ).map_values(
            |c: char|
                if 'A' <= c <= 'Z' {
                    ((c as u32) + 32) as char
                } else {
                    c
                },
        ),
    decreases input.len(),
{
    reveal(Seq::filter);
    let solid = |c: char| c != '-';
    let letter = |c: char| 'a' <= c <= 'z' || 'A' <= c <= 'Z' || '0' <= c <= '9';
    let small = |c: char|
        if 'A' <= c <= 'Z' {
            ((c as u32) + 32) as char
        } else {
            c
        };
    if input.len() > 0 {
        let rest = input.drop_last();
        let c = input.last();
        dashed_keeps_letters(rest);
        assert(dashed(input).drop_last() == dashed(rest));
        if letter(c) {
            assert(dashed(input).last() == small(c));
            assert(rest.filter(letter).push(c).map_values(small) == rest.filter(letter).map_values(
                small,
            ).push(small(c)));
        }
    } else {
        assert(dashed(input) == Seq::<char>::empty());
        assert(input.filter(letter).map_values(small) == Seq::<char>::empty());
    }
}

/// A title is shown with its words, where control characters part words as blanks do; there is
/// nothing to show where it has none.
pub proof fn title_keeps_its_words(title: Seq<char>)
    ensures
        ({
            let blanked = title.map_values(
                |c: char|
                    if is_control(c) {
                        ' '
                    } else {
                        c
                    },
            );
            match clean_title(title) {
                Some(clean) => words(clean) == words(blanked) && clean.len() > 0,
                None => words(blanked).len() == 0,
            }
        }),
{
    let plain = without_controls(title);
    let all = words(plain);
    words_are_solid(plain);
    words_of_joined(all);
    reveal_strlit(" ");
    assert(" "@ == seq![' ']);
    assert(plain == title.map_values(
        |c: char|
            if is_control(c) {
                ' '
            } else {
                c
            },
    ));
    if all.len() > 0 {
        assert(all.last().len() > 0);
        assert(join(all, " "@).len() > 0);
    }
}

/// Each session that is to be ended is ended by a run of its own, in the order of the names.
pub proof fn each_session_is_ended(names: Seq<Seq<char>>, i: int)
    requires
        0 <= i < names.len(),
    ensures
        kill_steps(names).len() == names.len(),
        kill_steps(names)[i].args.len() == 3,
        kill_steps(names)[i].args[0] == "kill-session"@,
        kill_steps(names)[i].args[1] == "-t"@,
        kill_steps(names)[i].args[2] == names[i],
{
}

/// What is said of a failed run names what it was for, and then what it said, without white space at
/// its ends.
pub proof fn failure_names_the_run(task: Seq<char>, said: Seq<char>)
    ensures
        failure_text(task, said).take(task.len() as int) == task,
        failure_text(task, said).subrange(task.len() as int, task.len() + 9int) == " failed: "@,
        failure_text(task, said).skip(task.len() + 9int) == trim(said),
{
    reveal_strlit(" failed: ");
    let text = failure_text(task, said);
    let n = task.len() as int;
    assert(text.take(n) == task);
    assert(text.subrange(n, n + 9) == " failed: "@);
    assert(text.skip(n + 9) == trim(said));
}

/// After a run that failed no other is made; after one that went well the next one is, until all
/// were.
pub proof fn next_run_follows<E>(made: usize, count: usize, error: E)
    ensures
        run_after(made, count, Err(error)) == NextRun::Failed(error),
        made < count ==> run_after::<E>(made, count, Ok(())) == NextRun::<E>::Make(made),
        made >= count ==> run_after::<E>(made, count, Ok(())) is Done,
{
}

} // verus!
