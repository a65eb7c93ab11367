//! What a session is doing, as its terminal shows it.
use crate::chars::{alpha, is_alpha};
use crate::foreign::{feed_text, hashed_bytes, lower_case};
use crate::text::{
    chars_of, contains, copy_of, join, joined, lines, lines_of, mentions, same_chars, starts,
    starts_with, string_of, swapped, swapped_of, trim, trim_end_is_head, trim_is_idempotent,
    trim_start, trim_start_is_tail, trimmed, views,
};
use std::collections::hash_map::DefaultHasher;
use std::hash::Hasher;
use vstd::prelude::*;
use vstd::std_specs::hash::DefaultHasherAdditionalSpecFns;

verus! {

/// What a session is doing.
#[derive(Debug, Clone, Copy, PartialEq, Eq, Structural)]
pub enum SessionStatus {
    Waiting,
    Done,
    Busy,
    Idle,
}

/// The word for a status.
pub open spec fn status_label(status: SessionStatus) -> Seq<char> {
    match status {
        SessionStatus::Waiting => "waiting"@,
        SessionStatus::Done => "done"@,
        SessionStatus::Busy => "busy"@,
        SessionStatus::Idle => "idle"@,
    }
}

/// The status that a word names; any other word stands for an idle session.
pub open spec fn labelled_status(label: Seq<char>) -> SessionStatus {
    if label == "waiting"@ {
        SessionStatus::Waiting
    } else if label == "done"@ {
        SessionStatus::Done
    } else if label == "busy"@ {
        SessionStatus::Busy
    } else {
        SessionStatus::Idle
    }
}

/// The place of a status in the order in which sessions are listed.
pub open spec fn status_rank(status: SessionStatus) -> u8 {
    match status {
        SessionStatus::Waiting => 0,
        SessionStatus::Done => 1,
        SessionStatus::Busy => 2,
        SessionStatus::Idle => 3,
    }
}

impl SessionStatus {
    /// The word for the status.
    pub fn label(self) -> (out: &'static str)
        ensures
            out@ == status_label(self),
    {
        match self {
            SessionStatus::Waiting => "waiting",
            SessionStatus::Done => "done",
            SessionStatus::Busy => "busy",
            SessionStatus::Idle => "idle",
        }
    }

    /// The status that a word names; any other word stands for an idle session.
    pub fn from_label(label: &str) -> (out: Self)
        ensures
            out == labelled_status(label@),
    {
        let word = chars_of(label);
        if same_chars(&word, &chars_of("waiting")) {
            SessionStatus::Waiting
        } else if same_chars(&word, &chars_of("done")) {
            SessionStatus::Done
        } else if same_chars(&word, &chars_of("busy")) {
            SessionStatus::Busy
        } else {
            SessionStatus::Idle
        }
    }

    /// The place of the status in the order in which sessions are listed.
    pub fn sort_rank(self) -> (rank: u8)
        ensures
            rank == status_rank(self),
    {
        match self {
            SessionStatus::Waiting => 0,
            SessionStatus::Done => 1,
            SessionStatus::Busy => 2,
            SessionStatus::Idle => 3,
        }
    }
}

/// The word for a status names that status.
pub proof fn label_names_its_status(status: SessionStatus)
    ensures
        labelled_status(status_label(status)) == status,
{
    reveal_strlit("waiting");
    reveal_strlit("done");
    reveal_strlit("busy");
    reveal_strlit("idle");
    assert("done"@[0] == 'd' && "busy"@[0] == 'b' && "idle"@[0] == 'i');
}

/// Two statuses with one rank are the same.
pub proof fn ranks_tell_statuses_apart(a: SessionStatus, b: SessionStatus)
    ensures
        status_rank(a) == status_rank(b) ==> a == b,
{
}

// ---------------------------------------------------------------------------
// Terminal control sequences
// ---------------------------------------------------------------------------
/// The character that starts a control sequence.
pub const ESC: char = '\u{1b}';

/// The character that rings the bell; it ends an operating system command.
pub const BELL: char = '\u{7}';

/// What follows the first ASCII letter of `s`; nothing where there is none.
pub open spec fn after_letter(s: Seq<char>) -> Seq<char>
    decreases s.len(),
{
    if s.len() == 0 {
        s
    } else if is_alpha(s[0]) {
        s.skip(1)
    } else {
        after_letter(s.skip(1))
    }
}

/// What follows the end of an operating system command that runs on in `s`: a bell, or an escape
/// and a backslash. Nothing where it has no end.
pub open spec fn after_command(s: Seq<char>) -> Seq<char>
    decreases s.len(),
{
    if s.len() == 0 {
        s
    } else if s[0] == BELL {
        s.skip(1)
    } else if s.len() > 1 && s[0] == ESC && s[1] == '\\' {
        s.skip(2)
    } else {
        after_command(s.skip(1))
    }
}

/// What follows the control sequence at the start of `s`, where `s` starts with an escape.
pub open spec fn after_escape(s: Seq<char>) -> Seq<char> {
    if s.len() < 2 {
        seq![]
    } else if s[1] == ']' {
        after_command(s.skip(2))
    } else if s[1] == '[' || s[1] as u32 >= 0x80 {
        after_letter(s.skip(2))
    } else {
        s.skip(2)
    }
}

/// `c` can follow an escape: it is ASCII, or the second byte of its UTF-8 form is 0x9b, the
/// one-byte control sequence introducer.
pub open spec fn may_follow_escape(c: char) -> bool {
    let n = c as u32;
    if n < 0x80 {
        true
    } else if n < 0x800 {
        n % 64 == 0x1b
    } else if n < 0x10000 {
        (n / 64) % 64 == 0x1b
    } else {
        (n / 4096) % 64 == 0x1b
    }
}

/// The sequences at the start of a text are shorter than the text.
pub proof fn sequences_end(s: Seq<char>)
    ensures
        after_letter(s).len() <= s.len(),
        after_command(s).len() <= s.len(),
    decreases s.len(),
{
    if s.len() > 0 {
        sequences_end(s.skip(1));
    }
}

/// What follows an escape sequence is shorter than the text that starts with it.
pub proof fn escape_is_consumed(s: Seq<char>)
    requires
        s.len() > 0,
    ensures
        after_escape(s).len() < s.len(),
{
    if s.len() >= 2 {
        sequences_end(s.skip(2));
    }
}

/// The text without its terminal control sequences.
pub open spec fn stripped(s: Seq<char>) -> Seq<char>
    decreases s.len(),
{
    if s.len() == 0 {
        seq![]
    } else if s[0] == ESC {
        proof {
            escape_is_consumed(s);
        }
        stripped(after_escape(s))
    } else {
        seq![s[0]] + stripped(s.skip(1))
    }
}

/// Every escape outside a control sequence is followed by a character that can follow one, or ends
/// the text.
pub open spec fn is_strippable(s: Seq<char>) -> bool
    decreases s.len(),
{
    if s.len() == 0 {
        true
    } else if s[0] == ESC {
        proof {
            escape_is_consumed(s);
        }
        (s.len() > 1 ==> may_follow_escape(s[1])) && is_strippable(after_escape(s))
    } else {
        is_strippable(s.skip(1))
    }
}

/// No escape is left in a text whose control sequences were taken out.
pub proof fn stripped_has_no_escape(s: Seq<char>)
    ensures
        forall|i: int| 0 <= i < stripped(s).len() ==> #[trigger] stripped(s)[i] != ESC,
        stripped(s).len() <= s.len(),
    decreases s.len(),
{
    if s.len() > 0 {
        if s[0] == ESC {
            escape_is_consumed(s);
            stripped_has_no_escape(after_escape(s));
        } else {
            stripped_has_no_escape(s.skip(1));
        }
    }
}

/// A text without escapes stays as it is.
pub proof fn plain_text_is_kept(s: Seq<char>)
    requires
        forall|i: int| 0 <= i < s.len() ==> #[trigger] s[i] != ESC,
    ensures
        stripped(s) == s,
        is_strippable(s),
    decreases s.len(),
{
    if s.len() > 0 {
        plain_text_is_kept(s.skip(1));
        assert(s == seq![s[0]] + s.skip(1));
    }
}

/// Taking control sequences out a second time changes nothing.
pub proof fn stripping_is_idempotent(s: Seq<char>)
    ensures
        stripped(stripped(s)) == stripped(s),
        is_strippable(stripped(s)),
{
    stripped_has_no_escape(s);
    plain_text_is_kept(stripped(s));
}

fn letter_end(s: &[char], from: usize) -> (next: usize)
    requires
        from <= s@.len(),
    ensures
        from <= next <= s@.len(),
        s@.skip(next as int) == after_letter(s@.skip(from as int)),
{
    let mut i: usize = from;
    while i < s.len()
        invariant
            from <= i <= s.len(),
            after_letter(s@.skip(from as int)) == after_letter(s@.skip(i as int)),
        decreases s.len() - i,
    {
        assert(s@.skip(i as int)[0] == s@[i as int]);
        assert(s@.skip(i as int).skip(1) == s@.skip(i + 1));
        if alpha(s[i]) {
            return i + 1;
        }
        i += 1;
    }
    i
}

fn command_end(s: &[char], from: usize) -> (next: usize)
    requires
        from <= s@.len(),
    ensures
        from <= next <= s@.len(),
        s@.skip(next as int) == after_command(s@.skip(from as int)),
{
    let mut i: usize = from;
    while i < s.len()
        invariant
            from <= i <= s.len(),
            after_command(s@.skip(from as int)) == after_command(s@.skip(i as int)),
        decreases s.len() - i,
    {
        let ghost rest = s@.skip(i as int);
        assert(rest[0] == s@[i as int]);
        assert(rest.skip(1) == s@.skip(i + 1));
        if s[i] == BELL {
            return i + 1;
        }
        if i + 1 < s.len() && s[i] == ESC && s[i + 1] == '\\' {
            assert(rest[1] == s@[i + 1]);
            assert(rest.skip(2) == s@.skip(i + 2));
            return i + 2;
        }
        i += 1;
    }
    i
}

fn escape_end(s: &[char], from: usize) -> (next: usize)
    requires
        from < s@.len(),
    ensures
        from < next <= s@.len(),
        s@.skip(next as int) == after_escape(s@.skip(from as int)),
{
    let ghost rest = s@.skip(from as int);
    if s.len() - from < 2 {
        assert(s@.skip(s@.len() as int) == Seq::<char>::empty());
        return s.len();
    }
    assert(rest[1] == s@[from + 1]);
    assert(rest.skip(2) == s@.skip(from + 2));
    let c = s[from + 1];
    if c == ']' {
        command_end(s, from + 2)
    } else if c == '[' || c as u32 >= 0x80 {
        letter_end(s, from + 2)
    } else {
        from + 2
    }
}

fn follows_escape(c: char) -> (yes: bool)
    ensures
        yes == may_follow_escape(c),
{
    let n: u32 = c as u32;
    if n < 0x80 {
        true
    } else if n < 0x800 {
        n % 64 == 0x1b
    } else if n < 0x10000 {
        (n / 64) % 64 == 0x1b
    } else {
        (n / 4096) % 64 == 0x1b
    }
}

/// Whether the control sequences of a text can be taken out.
pub fn can_strip(content: &str) -> (yes: bool)
    ensures
        yes == is_strippable(content@),
{
    let s = chars_of(content);
    let mut i: usize = 0;
    assert(s@.skip(0) == s@);
    while i < s.len()
        invariant
            i <= s.len(),
            s@ == content@,
            is_strippable(s@) == is_strippable(s@.skip(i as int)),
        decreases s.len() - i,
    {
        let ghost rest = s@.skip(i as int);
        assert(rest[0] == s@[i as int]);
        assert(rest.skip(1) == s@.skip(i + 1));
        if s[i] == ESC {
            if i + 1 < s.len() {
                assert(rest[1] == s@[i + 1]);
                if !follows_escape(s[i + 1]) {
                    return false;
                }
            }
            i = escape_end(&s, i);
        } else {
            i += 1;
        }
    }
    true
}

fn strip_chars(s: &[char]) -> (out: Vec<char>)
    ensures
        out@ == stripped(s@),
{
    let mut out: Vec<char> = Vec::new();
    let mut i: usize = 0;
    assert(s@.skip(0) == s@);
    while i < s.len()
        invariant
            i <= s.len(),
            out@ + stripped(s@.skip(i as int)) == stripped(s@),
        decreases s.len() - i,
    {
        let ghost rest = s@.skip(i as int);
        assert(rest[0] == s@[i as int]);
        assert(rest.skip(1) == s@.skip(i + 1));
        if s[i] == ESC {
            i = escape_end(s, i);
        } else {
            let ghost before = out@;
            out.push(s[i]);
            assert(out@ + stripped(s@.skip(i + 1)) == before + stripped(rest));
            i += 1;
        }
    }
    assert(out@ + Seq::<char>::empty() == out@);
    out
}

/// The text without its terminal control sequences.
pub fn strip_ansi(content: &str) -> (out: String)
    requires
        is_strippable(content@),
    ensures
        out@ == stripped(content@),
{
    string_of(&strip_chars(&chars_of(content)))
}

/// The number that a text hashes to.
pub open spec fn text_hash(text: Seq<char>) -> u64 {
    DefaultHasher::spec_finish(hashed_bytes(text))
}

/// A number that tells what a terminal shows apart from what it showed before: control sequences
/// and white space at either end do not count.
pub fn content_hash(content: &str) -> (out: u64)
    requires
        is_strippable(content@),
    ensures
        out == text_hash(trim(stripped(content@))),
{
    let mut hasher = DefaultHasher::new();
    let clean = strip_chars(&chars_of(content));
    let text = string_of(trimmed(&clean));
    feed_text(&text, &mut hasher);
    assert(hasher@ == hashed_bytes(text@));
    hasher.finish()
}

/// What a text hashes to depends only on what is left of it without control sequences and without
/// white space at its ends.
pub proof fn hash_ignores_control_sequences(a: Seq<char>)
    ensures
        text_hash(trim(stripped(trim(stripped(a))))) == text_hash(trim(stripped(a))),
{
    stripped_has_no_escape(a);
    let s = stripped(a);
    trim_start_is_tail(s);
    trim_end_is_head(trim_start(s));
    let t = trim(s);
    assert forall|i: int| 0 <= i < t.len() implies #[trigger] t[i] != ESC by {
        let k = s.len() - trim_start(s).len();
        assert(trim_start(s)[i] == s[i + k]);
    }
    plain_text_is_kept(t);
    trim_is_idempotent(s);
}

// ---------------------------------------------------------------------------
// Reading the screen
// ---------------------------------------------------------------------------
/// The lines of a text that hold more than white space, each without the white space at its ends.
pub open spec fn full_lines(all: Seq<Seq<char>>) -> Seq<Seq<char>>
    decreases all.len(),
{
    if all.len() == 0 {
        seq![]
    } else {
        let rest = full_lines(all.drop_last());
        if trim(all.last()).len() > 0 {
            rest.push(trim(all.last()))
        } else {
            rest
        }
    }
}

/// The last `count` lines of a text that hold more than white space.
pub open spec fn recent_lines(s: Seq<char>, count: int) -> Seq<Seq<char>> {
    let all = full_lines(lines(s));
    if all.len() <= count {
        all
    } else {
        all.skip(all.len() - count)
    }
}

/// The last `count` lines of a text that hold more than white space, as one text.
pub open spec fn recent_text(s: Seq<char>, count: int) -> Seq<char> {
    join(recent_lines(s, count), "\n"@)
}

/// The phrases, in small letters, with which a session says that it is at work.
pub open spec fn has_busy_phrase(s: Seq<char>) -> bool {
    ||| mentions(s, "ctrl+c to interrupt"@)
    ||| mentions(s, "esc to interrupt"@)
    ||| mentions(s, "thinking..."@)
    ||| mentions(s, "thinking…"@)
    ||| mentions(s, "working..."@)
    ||| mentions(s, "working…"@)
    ||| mentions(s, "generating..."@)
    ||| mentions(s, "generating…"@)
    ||| mentions(s, "analyzing..."@)
    ||| mentions(s, "analyzing…"@)
    ||| mentions(s, "running tool"@)
    ||| mentions(s, "running command"@)
    ||| mentions(s, "calling tool"@)
    ||| mentions(s, "waiting for tool"@)
    ||| mentions(s, "streaming response"@)
    ||| mentions(s, "searching files"@)
    ||| mentions(s, "reading file"@)
    ||| mentions(s, "editing file"@)
    ||| mentions(s, "running tests"@)
}

/// `c` is a frame of a spinner.
pub open spec fn is_spinner(c: char) -> bool {
    c == '⠋' || c == '⠙' || c == '⠹' || c == '⠸' || c == '⠼' || c == '⠴' || c == '⠦' || c == '⠧'
        || c == '⠇' || c == '⠏' || c == '✳' || c == '✽' || c == '✶' || c == '✢' || c == '⣾' || c
        == '⣽' || c == '⣻' || c == '⢿' || c == '⡿' || c == '⣟' || c == '⣯' || c == '⣷'
}

/// A spinner turns somewhere in `s`.
pub open spec fn has_spinner(s: Seq<char>) -> bool {
    exists|i: int| 0 <= i < s.len() && is_spinner(#[trigger] s[i])
}

/// The phrases, in small letters, with which a session asks for a decision.
pub open spec fn has_question_phrase(s: Seq<char>) -> bool {
    ||| mentions(s, "waiting for input"@)
    ||| mentions(s, "waiting for user"@)
    ||| mentions(s, "action required"@)
    ||| mentions(s, "do you want"@)
    ||| mentions(s, "allow once"@)
    ||| mentions(s, "allow always"@)
    ||| mentions(s, "run this command"@)
    ||| mentions(s, "continue?"@)
    ||| mentions(s, "proceed?"@)
    ||| mentions(s, "(y/n)"@)
    ||| mentions(s, "[y/n]"@)
    ||| mentions(s, "yes/no"@)
    ||| mentions(s, "use arrow keys"@)
}

/// The phrases, in small letters, with which a session asks for a prompt.
pub open spec fn has_invitation(s: Seq<char>) -> bool {
    ||| mentions(s, "how can i help"@)
    ||| mentions(s, "what can i help"@)
    ||| mentions(s, "what would you like"@)
    ||| mentions(s, "ask anything"@)
    ||| mentions(s, "enter a prompt"@)
    ||| mentions(s, "type your message"@)
    ||| mentions(s, "press enter"@)
}

/// `line` is a prompt, or starts with one.
pub open spec fn is_prompt(line: Seq<char>) -> bool {
    ||| line == ">"@
    ||| line == "?"@
    ||| line == "❯"@
    ||| line == "›"@
    ||| starts(line, "> "@)
    ||| starts(line, "❯ "@)
    ||| starts(line, "› "@)
}

/// A session at work shows it in its recent lines, taken as `recent` and in small letters.
pub open spec fn shows_work(recent: Seq<char>, small: Seq<char>) -> bool {
    has_busy_phrase(small) || has_spinner(recent)
}

/// A session that waits for a prompt shows it in its last line, taken as `line` and in small
/// letters.
pub open spec fn shows_prompt(line: Seq<char>, small: Seq<char>) -> bool {
    has_invitation(small) || is_prompt(line)
}

/// The last line of a text that holds more than white space, with plain spaces.
pub open spec fn last_line(s: Seq<char>) -> Seq<char> {
    swapped(recent_lines(s, 12).last(), '\u{a0}', ' ')
}

/// The text shows that the session is at work.
pub open spec fn is_at_work(clean: Seq<char>) -> bool {
    shows_work(recent_text(clean, 15), lower_case(recent_text(clean, 15)))
}

/// The text asks for a decision.
pub open spec fn asks_for_attention(clean: Seq<char>) -> bool {
    has_question_phrase(lower_case(recent_text(clean, 12)))
}

/// The text asks for a prompt.
pub open spec fn asks_for_input(clean: Seq<char>) -> bool {
    recent_lines(clean, 12).len() > 0 && shows_prompt(
        last_line(clean),
        lower_case(last_line(clean)),
    )
}

/// What a session is doing that shows `clean`, a text without control sequences. `moved` says that
/// something happened in it lately.
pub open spec fn shown_status(clean: Seq<char>, moved: bool) -> SessionStatus {
    if is_at_work(clean) {
        SessionStatus::Busy
    } else if asks_for_attention(clean) || asks_for_input(clean) {
        SessionStatus::Waiting
    } else if moved {
        SessionStatus::Busy
    } else {
        SessionStatus::Idle
    }
}

/// Whether recent lines, taken as `recent` and in small letters, show a session at work.
pub fn work_shown(recent: &str, small: &str) -> (yes: bool)
    ensures
        yes == shows_work(recent@, small@),
{
    let s = chars_of(small);
    if contains(&s, "ctrl+c to interrupt") || contains(&s, "esc to interrupt") || contains(
        &s,
        "thinking...",
    ) || contains(&s, "thinking…") || contains(&s, "working...") || contains(&s, "working…")
        || contains(&s, "generating...") || contains(&s, "generating…") || contains(
        &s,
        "analyzing...",
    ) || contains(&s, "analyzing…") || contains(&s, "running tool") || contains(
        &s,
        "running command",
    ) || contains(&s, "calling tool") || contains(&s, "waiting for tool") || contains(
        &s,
        "streaming response",
    ) || contains(&s, "searching files") || contains(&s, "reading file") || contains(
        &s,
        "editing file",
    ) || contains(&s, "running tests") {
        return true;
    }
    let r = chars_of(recent);
    let mut i: usize = 0;
    while i < r.len()
        invariant
            i <= r.len(),
            r@ == recent@,
            forall|j: int| 0 <= j < i ==> !is_spinner(#[trigger] r@[j]),
        decreases r.len() - i,
    {
        if spinner(r[i]) {
            assert(is_spinner(recent@[i as int]));
            return true;
        }
        i += 1;
    }
    false
}

fn spinner(c: char) -> (yes: bool)
    ensures
        yes == is_spinner(c),
{
    c == '⠋' || c == '⠙' || c == '⠹' || c == '⠸' || c == '⠼' || c == '⠴' || c == '⠦' || c == '⠧'
        || c == '⠇' || c == '⠏' || c == '✳' || c == '✽' || c == '✶' || c == '✢' || c == '⣾' || c
        == '⣽' || c == '⣻' || c == '⢿' || c == '⡿' || c == '⣟' || c == '⣯' || c == '⣷'
}

/// Whether recent lines in small letters ask for a decision.
pub fn question_shown(small: &str) -> (yes: bool)
    ensures
        yes == has_question_phrase(small@),
{
    let s = chars_of(small);
    contains(&s, "waiting for input") || contains(&s, "waiting for user") || contains(
        &s,
        "action required",
    ) || contains(&s, "do you want") || contains(&s, "allow once") || contains(&s, "allow always")
        || contains(&s, "run this command") || contains(&s, "continue?") || contains(&s, "proceed?")
        || contains(&s, "(y/n)") || contains(&s, "[y/n]") || contains(&s, "yes/no") || contains(
        &s,
        "use arrow keys",
    )
}

/// Whether a last line, taken as `line` and in small letters, asks for a prompt.
pub fn prompt_shown(line: &str, small: &str) -> (yes: bool)
    ensures
        yes == shows_prompt(line@, small@),
{
    let s = chars_of(small);
    if contains(&s, "how can i help") || contains(&s, "what can i help") || contains(
        &s,
        "what would you like",
    ) || contains(&s, "ask anything") || contains(&s, "enter a prompt") || contains(
        &s,
        "type your message",
    ) || contains(&s, "press enter") {
        return true;
    }
    let l = chars_of(line);
    same_chars(&l, &chars_of(">")) || same_chars(&l, &chars_of("?")) || same_chars(
        &l,
        &chars_of("❯"),
    ) || same_chars(&l, &chars_of("›")) || starts_with(&l, "> ") || starts_with(&l, "❯ ")
        || starts_with(&l, "› ")
}

fn recent_non_empty_lines(content: &[char], count: usize) -> (out: Vec<Vec<char>>)
    ensures
        views(out@) == recent_lines(content@, count as int),
{
    let all = lines_of(content);
    let mut full: Vec<Vec<char>> = Vec::new();
    let mut i: usize = 0;
    while i < all.len()
        invariant
            i <= all.len(),
            views(all@) == lines(content@),
            views(full@) == full_lines(lines(content@).take(i as int)),
        decreases all.len() - i,
    {
        let ghost taken = lines(content@).take(i + 1);
        assert(taken.drop_last() == lines(content@).take(i as int));
        assert(taken.last() == views(all@)[i as int]);
        let line = trimmed(&all[i]);
        if line.len() > 0 {
            let ghost before = full@;
            full.push(copy_of(line));
            assert(views(full@) == views(before).push(line@));
        }
        i += 1;
    }
    assert(lines(content@).take(all.len() as int) == lines(content@));
    if full.len() <= count {
        return full;
    }
    let mut out: Vec<Vec<char>> = Vec::new();
    let skipped: usize = full.len() - count;
    let mut i: usize = skipped;
    while i < full.len()
        invariant
            skipped <= i <= full.len(),
            views(out@) == views(full@).subrange(skipped as int, i as int),
        decreases full.len() - i,
    {
        let ghost before = out@;
        out.push(copy_of(&full[i]));
        assert(views(out@) == views(before).push(full@[i as int]@));
        i += 1;
    }
    assert(views(full@).subrange(skipped as int, full@.len() as int) == views(full@).skip(
        skipped as int,
    ));
    out
}

fn has_busy_indicator(content: &[char]) -> (yes: bool)
    ensures
        yes == is_at_work(content@),
{
    let recent = string_of(&joined(&recent_non_empty_lines(content, 15), "\n"));
    let small = recent.to_lowercase();
    work_shown(&recent, &small)
}

fn has_attention_prompt(content: &[char]) -> (yes: bool)
    ensures
        yes == asks_for_attention(content@),
{
    let recent = string_of(&joined(&recent_non_empty_lines(content, 12), "\n"));
    let small = recent.to_lowercase();
    question_shown(&small)
}

fn has_input_prompt(content: &[char]) -> (yes: bool)
    ensures
        yes == asks_for_input(content@),
{
    let recent = recent_non_empty_lines(content, 12);
    if recent.len() == 0 {
        return false;
    }
    let last = &recent[recent.len() - 1];
    assert(last@ == views(recent@).last());
    let line = string_of(&swapped_of(last, '\u{a0}', ' '));
    let small = line.to_lowercase();
    prompt_shown(&line, &small)
}

/// What a session is doing, by what its terminal shows and by whether something happened in it
/// lately: its content changed, or it was active. Whether it was looked at makes no difference.
pub fn detect_status(
    content: &str,
    content_changed: bool,
    activity_recent: bool,
    _seen: bool,
) -> (out: SessionStatus)
    requires
        is_strippable(content@),
    ensures
        out == shown_status(stripped(content@), content_changed || activity_recent),
{
    let clean = strip_chars(&chars_of(content));
    if has_busy_indicator(&clean) {
        return SessionStatus::Busy;
    }
    if has_attention_prompt(&clean) {
        return SessionStatus::Waiting;
    }
    if has_input_prompt(&clean) {
        return SessionStatus::Waiting;
    }
    if content_changed || activity_recent {
        return SessionStatus::Busy;
    }
    SessionStatus::Idle
}

/// A session that shows it is at work is busy, whatever else it shows.
pub proof fn work_outranks_prompts(clean: Seq<char>, moved: bool)
    ensures
        is_at_work(clean) ==> shown_status(clean, moved) == SessionStatus::Busy,
        shown_status(clean, moved) != SessionStatus::Done,
        shown_status(clean, moved) == SessionStatus::Waiting ==> shown_status(clean, !moved)
            == SessionStatus::Waiting,
{
}

// ---------------------------------------------------------------------------
// What a screen means
// ---------------------------------------------------------------------------
/// What a session at work says, in small letters.
pub open spec fn work_phrases() -> Seq<Seq<char>> {
    seq![
        "ctrl+c to interrupt"@,
        "esc to interrupt"@,
        "thinking..."@,
        "thinking…"@,
        "working..."@,
        "working…"@,
        "generating..."@,
        "generating…"@,
        "analyzing..."@,
        "analyzing…"@,
        "running tool"@,
        "running command"@,
        "calling tool"@,
        "waiting for tool"@,
        "streaming response"@,
        "searching files"@,
        "reading file"@,
        "editing file"@,
        "running tests"@,
    ]
}

/// What a session says that waits for a decision, in small letters.
pub open spec fn question_phrases() -> Seq<Seq<char>> {
    seq![
        "waiting for input"@,
        "waiting for user"@,
        "action required"@,
        "do you want"@,
        "allow once"@,
        "allow always"@,
        "run this command"@,
        "continue?"@,
        "proceed?"@,
        "(y/n)"@,
        "[y/n]"@,
        "yes/no"@,
        "use arrow keys"@,
    ]
}

/// What a session says that waits for a prompt, in small letters.
pub open spec fn invitations() -> Seq<Seq<char>> {
    seq![
        "how can i help"@,
        "what can i help"@,
        "what would you like"@,
        "ask anything"@,
        "enter a prompt"@,
        "type your message"@,
        "press enter"@,
    ]
}

/// The frames of the spinners of a session at work.
pub open spec fn spinner_frames() -> Seq<char> {
    seq![
        '⠋',
        '⠙',
        '⠹',
        '⠸',
        '⠼',
        '⠴',
        '⠦',
        '⠧',
        '⠇',
        '⠏',
        '✳',
        '✽',
        '✶',
        '✢',
        '⣾',
        '⣽',
        '⣻',
        '⢿',
        '⡿',
        '⣟',
        '⣯',
        '⣷',
    ]
}

/// One of the phrases stands in a text.
pub open spec fn says_one_of(s: Seq<char>, phrases: Seq<Seq<char>>) -> bool {
    exists|i: int| 0 <= i < phrases.len() && mentions(s, #[trigger] phrases[i])
}

/// The last lines of a text, at most `count`, of those that hold more than white space, each
/// without the white space around it.
pub open spec fn last_full_lines(s: Seq<char>, count: int) -> Seq<Seq<char>> {
    let full = lines(s).map_values(|line: Seq<char>| trim(line)).filter(
        |line: Seq<char>| line.len() > 0,
    );
    full.skip(
        if full.len() > count {
            full.len() - count
        } else {
            0
        },
    )
}

/// The recent lines of a text are its last full ones.
pub proof fn recent_lines_are_the_last_full_ones(s: Seq<char>, count: int)
    requires
        count >= 0,
    ensures
        recent_lines(s, count) == last_full_lines(s, count),
        recent_lines(s, count).len() <= count,
{
    let all = lines(s);
    full_lines_are_a_filter(all);
    let full = full_lines(all);
    assert(full.skip(0) == full);
}

proof fn full_lines_are_a_filter(all: Seq<Seq<char>>)
    ensures
        full_lines(all) == all.map_values(|line: Seq<char>| trim(line)).filter(
            |line: Seq<char>| line.len() > 0,
        ),
    decreases all.len(),
{
    reveal(Seq::filter);
    let f = |line: Seq<char>| trim(line);
    if all.len() > 0 {
        full_lines_are_a_filter(all.drop_last());
        assert(all.map_values(f).drop_last() == all.drop_last().map_values(f));
        assert(all.map_values(f).last() == trim(all.last()));
    }
}

/// The session shows that it is at work, in its last fifteen full lines.
pub open spec fn work_is_visible(clean: Seq<char>) -> bool {
    let recent = join(last_full_lines(clean, 15), "\n"@);
    says_one_of(lower_case(recent), work_phrases()) || exists|i: int|
        0 <= i < recent.len() && spinner_frames().contains(#[trigger] recent[i])
}

/// The session waits for a decision, by its last twelve full lines.
pub open spec fn question_is_visible(clean: Seq<char>) -> bool {
    says_one_of(lower_case(join(last_full_lines(clean, 12), "\n"@)), question_phrases())
}

/// The session waits for a prompt, by its last full line.
pub open spec fn prompt_is_visible(clean: Seq<char>) -> bool {
    let recent = last_full_lines(clean, 12);
    recent.len() > 0 && ({
        let line = recent.last().map_values(
            |c: char|
                if c == '\u{a0}' {
                    ' '
                } else {
                    c
                },
        );
        ||| says_one_of(lower_case(line), invitations())
        ||| line.len() == 1 && (line[0] == '>' || line[0] == '?' || line[0] == '❯' || line[0]
            == '›')
        ||| line.len() > 1 && line[1] == ' ' && (line[0] == '>' || line[0] == '❯' || line[0]
            == '›')
    })
}

/// A session that shows that it is at work is busy. One that does not, and asks for a decision or
/// for a prompt, waits, whether or not something moved lately. Of the others those are busy in which
/// something moved, and the rest are idle.
pub proof fn screen_tells_what_a_session_is_doing(clean: Seq<char>, moved: bool)
    ensures
        shown_status(clean, moved) is Waiting <==> !work_is_visible(clean) && (question_is_visible(
            clean,
        ) || prompt_is_visible(clean)),
        shown_status(clean, moved) is Busy <==> work_is_visible(clean) || (moved
            && !question_is_visible(clean) && !prompt_is_visible(clean)),
        shown_status(clean, moved) is Idle <==> !work_is_visible(clean) && !moved
            && !question_is_visible(clean) && !prompt_is_visible(clean),
{
    recent_lines_are_the_last_full_ones(clean, 15);
    recent_lines_are_the_last_full_ones(clean, 12);
    let recent = recent_text(clean, 15);
    work_is_said(lower_case(recent));
    spinners_are_frames();
    question_is_said(lower_case(recent_text(clean, 12)));
    if recent_lines(clean, 12).len() > 0 {
        let line = last_line(clean);
        invitation_is_said(lower_case(line));
        prompts_are_marks(line);
        assert(line == last_full_lines(clean, 12).last().map_values(
            |c: char|
                if c == '\u{a0}' {
                    ' '
                } else {
                    c
                },
        ));
    }
    assert(has_spinner(recent) == exists|i: int|
        0 <= i < recent.len() && spinner_frames().contains(#[trigger] recent[i]));
}

proof fn work_is_said(s: Seq<char>)
    ensures
        has_busy_phrase(s) == says_one_of(s, work_phrases()),
{
    let all = work_phrases();
    assert(all[0] == "ctrl+c to interrupt"@);
    assert(all[1] == "esc to interrupt"@);
    assert(all[2] == "thinking..."@);
    assert(all[3] == "thinking…"@);
    assert(all[4] == "working..."@);
    assert(all[5] == "working…"@);
    assert(all[6] == "generating..."@);
    assert(all[7] == "generating…"@);
    assert(all[8] == "analyzing..."@);
    assert(all[9] == "analyzing…"@);
    assert(all[10] == "running tool"@);
    assert(all[11] == "running command"@);
    assert(all[12] == "calling tool"@);
    assert(all[13] == "waiting for tool"@);
    assert(all[14] == "streaming response"@);
    assert(all[15] == "searching files"@);
    assert(all[16] == "reading file"@);
    assert(all[17] == "editing file"@);
    assert(all[18] == "running tests"@);
    if says_one_of(s, all) {
        let i = choose|i: int| 0 <= i < all.len() && mentions(s, #[trigger] all[i]);
        assert(mentions(s, all[i]));
    }
}

proof fn question_is_said(s: Seq<char>)
    ensures
        has_question_phrase(s) == says_one_of(s, question_phrases()),
{
    let all = question_phrases();
    assert(all[0] == "waiting for input"@);
    assert(all[1] == "waiting for user"@);
    assert(all[2] == "action required"@);
    assert(all[3] == "do you want"@);
    assert(all[4] == "allow once"@);
    assert(all[5] == "allow always"@);
    assert(all[6] == "run this command"@);
    assert(all[7] == "continue?"@);
    assert(all[8] == "proceed?"@);
    assert(all[9] == "(y/n)"@);
    assert(all[10] == "[y/n]"@);
    assert(all[11] == "yes/no"@);
    assert(all[12] == "use arrow keys"@);
    if says_one_of(s, all) {
        let i = choose|i: int| 0 <= i < all.len() && mentions(s, #[trigger] all[i]);
        assert(mentions(s, all[i]));
    }
}

proof fn invitation_is_said(s: Seq<char>)
    ensures
        has_invitation(s) == says_one_of(s, invitations()),
{
    let all = invitations();
    assert(all[0] == "how can i help"@);
    assert(all[1] == "what can i help"@);
    assert(all[2] == "what would you like"@);
    assert(all[3] == "ask anything"@);
    assert(all[4] == "enter a prompt"@);
    assert(all[5] == "type your message"@);
    assert(all[6] == "press enter"@);
    if says_one_of(s, all) {
        let i = choose|i: int| 0 <= i < all.len() && mentions(s, #[trigger] all[i]);
        assert(mentions(s, all[i]));
    }
}

proof fn spinners_are_frames()
    ensures
        forall|c: char| is_spinner(c) == spinner_frames().contains(c),
{
    let all = spinner_frames();
    assert forall|c: char| is_spinner(c) == all.contains(c) by {
        assert(all[0] == '⠋');
        assert(all[1] == '⠙');
        assert(all[2] == '⠹');
        assert(all[3] == '⠸');
        assert(all[4] == '⠼');
        assert(all[5] == '⠴');
        assert(all[6] == '⠦');
        assert(all[7] == '⠧');
        assert(all[8] == '⠇');
        assert(all[9] == '⠏');
        assert(all[10] == '✳');
        assert(all[11] == '✽');
        assert(all[12] == '✶');
        assert(all[13] == '✢');
        assert(all[14] == '⣾');
        assert(all[15] == '⣽');
        assert(all[16] == '⣻');
        assert(all[17] == '⢿');
        assert(all[18] == '⡿');
        assert(all[19] == '⣟');
        assert(all[20] == '⣯');
        assert(all[21] == '⣷');
        if all.contains(c) {
            let i = choose|i: int| 0 <= i < all.len() && all[i] == c;
            assert(all[i] == c);
        }
    }
}

proof fn prompts_are_marks(line: Seq<char>)
    ensures
        is_prompt(line) <==> {
            ||| line.len() == 1 && (line[0] == '>' || line[0] == '?' || line[0] == '❯' || line[0]
                == '›')
            ||| line.len() > 1 && line[1] == ' ' && (line[0] == '>' || line[0] == '❯' || line[0]
                == '›')
        },
{
    reveal_strlit(">");
    reveal_strlit("?");
    reveal_strlit("❯");
    reveal_strlit("›");
    reveal_strlit("> ");
    reveal_strlit("❯ ");
    reveal_strlit("› ");
    if line.len() == 1 {
        assert(line =~= seq![line[0]]);
        assert(">"@ =~= seq!['>']);
        assert("?"@ =~= seq!['?']);
        assert("❯"@ =~= seq!['❯']);
        assert("›"@ =~= seq!['›']);
    }
    if line.len() > 1 {
        assert(line.subrange(0, 2) =~= seq![line[0], line[1]]);
        assert("> "@ =~= seq!['>', ' ']);
        assert("❯ "@ =~= seq!['❯', ' ']);
        assert("› "@ =~= seq!['›', ' ']);
        assert(seq![line[0], line[1]][0] == line[0] && seq![line[0], line[1]][1] == line[1]);
        assert(seq!['>', ' '][0] == '>' && seq!['>', ' '][1] == ' ');
        assert(seq!['❯', ' '][0] == '❯' && seq!['❯', ' '][1] == ' ');
        assert(seq!['›', ' '][0] == '›' && seq!['›', ' '][1] == ' ');
    }
}

/// What a terminal shows is left: a text before an escape stays. Of an escape, a `[` and what runs
/// to the next letter nothing stays, nor of an escape, a `]` and what runs to a bell or to an escape
/// and a backslash, nor of an escape and another ASCII character.
pub proof fn control_sequences_are_taken_out(
    plain: Seq<char>,
    inner: Seq<char>,
    end: char,
    rest: Seq<char>,
)
    requires
        forall|i: int| 0 <= i < plain.len() ==> #[trigger] plain[i] != ESC,
    ensures
        stripped(plain + rest) == plain + stripped(rest),
        (forall|i: int| 0 <= i < inner.len() ==> !is_alpha(#[trigger] inner[i])) && is_alpha(end)
            ==> stripped(seq![ESC, '['] + inner + seq![end] + rest) == stripped(rest),
        (forall|i: int| 0 <= i < inner.len() ==> #[trigger] inner[i] != ESC && inner[i] != BELL)
            ==> stripped(seq![ESC, ']'] + inner + seq![BELL] + rest) == stripped(rest) && stripped(
            seq![ESC, ']'] + inner + seq![ESC, '\\'] + rest,
        ) == stripped(rest),
        end != '[' && end != ']' && (end as u32) < 0x80 ==> stripped(seq![ESC, end] + rest)
            == stripped(rest),
{
    plain_start_stays(plain, rest);
    if (forall|i: int| 0 <= i < inner.len() ==> !is_alpha(#[trigger] inner[i])) && is_alpha(end) {
        let s = seq![ESC, '['] + inner + seq![end] + rest;
        assert(s.skip(2) == inner + seq![end] + rest);
        letter_ends(inner, end, rest);
    }
    if forall|i: int| 0 <= i < inner.len() ==> #[trigger] inner[i] != ESC && inner[i] != BELL {
        let s = seq![ESC, ']'] + inner + seq![BELL] + rest;
        assert(s.skip(2) == inner + seq![BELL] + rest);
        let t = seq![ESC, ']'] + inner + seq![ESC, '\\'] + rest;
        assert(t.skip(2) == inner + seq![ESC, '\\'] + rest);
        command_ends(inner, rest);
    }
    if end != '[' && end != ']' && (end as u32) < 0x80 {
        assert((seq![ESC, end] + rest).skip(2) == rest);
    }
}

proof fn plain_start_stays(plain: Seq<char>, rest: Seq<char>)
    requires
        forall|i: int| 0 <= i < plain.len() ==> #[trigger] plain[i] != ESC,
    ensures
        stripped(plain + rest) == plain + stripped(rest),
    decreases plain.len(),
{
    if plain.len() == 0 {
        assert(plain + rest == rest);
        assert(plain + stripped(rest) == stripped(rest));
    } else {
        let s = plain + rest;
        assert(s[0] == plain[0]);
        assert(s.skip(1) == plain.skip(1) + rest);
        plain_start_stays(plain.skip(1), rest);
        assert(seq![plain[0]] + (plain.skip(1) + stripped(rest)) == plain + stripped(rest));
    }
}

proof fn letter_ends(inner: Seq<char>, end: char, rest: Seq<char>)
    requires
        forall|i: int| 0 <= i < inner.len() ==> !is_alpha(#[trigger] inner[i]),
        is_alpha(end),
    ensures
        after_letter(inner + seq![end] + rest) == rest,
    decreases inner.len(),
{
    let s = inner + seq![end] + rest;
    if inner.len() == 0 {
        assert(s[0] == end);
        assert(s.skip(1) == rest);
    } else {
        assert(s[0] == inner[0]);
        assert(s.skip(1) == inner.skip(1) + seq![end] + rest);
        letter_ends(inner.skip(1), end, rest);
    }
}

proof fn command_ends(inner: Seq<char>, rest: Seq<char>)
    requires
        forall|i: int| 0 <= i < inner.len() ==> #[trigger] inner[i] != ESC && inner[i] != BELL,
    ensures
        after_command(inner + seq![BELL] + rest) == rest,
        after_command(inner + seq![ESC, '\\'] + rest) == rest,
    decreases inner.len(),
{
    let s = inner + seq![BELL] + rest;
    let t = inner + seq![ESC, '\\'] + rest;
    if inner.len() == 0 {
        assert(s[0] == BELL);
        assert(s.skip(1) == rest);
        assert(t[0] == ESC && t[1] == '\\');
        assert(t.skip(2) == rest);
    } else {
        assert(s[0] == inner[0] && t[0] == inner[0]);
        assert(s.skip(1) == inner.skip(1) + seq![BELL] + rest);
        assert(t.skip(1) == inner.skip(1) + seq![ESC, '\\'] + rest);
        command_ends(inner.skip(1), rest);
    }
}

/// Sessions that wait come first, then those that are done, then the busy and then the idle ones.
pub proof fn waiting_sessions_come_first()
    ensures
        status_rank(SessionStatus::Waiting) < status_rank(SessionStatus::Done),
        status_rank(SessionStatus::Done) < status_rank(SessionStatus::Busy),
        status_rank(SessionStatus::Busy) < status_rank(SessionStatus::Idle),
{
}

/// Each status has a word of its own; a word that is not one of them stands for an idle session.
pub proof fn words_tell_the_status(status: SessionStatus, word: Seq<char>)
    ensures
        status_label(status) == "waiting"@ <==> status is Waiting,
        status_label(status) == "done"@ <==> status is Done,
        status_label(status) == "busy"@ <==> status is Busy,
        status_label(status) == "idle"@ <==> status is Idle,
        labelled_status(word) is Waiting <==> word == "waiting"@,
        labelled_status(word) is Done <==> word == "done"@,
        labelled_status(word) is Busy <==> word == "busy"@,
{
    reveal_strlit("waiting");
    reveal_strlit("done");
    reveal_strlit("busy");
    reveal_strlit("idle");
    assert("waiting"@[0] == 'w' && "done"@[0] == 'd' && "busy"@[0] == 'b' && "idle"@[0] == 'i');
}

} // verus!
