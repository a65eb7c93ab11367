//! The log of a remote task: how much of it is read, and how it is shown.
use crate::chars::{control, is_control};
use crate::foreign::{decode_lossy, lossy_text};
use crate::text::{chars_of, concat, string_of, texts_of, trim, trimmed, views};
use vstd::prelude::*;

verus! {

/// The number of bytes that are read of a log.
pub const REMOTE_LOG_PREVIEW_BYTES: usize = 131072;

/// The number of lines that are read of a log.
pub const REMOTE_LOG_PREVIEW_LINES: usize = 200;

/// The number of line ends in bytes.
pub open spec fn line_ends(bytes: Seq<u8>) -> nat
    decreases bytes.len(),
{
    if bytes.len() == 0 {
        0
    } else {
        line_ends(bytes.drop_last()) + if bytes.last() == 10u8 {
            1nat
        } else {
            0nat
        }
    }
}

/// Nothing more is read behind these bytes.
pub open spec fn is_full(bytes: Seq<u8>) -> bool {
    bytes.len() >= REMOTE_LOG_PREVIEW_BYTES || line_ends(bytes) >= REMOTE_LOG_PREVIEW_LINES
}

/// What is kept once more bytes have come: one by one, until nothing more is read.
pub open spec fn fed(kept: Seq<u8>, more: Seq<u8>) -> Seq<u8>
    decreases more.len(),
{
    if more.len() == 0 {
        kept
    } else {
        let before = fed(kept, more.drop_last());
        if is_full(before) {
            before
        } else {
            before.push(more.last())
        }
    }
}

/// What is kept of a log.
pub open spec fn preview(log: Seq<u8>) -> Seq<u8> {
    fed(seq![], log)
}

/// How a log comes in pieces makes no difference to what is kept of it.
pub proof fn pieces_make_no_difference(kept: Seq<u8>, first: Seq<u8>, second: Seq<u8>)
    ensures
        fed(fed(kept, first), second) == fed(kept, first + second),
    decreases second.len(),
{
    if second.len() == 0 {
        assert(first + second == first);
    } else {
        assert((first + second).drop_last() == first + second.drop_last());
        assert((first + second).last() == second.last());
        pieces_make_no_difference(kept, first, second.drop_last());
    }
}

/// What is kept of a log is a start of it: all of it, or as much as is read, and no shorter start
/// would have been enough. It holds no more bytes and no more lines than the limits say.
pub proof fn preview_is_a_start(log: Seq<u8>)
    ensures
        preview(log).len() <= log.len(),
        preview(log) == log.take(preview(log).len() as int),
        is_full(preview(log)) || preview(log) == log,
        forall|n: int| 0 <= n < preview(log).len() ==> !is_full(#[trigger] log.take(n)),
        preview(log).len() <= REMOTE_LOG_PREVIEW_BYTES,
        line_ends(preview(log)) <= REMOTE_LOG_PREVIEW_LINES,
    decreases log.len(),
{
    if log.len() > 0 {
        let head = log.drop_last();
        let kept = preview(head);
        preview_is_a_start(head);
        assert(fed(seq![], head) == kept);
        assert forall|n: int| 0 <= n <= head.len() implies #[trigger] log.take(n) == head.take(
            n,
        ) by {}
        if is_full(kept) {
            assert(preview(log) == kept);
            assert(kept == log.take(kept.len() as int));
        } else {
            assert(kept == head);
            assert(preview(log) == kept.push(log.last()));
            assert(preview(log) == log);
            assert(log.take(log.len() as int) == log);
            assert(log.take(head.len() as int) == head);
            assert forall|n: int| 0 <= n < preview(log).len() implies !is_full(
                #[trigger] log.take(n),
            ) by {
                if n < head.len() {
                    assert(log.take(n) == head.take(n));
                }
            }
        }
    } else {
        assert(preview(log) == log);
        assert(log.take(0) == log);
    }
}

fn count_line_ends(bytes: &Vec<u8>) -> (n: usize)
    ensures
        n == line_ends(bytes@),
{
    let mut n: usize = 0;
    let mut i: usize = 0;
    while i < bytes.len()
        invariant
            i <= bytes.len(),
            n <= i,
            n == line_ends(bytes@.take(i as int)),
        decreases bytes.len() - i,
    {
        assert(bytes@.take(i + 1).drop_last() == bytes@.take(i as int));
        if bytes[i] == 10u8 {
            n += 1;
        }
        i += 1;
    }
    assert(bytes@.take(bytes@.len() as int) == bytes@);
    n
}

/// What is read of a log, piece by piece.
#[derive(Debug)]
pub struct LogPreview {
    output: Vec<u8>,
}

impl View for LogPreview {
    type V = Seq<u8>;

    closed spec fn view(&self) -> Seq<u8> {
        self.output@
    }
}

impl LogPreview {
    /// Nothing read yet.
    pub fn new() -> (out: LogPreview)
        ensures
            out@ == Seq::<u8>::empty(),
    {
        LogPreview { output: Vec::new() }
    }

    /// Whether nothing more is read.
    pub fn full(&self) -> (yes: bool)
        ensures
            yes == is_full(self@),
    {
        self.output.len() >= REMOTE_LOG_PREVIEW_BYTES || count_line_ends(&self.output)
            >= REMOTE_LOG_PREVIEW_LINES
    }

    /// Reads a piece, and returns how many of its bytes were read.
    pub fn feed(&mut self, piece: &[u8]) -> (read: usize)
        ensures
            final(self)@ == fed(old(self)@, piece@),
            read == final(self)@.len() - old(self)@.len(),
            read <= piece@.len(),
    {
        let mut lines: usize = count_line_ends(&self.output);
        let mut i: usize = 0;
        assert(piece@.take(0) == Seq::<u8>::empty());
        while i < piece.len()
            invariant
                i <= piece.len(),
                lines == line_ends(self.output@),
                self@ == self.output@,
                self@ == fed(old(self)@, piece@.take(i as int)),
                self@.len() == old(self)@.len() + i,
            decreases piece.len() - i,
        {
            if self.output.len() >= REMOTE_LOG_PREVIEW_BYTES || lines
                >= REMOTE_LOG_PREVIEW_LINES {
                proof {
                    full_stays(old(self)@, piece@, i as int);
                }
                return i;
            }
            assert(piece@.take(i + 1).drop_last() == piece@.take(i as int));
            assert(piece@.take(i + 1).last() == piece@[i as int]);
            let byte: u8 = piece[i];
            assert(self.output@.push(byte).drop_last() == self.output@);
            self.output.push(byte);
            if byte == 10u8 {
                lines = lines + 1;
            }
            i += 1;
        }
        assert(piece@.take(piece@.len() as int) == piece@);
        i
    }

    /// What was read, and whether there may be more that is not read.
    pub fn finish(self) -> (out: (Vec<u8>, bool))
        ensures
            out.0@ == self@,
            out.1 == is_full(self@),
    {
        let truncated = self.full();
        (self.output, truncated)
    }
}

proof fn full_stays(kept: Seq<u8>, more: Seq<u8>, n: int)
    requires
        0 <= n <= more.len(),
        is_full(fed(kept, more.take(n))),
    ensures
        fed(kept, more) == fed(kept, more.take(n)),
    decreases more.len(),
{
    if n == more.len() {
        assert(more.take(n) == more);
    } else {
        assert(more.drop_last().take(n) == more.take(n));
        full_stays(kept, more.drop_last(), n);
    }
}

/// What is kept of a log that is there as a whole, and whether there may be more.
pub fn read_remote_log_preview(log: &[u8]) -> (out: (Vec<u8>, bool))
    ensures
        out.0@ == preview(log@),
        out.1 == is_full(preview(log@)),
{
    let mut reader = LogPreview::new();
    let _ = reader.feed(log);
    reader.finish()
}

// ---------------------------------------------------------------------------
// What is shown
// ---------------------------------------------------------------------------
/// A character of a log is shown.
pub open spec fn is_shown(c: char) -> bool {
    c == '\n' || c == '\t' || !is_control(c)
}

/// The characters of a log that are shown.
pub open spec fn sanitized(log: Seq<char>) -> Seq<char>
    decreases log.len(),
{
    if log.len() == 0 {
        seq![]
    } else if is_shown(log.last()) {
        sanitized(log.drop_last()).push(log.last())
    } else {
        sanitized(log.drop_last())
    }
}

/// No control character but the line end and the tab is shown.
pub proof fn sanitized_is_shown(log: Seq<char>)
    ensures
        forall|i: int| 0 <= i < sanitized(log).len() ==> is_shown(#[trigger] sanitized(log)[i]),
    decreases log.len(),
{
    if log.len() > 0 {
        sanitized_is_shown(log.drop_last());
        let head = sanitized(log.drop_last());
        assert forall|i: int| 0 <= i < sanitized(log).len() implies is_shown(
            #[trigger] sanitized(log)[i],
        ) by {
            if i < head.len() {
                assert(sanitized(log)[i] == head[i]);
            }
        }
    }
}

/// A log of characters that are shown is shown as it is.
pub proof fn shown_log_is_kept(log: Seq<char>)
    requires
        forall|i: int| 0 <= i < log.len() ==> is_shown(#[trigger] log[i]),
    ensures
        sanitized(log) == log,
    decreases log.len(),
{
    if log.len() > 0 {
        shown_log_is_kept(log.drop_last());
        assert(is_shown(log[log.len() - 1]));
    }
}

/// The log without control characters, but for line ends and tabs.
pub fn sanitize_remote_log(log: &str) -> (out: String)
    ensures
        out@ == sanitized(log@),
{
    let s = chars_of(log);
    let mut out: Vec<char> = Vec::new();
    let mut i: usize = 0;
    while i < s.len()
        invariant
            i <= s.len(),
            out@ == sanitized(s@.take(i as int)),
        decreases s.len() - i,
    {
        assert(s@.take(i + 1).drop_last() == s@.take(i as int));
        let c = s[i];
        if c == '\n' || c == '\t' || !control(c) {
            out.push(c);
        }
        i += 1;
    }
    assert(s@.take(s@.len() as int) == s@);
    string_of(&out)
}

/// What stands below a log of which only a part is shown.
pub const TRUNCATED_LOG: &'static str = "… (log preview truncated)";

/// A log as it is shown.
pub open spec fn log_view(log: Seq<char>, truncated: bool) -> Seq<char> {
    let text = trim(sanitized(log));
    if !truncated {
        text
    } else if text.len() > 0 {
        text + "\n"@ + TRUNCATED_LOG@
    } else {
        TRUNCATED_LOG@
    }
}

/// A log as it is shown.
pub fn log_text(log: &str, truncated: bool) -> (out: String)
    ensures
        out@ == log_view(log@, truncated),
{
    let clean = chars_of(&sanitize_remote_log(log));
    let text = string_of(trimmed(&clean));
    if !truncated {
        text
    } else if chars_of(&text).len() > 0 {
        concat(&concat(&text, "\n"), TRUNCATED_LOG)
    } else {
        TRUNCATED_LOG.to_owned()
    }
}

/// How it went to read the log of a task.
pub enum LogRun {
    /// The program did not start.
    NotStarted,
    /// Its output could not be read.
    NotRead,
    /// Whether it succeeded is not known.
    NotEnded,
    /// It was read to its end, or as far as it is shown.
    Ended { output: Vec<u8>, truncated: bool, success: bool, status: String, errors: String },
}

/// What is said of a log that could not be had.
pub open spec fn failure_view(status: Seq<char>, errors: Seq<char>) -> Seq<char> {
    let reason = trim(sanitized(errors));
    "Failed to load remote task log: "@ + if reason.len() > 0 {
        reason
    } else {
        status
    }
}

impl LogRun {
    /// What is shown of the log.
    pub open spec fn text(self) -> Seq<char> {
        match self {
            LogRun::NotStarted => "Failed to run `gh agent-task view --log`."@,
            LogRun::NotRead => "Failed to read remote task log."@,
            LogRun::NotEnded => "Failed to load remote task log."@,
            LogRun::Ended { output, truncated, success, status, errors } => if !truncated
                && !success {
                failure_view(status@, errors@)
            } else {
                log_view(lossy_text(output@), truncated)
            },
        }
    }
}

/// What is said of a log that could not be had: what the program complained of, or how it ended.
pub fn failed_log(status: &str, errors: &str) -> (out: String)
    ensures
        out@ == failure_view(status@, errors@),
{
    let clean = chars_of(&sanitize_remote_log(errors));
    let reason = string_of(trimmed(&clean));
    if chars_of(&reason).len() > 0 {
        concat("Failed to load remote task log: ", &reason)
    } else {
        concat("Failed to load remote task log: ", status)
    }
}

/// What is shown of the log of a task: the log, where it could be read, else what went wrong. A log
/// that is shown in part is shown whatever became of the program.
pub fn load_remote_task_log(run: &LogRun) -> (out: String)
    ensures
        out@ == run.text(),
{
    match run {
        LogRun::NotStarted => "Failed to run `gh agent-task view --log`.".to_owned(),
        LogRun::NotRead => "Failed to read remote task log.".to_owned(),
        LogRun::NotEnded => "Failed to load remote task log.".to_owned(),
        LogRun::Ended { output, truncated, success, status, errors } => if !*truncated
            && !*success {
            failed_log(status, errors)
        } else {
            log_text(&decode_lossy(output), *truncated)
        },
    }
}

/// The arguments of `gh` that print the log of a task.
pub fn log_args(session_id: &str) -> (out: Vec<String>)
    ensures
        views(out@) == seq!["agent-task"@, "view"@, session_id@, "--log"@],
{
    let words: Vec<&str> = vec!["agent-task", "view", session_id, "--log"];
    assert(views(words@) == seq!["agent-task"@, "view"@, session_id@, "--log"@]);
    texts_of(&words)
}

// ---------------------------------------------------------------------------
// What holds of logs
// ---------------------------------------------------------------------------
/// The lines of a log are counted by its line ends.
pub proof fn line_ends_are_counted(bytes: Seq<u8>)
    ensures
        line_ends(bytes) == bytes.filter(|b: u8| b == 10).len(),
    decreases bytes.len(),
{
    reveal(Seq::filter);
    if bytes.len() > 0 {
        line_ends_are_counted(bytes.drop_last());
    }
}

/// Reading stops after 200 lines or 128 KiB, whichever comes first, and not before.
pub proof fn reading_stops_at_a_limit(log: Seq<u8>)
    ensures
        is_full(log) <==> log.len() >= 128 * 1024 || log.filter(|b: u8| b == 10).len() >= 200,
        log.len() <= 128 * 1024 && log.drop_last().filter(|b: u8| b == 10).len() < 200
            ==> preview(log) == log,
{
    line_ends_are_counted(log);
    preview_is_a_start(log);
    let n = preview(log).len() as int;
    if log.len() <= 128 * 1024 && log.drop_last().filter(|b: u8| b == 10).len() < 200 && n
        < log.len() {
        line_ends_are_counted(log.drop_last());
        assert(log.take(n) == log.drop_last().take(n));
        line_ends_of_a_start(log.drop_last(), n);
    }
}

proof fn line_ends_of_a_start(bytes: Seq<u8>, n: int)
    requires
        0 <= n <= bytes.len(),
    ensures
        line_ends(bytes.take(n)) <= line_ends(bytes),
    decreases bytes.len(),
{
    if n < bytes.len() {
        line_ends_of_a_start(bytes.drop_last(), n);
        assert(bytes.drop_last().take(n) == bytes.take(n));
    } else {
        assert(bytes.take(n) == bytes);
    }
}

/// What is shown of a log are its characters without the control characters, but for line ends and
/// tabs, in their order.
pub proof fn control_characters_are_left_out(log: Seq<char>)
    ensures
        sanitized(log) == log.filter(|c: char| c == '\n' || c == '\t' || !is_control(c)),
    decreases log.len(),
{
    reveal(Seq::filter);
    if log.len() > 0 {
        control_characters_are_left_out(log.drop_last());
    }
}

/// A log is shown without white space at its ends, and one that was cut off says so in its last
/// line.
pub proof fn cut_off_log_says_so(log: Seq<char>)
    ensures
        ({
            let text = trim(log.filter(|c: char| c == '\n' || c == '\t' || !is_control(c)));
            &&& log_view(log, false) == text
            &&& text.len() > 0 ==> log_view(log, true) == text + seq!['\n']
                + "… (log preview truncated)"@
            &&& text.len() == 0 ==> log_view(log, true) == "… (log preview truncated)"@
        }),
{
    control_characters_are_left_out(log);
    reveal_strlit("\n");
    assert("\n"@ == seq!['\n']);
}

/// What went wrong is told by what the program complained of, or by how it ended.
pub proof fn failure_is_told(status: Seq<char>, errors: Seq<char>)
    ensures
        ({
            let reason = trim(errors.filter(|c: char| c == '\n' || c == '\t' || !is_control(c)));
            let said = failure_view(status, errors);
            &&& said.len() >= 32
            &&& said.take(32) == "Failed to load remote task log: "@
            &&& reason.len() > 0 ==> said.skip(32) == reason
            &&& reason.len() == 0 ==> said.skip(32) == status
        }),
{
    control_characters_are_left_out(errors);
    reveal_strlit("Failed to load remote task log: ");
}

/// A log that was cut off is shown whether the program succeeded or not, and one that came to its
/// end where it did. A program that did not start, or whose output could not be read, is told of.
pub proof fn log_is_shown_where_it_was_read(run: LogRun)
    ensures
        match run {
            LogRun::Ended { output, truncated, success, status, errors } => {
                &&& truncated || success ==> run.text() == log_view(lossy_text(output@), truncated)
                &&& !truncated && !success ==> run.text() == failure_view(status@, errors@)
            },
            LogRun::NotStarted => run.text().subrange(10, 13) == "run"@,
            LogRun::NotRead => run.text().subrange(10, 14) == "read"@,
            LogRun::NotEnded => run.text().subrange(10, 14) == "load"@,
        },
{
    reveal_strlit("Failed to run `gh agent-task view --log`.");
    reveal_strlit("Failed to read remote task log.");
    reveal_strlit("Failed to load remote task log.");
    reveal_strlit("run");
    reveal_strlit("read");
    reveal_strlit("load");
}

} // verus!
