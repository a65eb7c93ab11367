//! Markdown as it is shown in a terminal.
use crate::chars::{ascii_space, digit, is_ascii_space, is_digit, is_space, space};
use crate::style::{bold, fg, put_line, span, Color, Line, SpanView, Style};
use crate::text::{
    chars_of, concat, find, find_chars, find_from_is_first, lines, lines_of, occurs, part, position,
    position_is_first, position_of, starts, starts_with, string_of, trim_start, trim_start_is_tail,
    trimmed_start, views,
};
use crate::view::{tokyo_blue, tokyo_green, tokyo_yellow};
use vstd::prelude::*;

verus! {

// ---------------------------------------------------------------------------
// Emphasis
// ---------------------------------------------------------------------------
/// A text that is emphasised: where its mark starts, how long the mark is, and how many characters
/// stand between the two marks.
pub struct Emphasis<N> {
    pub start: N,
    pub mark: N,
    pub length: N,
}

/// How many characters stand between the mark at the start of a text and the next such mark;
/// nothing where there is no such pair of marks with something between them.
pub open spec fn enclosed(text: Seq<char>, mark: Seq<char>) -> Option<int> {
    if starts(text, mark) {
        match find(text.skip(mark.len() as int), mark) {
            Some(end) => if end > 0 {
                Some(end)
            } else {
                None
            },
            None => None,
        }
    } else {
        None
    }
}

/// The emphasis that starts with a text: by the longest mark that is closed again.
pub open spec fn emphasis_at(text: Seq<char>) -> Option<(int, int)> {
    if enclosed(text, "***"@) is Some {
        Some((3, enclosed(text, "***"@)->0))
    } else if enclosed(text, "___"@) is Some {
        Some((3, enclosed(text, "___"@)->0))
    } else if enclosed(text, "**"@) is Some {
        Some((2, enclosed(text, "**"@)->0))
    } else if enclosed(text, "__"@) is Some {
        Some((2, enclosed(text, "__"@)->0))
    } else if enclosed(text, "*"@) is Some {
        Some((1, enclosed(text, "*"@)->0))
    } else if enclosed(text, "_"@) is Some {
        Some((1, enclosed(text, "_"@)->0))
    } else {
        None
    }
}

/// The first emphasis at or after a place.
pub open spec fn emphasis_from(text: Seq<char>, from: int) -> Option<Emphasis<int>>
    decreases text.len() - from,
{
    if from < 0 || from >= text.len() {
        None
    } else {
        match emphasis_at(text.skip(from)) {
            Some((mark, length)) => Some(Emphasis { start: from, mark, length }),
            None => emphasis_from(text, from + 1),
        }
    }
}

/// A style of emphasis: two marks make a text bold, one slanted, three both.
pub open spec fn emphasis_style(color: Color, mark: int) -> Style {
    Style { bold: mark >= 2, italic: mark == 1 || mark == 3, ..fg(color) }
}

/// What an emphasis takes of a text fits in it.
pub proof fn emphasis_fits(text: Seq<char>, from: int)
    requires
        0 <= from,
    ensures
        match emphasis_from(text, from) {
            Some(found) => from <= found.start && 1 <= found.mark <= 3 && 0 < found.length
                && found.start + 2 * found.mark + found.length <= text.len(),
            None => true,
        },
    decreases text.len() - from,
{
    if from < text.len() {
        mark_lengths();
        enclosed_fits(text.skip(from), "***"@);
        enclosed_fits(text.skip(from), "___"@);
        enclosed_fits(text.skip(from), "**"@);
        enclosed_fits(text.skip(from), "__"@);
        enclosed_fits(text.skip(from), "*"@);
        enclosed_fits(text.skip(from), "_"@);
        if emphasis_at(text.skip(from)) is None {
            emphasis_fits(text, from + 1);
        }
    }
}

proof fn mark_lengths()
    ensures
        "***"@.len() == 3,
        "___"@.len() == 3,
        "**"@.len() == 2,
        "__"@.len() == 2,
        "*"@.len() == 1,
        "_"@.len() == 1,
{
    reveal_strlit("***");
    reveal_strlit("___");
    reveal_strlit("**");
    reveal_strlit("__");
    reveal_strlit("*");
    reveal_strlit("_");
}

proof fn enclosed_fits(text: Seq<char>, mark: Seq<char>)
    ensures
        match enclosed(text, mark) {
            Some(end) => 0 < end && 2 * mark.len() + end <= text.len(),
            None => true,
        },
{
    if starts(text, mark) {
        find_from_is_first(text.skip(mark.len() as int), mark, 0);
    }
}

/// A text with its emphasis, as spans.
pub open spec fn emphasised(text: Seq<char>, color: Color) -> Seq<SpanView>
    decreases text.len(),
{
    match emphasis_from(text, 0) {
        None => if text.len() > 0 {
            seq![span(text, fg(color))]
        } else {
            seq![]
        },
        Some(found) => {
            let open = found.start + found.mark;
            let close = open + found.length;
            let end = close + found.mark;
            if 0 <= found.start < end <= text.len() {
                (if found.start > 0 {
                    seq![span(text.take(found.start), fg(color))]
                } else {
                    seq![]
                }) + seq![
                    span(text.subrange(open, close), emphasis_style(color, found.mark)),
                ] + emphasised(text.skip(end), color)
            } else {
                seq![]
            }
        },
    }
}

fn enclosed_in(text: &[char], mark: &str) -> (out: Option<usize>)
    ensures
        match out {
            Some(end) => enclosed(text@, mark@) == Some(end as int),
            None => enclosed(text@, mark@) is None,
        },
{
    if !starts_with(text, mark) {
        return None;
    }
    let wanted = chars_of(mark);
    assert(text@.subrange(wanted@.len() as int, text@.len() as int) == text@.skip(
        wanted@.len() as int,
    ));
    match find_chars(part(text, wanted.len(), text.len()), &wanted, 0) {
        Some(end) => if end > 0 {
            Some(end)
        } else {
            None
        },
        None => None,
    }
}

fn emphasis_of(text: &[char]) -> (out: Option<(usize, usize)>)
    ensures
        match out {
            Some((mark, length)) => emphasis_at(text@) == Some((mark as int, length as int)),
            None => emphasis_at(text@) is None,
        },
{
    match enclosed_in(text, "***") {
        Some(length) => {
            return Some((3, length));
        },
        None => {},
    }
    match enclosed_in(text, "___") {
        Some(length) => {
            return Some((3, length));
        },
        None => {},
    }
    match enclosed_in(text, "**") {
        Some(length) => {
            return Some((2, length));
        },
        None => {},
    }
    match enclosed_in(text, "__") {
        Some(length) => {
            return Some((2, length));
        },
        None => {},
    }
    match enclosed_in(text, "*") {
        Some(length) => {
            return Some((1, length));
        },
        None => {},
    }
    match enclosed_in(text, "_") {
        Some(length) => Some((1, length)),
        None => None,
    }
}

/// The first emphasis in a text.
pub fn find_emphasis(text: &[char]) -> (out: Option<Emphasis<usize>>)
    ensures
        match out {
            Some(found) => emphasis_from(text@, 0) == Some(
                Emphasis {
                    start: found.start as int,
                    mark: found.mark as int,
                    length: found.length as int,
                },
            ),
            None => emphasis_from(text@, 0) is None,
        },
{
    let mut i: usize = 0;
    while i < text.len()
        invariant
            i <= text.len(),
            emphasis_from(text@, 0) == emphasis_from(text@, i as int),
        decreases text.len() - i,
    {
        assert(text@.subrange(i as int, text@.len() as int) == text@.skip(i as int));
        match emphasis_of(part(text, i, text.len())) {
            Some((mark, length)) => {
                return Some(Emphasis { start: i, mark, length });
            },
            None => {},
        }
        i += 1;
    }
    None
}

/// Puts a text with its emphasis behind a line.
pub fn append_emphasis_markdown(line: &mut Line, text: &[char], color: Color)
    ensures
        final(line)@ == old(line)@ + emphasised(text@, color),
{
    let ghost before = line@;
    let mut from: usize = 0;
    assert(text@.skip(0) == text@);
    assert(before + emphasised(text@, color) == line@ + emphasised(text@.skip(0), color));
    loop
        invariant
            from <= text.len(),
            before == old(line)@,
            before + emphasised(text@, color) == line@ + emphasised(
                text@.skip(from as int),
                color,
            ),
        decreases text.len() - from,
    {
        let ghost rest = text@.skip(from as int);
        assert(text@.subrange(from as int, text@.len() as int) == rest);
        let tail = part(text, from, text.len());
        proof {
            emphasis_fits(rest, 0);
        }
        match find_emphasis(tail) {
            None => {
                if tail.len() > 0 {
                    line.put(&string_of(tail), fg(color));
                }
                assert(line@ == before + emphasised(text@, color));
                return;
            },
            Some(found) => {
                let ghost start = line@;
                if found.start > 0 {
                    assert(rest.subrange(0, found.start as int) == rest.take(found.start as int));
                    line.put(&string_of(part(tail, 0, found.start)), fg(color));
                }
                let open: usize = found.start + found.mark;
                let close: usize = open + found.length;
                let style = Style {
                    bold: found.mark >= 2,
                    italic: found.mark == 1 || found.mark == 3,
                    ..fg(color)
                };
                line.put(&string_of(part(tail, open, close)), style);
                let end: usize = close + found.mark;
                assert(text@.skip(from + end) == rest.skip(end as int));
                assert(line@ + emphasised(rest.skip(end as int), color) == start + emphasised(
                    rest,
                    color,
                ));
                from = from + end;
            },
        }
    }
}

// ---------------------------------------------------------------------------
// Code within a line
// ---------------------------------------------------------------------------
/// A text with the code and the emphasis in it, as spans. Code stands between backticks; a backtick
/// without another one is shown with what follows it.
pub open spec fn inline(text: Seq<char>, color: Color) -> Seq<SpanView>
    decreases text.len(),
{
    let start = position(text, '`');
    if start >= text.len() || start < 0 {
        emphasised(text, color)
    } else {
        let tail = text.skip(start + 1);
        let end = position(tail, '`');
        emphasised(text.take(start), color) + if 0 <= end < tail.len() {
            seq![span("`"@ + tail.take(end) + "`"@, fg(tokyo_green()))] + inline(
                tail.skip(end + 1),
                color,
            )
        } else {
            seq![span(text.skip(start), fg(color))]
        }
    }
}

/// Puts a text with the code and the emphasis in it behind a line.
pub fn append_inline_markdown(line: &mut Line, text: &[char], color: Color)
    ensures
        final(line)@ == old(line)@ + inline(text@, color),
{
    let ghost before = line@;
    let mut from: usize = 0;
    assert(text@.skip(0) == text@);
    loop
        invariant
            from <= text.len(),
            before == old(line)@,
            before + inline(text@, color) == line@ + inline(text@.skip(from as int), color),
        decreases text.len() - from,
    {
        let ghost rest = text@.skip(from as int);
        assert(text@.subrange(from as int, text@.len() as int) == rest);
        let tail = part(text, from, text.len());
        let start = position_of(tail, '`');
        proof {
            position_is_first(rest, '`');
        }
        if start >= tail.len() {
            append_emphasis_markdown(line, tail, color);
            return;
        }
        let ghost old_line = line@;
        assert(rest.subrange(0, start as int) == rest.take(start as int));
        append_emphasis_markdown(line, part(tail, 0, start), color);
        let ghost behind = rest.skip(start + 1);
        assert(rest.subrange(start + 1, rest.len() as int) == behind);
        let after = part(tail, start + 1, tail.len());
        let end = position_of(after, '`');
        proof {
            position_is_first(behind, '`');
        }
        if end >= after.len() {
            assert(rest.subrange(start as int, rest.len() as int) == rest.skip(start as int));
            line.put(&string_of(part(tail, start, tail.len())), fg(color));
            assert(line@ == old_line + inline(rest, color));
            return;
        }
        assert(behind.subrange(0, end as int) == behind.take(end as int));
        let code = concat(&concat("`", &string_of(part(after, 0, end))), "`");
        line.put(&code, fg(tokyo_green()));
        assert(text@.skip(from + start + 1 + end + 1) == behind.skip(end + 1));
        assert(line@ + inline(behind.skip(end + 1), color) == old_line + inline(rest, color));
        from = from + start + 1 + end + 1;
    }
}

// ---------------------------------------------------------------------------
// Lines
// ---------------------------------------------------------------------------
/// The line opens or closes a block of code.
pub open spec fn opens_code(line: Seq<char>) -> bool {
    starts(line, "```"@) || starts(line, "~~~"@)
}

/// Whether the line opens or closes a block of code.
pub fn is_code_fence(line: &[char]) -> (yes: bool)
    ensures
        yes == opens_code(line@),
{
    starts_with(line, "```") || starts_with(line, "~~~")
}

/// The number of number signs at the start of a line.
pub open spec fn hashes(line: Seq<char>) -> nat
    decreases line.len(),
{
    if line.len() > 0 && line[0] == '#' {
        1 + hashes(line.skip(1))
    } else {
        0
    }
}

/// The line is a heading: one to six number signs and white space.
pub open spec fn heads(line: Seq<char>) -> bool {
    let n = hashes(line);
    1 <= n <= 6 && n < line.len() && is_ascii_space(line[n as int])
}

/// Whether the line is a heading.
pub fn is_heading(line: &[char]) -> (yes: bool)
    ensures
        yes == heads(line@),
{
    let mut n: usize = 0;
    assert(line@.skip(0) == line@);
    while n < line.len() && line[n] == '#'
        invariant
            n <= line.len(),
            hashes(line@) == n + hashes(line@.skip(n as int)),
        decreases line.len() - n,
    {
        assert(line@.skip(n as int)[0] == line@[n as int]);
        assert(line@.skip(n as int).skip(1) == line@.skip(n + 1));
        n += 1;
    }
    assert(hashes(line@.skip(n as int)) == 0) by {
        if n < line@.len() {
            assert(line@.skip(n as int)[0] == line@[n as int]);
        }
    }
    1 <= n && n <= 6 && n < line.len() && ascii_space(line[n])
}

/// How many digits the number of an item may have.
pub const MAX_LIST_MARKER_DIGITS: usize = 9;

/// The first characters are digits.
pub open spec fn digits_before(line: Seq<char>, n: int) -> bool {
    forall|i: int| 0 <= i < n ==> is_digit(#[trigger] line[i])
}

/// How many characters mark a line as an item of a list: a bullet and white space, or a number, a
/// full stop and white space. Nothing where it is none.
pub open spec fn item_mark(line: Seq<char>) -> Option<int> {
    let stop = position(line, '.');
    if line.len() >= 2 && (line[0] == '-' || line[0] == '*' || line[0] == '+') && is_space(line[1]) {
        Some(2)
    } else if 0 < stop <= MAX_LIST_MARKER_DIGITS && stop + 1 < line.len() && digits_before(
        line,
        stop,
    ) && is_space(line[stop + 1]) {
        Some(stop + 2)
    } else {
        None
    }
}

/// The character takes one byte.
pub open spec fn is_narrow(c: char) -> bool {
    (c as u32) < 0x80
}

/// A line can be told from an item of a list: it starts with a character of one byte, and where it
/// is an item, the white space behind its mark is one byte too.
pub open spec fn is_splittable(line: Seq<char>) -> bool {
    &&& line.len() > 0 ==> is_narrow(line[0])
    &&& match item_mark(line) {
        Some(n) => is_narrow(line[n - 1]),
        None => true,
    }
}

fn digits_first(line: &[char], n: usize) -> (yes: bool)
    requires
        n <= line@.len(),
    ensures
        yes == digits_before(line@, n as int),
{
    let mut i: usize = 0;
    while i < n
        invariant
            i <= n <= line@.len(),
            digits_before(line@, i as int),
        decreases n - i,
    {
        if !digit(line[i]) {
            assert(!is_digit(line@[i as int]));
            return false;
        }
        i += 1;
    }
    true
}

fn mark_of(line: &[char]) -> (out: Option<usize>)
    ensures
        match out {
            Some(n) => item_mark(line@) == Some(n as int) && 2 <= n <= line@.len(),
            None => item_mark(line@) is None,
        },
{
    if line.len() >= 2 && (line[0] == '-' || line[0] == '*' || line[0] == '+') && space(line[1]) {
        return Some(2);
    }
    let stop = position_of(line, '.');
    if stop == 0 || stop > MAX_LIST_MARKER_DIGITS || stop >= line.len() || stop + 1 >= line.len() {
        return None;
    }
    if digits_first(line, stop) && space(line[stop + 1]) {
        Some(stop + 2)
    } else {
        None
    }
}

/// How many characters mark a line as an item of a list.
pub fn split_list_marker(line: &[char]) -> (out: Option<usize>)
    requires
        is_splittable(line@),
    ensures
        match out {
            Some(n) => item_mark(line@) == Some(n as int) && 2 <= n <= line@.len(),
            None => item_mark(line@) is None,
        },
{
    mark_of(line)
}

/// Whether a line can be told from an item of a list.
pub fn splittable(line: &[char]) -> (yes: bool)
    ensures
        yes == is_splittable(line@),
{
    if line.len() > 0 && line[0] as u32 >= 0x80 {
        return false;
    }
    match mark_of(line) {
        Some(n) => (line[n - 1] as u32) < 0x80,
        None => true,
    }
}

/// A line in a block of code or not, as it is shown.
pub open spec fn line_spans(
    prefix: Seq<char>,
    line: Seq<char>,
    color: Color,
    in_code: bool,
) -> Seq<SpanView> {
    let bare = trim_start(line);
    let indent = line.take(line.len() - bare.len());
    let first = seq![span(prefix, fg(color))];
    if opens_code(bare) {
        first + seq![span(line, bold(tokyo_green()))]
    } else if in_code {
        first + seq![span(line, fg(tokyo_green()))]
    } else if heads(bare) {
        first + seq![span(line, bold(tokyo_blue()))]
    } else if bare.len() > 0 && bare[0] == '>' {
        first + seq![span(indent, fg(color)), span(">"@, bold(tokyo_yellow()))] + inline(
            bare.skip(1),
            color,
        )
    } else if item_mark(bare) is Some {
        let n = item_mark(bare)->0;
        first + seq![span(indent, fg(color)), span(bare.take(n), bold(tokyo_yellow()))] + inline(
            bare.skip(n),
            color,
        )
    } else {
        first + inline(line, color)
    }
}

/// Whether a block of code goes on behind a line.
pub open spec fn code_after(line: Seq<char>, in_code: bool) -> bool {
    if opens_code(trim_start(line)) {
        !in_code
    } else {
        in_code
    }
}

/// The line can be shown.
pub open spec fn is_drawable(line: Seq<char>, in_code: bool) -> bool {
    let bare = trim_start(line);
    opens_code(bare) || in_code || heads(bare) || (bare.len() > 0 && bare[0] == '>')
        || is_splittable(bare)
}

/// Whether the line can be shown.
pub fn drawable(line: &[char], in_code: bool) -> (yes: bool)
    ensures
        yes == is_drawable(line@, in_code),
{
    let bare = trimmed_start(line);
    is_code_fence(bare) || in_code || is_heading(bare) || (bare.len() > 0 && bare[0] == '>')
        || splittable(bare)
}

/// A line as it is shown; notes whether a block of code goes on behind it.
pub fn markdown_line(prefix: &str, line: &[char], color: Color, in_code: &mut bool) -> (out: Line)
    requires
        is_drawable(line@, *old(in_code)),
    ensures
        out@ == line_spans(prefix@, line@, color, *old(in_code)),
        *final(in_code) == code_after(line@, *old(in_code)),
{
    let mut out = Line::of(prefix, fg(color));
    let bare = trimmed_start(line);
    proof {
        trim_start_is_tail(line@);
    }
    let leading: usize = line.len() - bare.len();
    assert(line@.subrange(0, leading as int) == line@.take(leading as int));
    let indent = part(line, 0, leading);
    if is_code_fence(bare) {
        out.put(&string_of(line), bold(tokyo_green()));
        *in_code = !*in_code;
    } else if *in_code {
        out.put(&string_of(line), fg(tokyo_green()));
    } else if is_heading(bare) {
        out.put(&string_of(line), bold(tokyo_blue()));
    } else if bare.len() > 0 && bare[0] == '>' {
        out.put(&string_of(indent), fg(color));
        out.put(">", bold(tokyo_yellow()));
        assert(bare@.subrange(1, bare@.len() as int) == bare@.skip(1));
        append_inline_markdown(&mut out, part(bare, 1, bare.len()), color);
    } else {
        match split_list_marker(bare) {
            Some(n) => {
                assert(bare@.subrange(0, n as int) == bare@.take(n as int));
                assert(bare@.subrange(n as int, bare@.len() as int) == bare@.skip(n as int));
                out.put(&string_of(indent), fg(color));
                out.put(&string_of(part(bare, 0, n)), bold(tokyo_yellow()));
                append_inline_markdown(&mut out, part(bare, n, bare.len()), color);
            },
            None => {
                append_inline_markdown(&mut out, line, color);
            },
        }
    }
    assert(out@ == line_spans(prefix@, line@, color, *old(in_code)));
    out
}

// ---------------------------------------------------------------------------
// Texts
// ---------------------------------------------------------------------------
/// Whether the lines end within a block of code.
pub open spec fn in_code_after(all: Seq<Seq<char>>) -> bool
    decreases all.len(),
{
    if all.len() == 0 {
        false
    } else {
        code_after(all.last(), in_code_after(all.drop_last()))
    }
}

/// Lines as they are shown.
pub open spec fn shown_lines(all: Seq<Seq<char>>, color: Color) -> Seq<Seq<SpanView>>
    decreases all.len(),
{
    if all.len() == 0 {
        seq![]
    } else {
        shown_lines(all.drop_last(), color).push(
            line_spans("  "@, all.last(), color, in_code_after(all.drop_last())),
        )
    }
}

/// The line can be shown, behind those before it.
pub open spec fn drawable_at(all: Seq<Seq<char>>, i: int) -> bool {
    is_drawable(all[i], in_code_after(all.take(i)))
}

/// Each line can be shown.
pub open spec fn all_drawable(all: Seq<Seq<char>>) -> bool {
    forall|i: int| 0 <= i < all.len() ==> drawable_at(all, i)
}

/// The lines of a text that are shown: all, or no more than so many.
pub open spec fn head_lines(text: Seq<char>, max_lines: Option<usize>) -> Seq<Seq<char>> {
    match max_lines {
        Some(max) => if lines(text).len() > max {
            lines(text).take(max as int)
        } else {
            lines(text)
        },
        None => lines(text),
    }
}

/// Whether the text can be shown.
pub fn text_drawable(text: &str, max_lines: Option<usize>) -> (yes: bool)
    ensures
        yes == all_drawable(head_lines(text@, max_lines)),
{
    let all = lines_of(&chars_of(text));
    let count: usize = match max_lines {
        Some(max) => if all.len() > max {
            max
        } else {
            all.len()
        },
        None => all.len(),
    };
    let ghost shown = head_lines(text@, max_lines);
    let mut in_code = false;
    let mut i: usize = 0;
    assert(shown.take(0) == Seq::<Seq<char>>::empty());
    while i < count
        invariant
            i <= count <= all.len(),
            shown == head_lines(text@, max_lines),
            shown.len() == count,
            forall|k: int| 0 <= k < count ==> shown[k] == #[trigger] all@[k]@,
            in_code == in_code_after(shown.take(i as int)),
            forall|k: int| 0 <= k < i ==> drawable_at(shown, k),
        decreases count - i,
    {
        let line = &all[i];
        assert(shown[i as int] == line@);
        if !drawable(line, in_code) {
            assert(!drawable_at(shown, i as int));
            return false;
        }
        assert(shown.take(i + 1).drop_last() == shown.take(i as int));
        assert(shown.take(i + 1).last() == shown[i as int]);
        if is_code_fence(trimmed_start(line)) {
            in_code = !in_code;
        }
        i += 1;
    }
    true
}

/// Puts the lines of a text, as they are shown, behind the lines; returns whether there are more
/// than may be shown.
pub fn push_markdown_lines(
    out: &mut Vec<Line>,
    text: &str,
    color: Color,
    max_lines: Option<usize>,
) -> (truncated: bool)
    requires
        all_drawable(head_lines(text@, max_lines)),
    ensures
        views(final(out)@) == views(old(out)@) + shown_lines(
            head_lines(text@, max_lines),
            color,
        ),
        truncated == (head_lines(text@, max_lines).len() < lines(text@).len()),
{
    let all = lines_of(&chars_of(text));
    let count: usize = match max_lines {
        Some(max) => if all.len() > max {
            max
        } else {
            all.len()
        },
        None => all.len(),
    };
    let ghost shown = head_lines(text@, max_lines);
    let ghost before = views(out@);
    let mut in_code = false;
    let mut i: usize = 0;
    assert(shown.take(0) == Seq::<Seq<char>>::empty());
    assert(views(out@) == before + shown_lines(shown.take(0), color));
    while i < count
        invariant
            i <= count <= all.len(),
            shown == head_lines(text@, max_lines),
            all_drawable(shown),
            shown.len() == count,
            forall|k: int| 0 <= k < count ==> shown[k] == #[trigger] all@[k]@,
            in_code == in_code_after(shown.take(i as int)),
            views(out@) == before + shown_lines(shown.take(i as int), color),
        decreases count - i,
    {
        assert(shown[i as int] == all@[i as int]@);
        assert(drawable_at(shown, i as int));
        assert(shown.take(i + 1).drop_last() == shown.take(i as int));
        assert(shown.take(i + 1).last() == shown[i as int]);
        let line = markdown_line("  ", &all[i], color, &mut in_code);
        put_line(out, line);
        assert(views(out@) == before + shown_lines(shown.take(i + 1), color));
        i += 1;
    }
    assert(shown.take(count as int) == shown);
    count < all.len()
}

// ---------------------------------------------------------------------------
// Laws
// ---------------------------------------------------------------------------
/// A text is shown line by line: as many lines as may be shown of it.
pub proof fn each_line_is_shown(all: Seq<Seq<char>>, color: Color)
    ensures
        shown_lines(all, color).len() == all.len(),
    decreases all.len(),
{
    if all.len() > 0 {
        each_line_is_shown(all.drop_last(), color);
    }
}

/// A text without backticks, stars and underscores is shown as it is.
pub proof fn bare_text_is_kept(text: Seq<char>, color: Color)
    requires
        text.len() > 0,
        forall|i: int|
            0 <= i < text.len() ==> (#[trigger] text[i]) != '`' && text[i] != '*' && text[i] != '_',
    ensures
        inline(text, color) == seq![span(text, fg(color))],
{
    position_is_first(text, '`');
    no_emphasis(text, 0);
}

proof fn no_emphasis(text: Seq<char>, from: int)
    requires
        0 <= from,
        forall|i: int| 0 <= i < text.len() ==> (#[trigger] text[i]) != '*' && text[i] != '_',
    ensures
        emphasis_from(text, from) is None,
    decreases text.len() - from,
{
    if from < text.len() {
        let rest = text.skip(from);
        assert(rest[0] == text[from]);
        reveal_strlit("***");
        reveal_strlit("___");
        reveal_strlit("**");
        reveal_strlit("__");
        reveal_strlit("*");
        reveal_strlit("_");
        not_started(rest, "***"@);
        not_started(rest, "___"@);
        not_started(rest, "**"@);
        not_started(rest, "__"@);
        not_started(rest, "*"@);
        not_started(rest, "_"@);
        no_emphasis(text, from + 1);
    }
}

proof fn not_started(text: Seq<char>, mark: Seq<char>)
    requires
        text.len() > 0,
        mark.len() > 0,
        text[0] != mark[0],
    ensures
        enclosed(text, mark) is None,
{
    if starts(text, mark) {
        assert(text.take(mark.len() as int)[0] == text[0]);
    }
}

// ---------------------------------------------------------------------------
// What holds of it
// ---------------------------------------------------------------------------
/// A mark of emphasis: so many stars or underscores.
pub open spec fn mark(sign: char, n: nat) -> Seq<char> {
    Seq::new(n, |i: int| sign)
}

proof fn marks_are_written(n: nat)
    ensures
        mark('*', 1) == "*"@,
        mark('*', 2) == "**"@,
        mark('*', 3) == "***"@,
        mark('_', 1) == "_"@,
        mark('_', 2) == "__"@,
        mark('_', 3) == "___"@,
{
    reveal_strlit("***");
    reveal_strlit("___");
    reveal_strlit("**");
    reveal_strlit("__");
    reveal_strlit("*");
    reveal_strlit("_");
}

proof fn mark_encloses(sign: char, n: nat, inner: Seq<char>, rest: Seq<char>)
    requires
        n > 0,
        inner.len() > 0,
        !inner.contains(sign),
    ensures
        enclosed(mark(sign, n) + inner + mark(sign, n) + rest, mark(sign, n)) == Some(
            inner.len() as int,
        ),
{
    let m = mark(sign, n);
    let text = m + inner + m + rest;
    let tail = text.skip(n as int);
    assert(text.subrange(0, n as int) == m);
    assert(tail == inner + m + rest);
    let at = inner.len() as int;
    assert(tail.subrange(at, at + n) == m);
    assert(occurs(tail, m, at));
    find_from_is_first(tail, m, 0);
    let found = find(tail, m)->0;
    if found < at {
        assert(tail.subrange(found, found + n)[0] == m[0]);
        assert(inner[found] == sign);
    }
}

proof fn other_marks_do_not_start(
    sign: char,
    n: nat,
    other: char,
    k: nat,
    inner: Seq<char>,
    behind: Seq<char>,
)
    requires
        n > 0,
        k > 0,
        inner.len() > 0,
        other != sign || k > n,
        inner[0] != sign,
    ensures
        enclosed(mark(sign, n) + inner + behind, mark(other, k)) is None,
{
    let text = mark(sign, n) + inner + behind;
    let m = mark(other, k);
    if starts(text, m) {
        assert(text.subrange(0, k as int)[0] == m[0]);
        assert(text[0] == sign);
        assert(text.subrange(0, k as int)[n as int] == m[n as int]);
        assert(text[n as int] == inner[0]);
    }
}

/// A text between two marks is emphasised, and the marks are not shown: one star or underscore makes
/// it slanted, two make it bold, three both. What follows is shown on its own.
pub proof fn marked_text_is_emphasised(
    sign: char,
    n: nat,
    inner: Seq<char>,
    rest: Seq<char>,
    color: Color,
)
    requires
        sign == '*' || sign == '_',
        1 <= n <= 3,
        inner.len() > 0,
        !inner.contains(sign),
    ensures
        ({
            let shown = emphasised(mark(sign, n) + inner + mark(sign, n) + rest, color);
            &&& shown.len() > 0
            &&& shown[0].text == inner
            &&& shown[0].style == (Style { bold: n != 1, italic: n != 2, ..fg(color) })
            &&& shown.skip(1) == emphasised(rest, color)
        }),
{
    let m = mark(sign, n);
    let text = m + inner + m + rest;
    let behind = m + rest;
    assert(text == m + inner + behind);
    assert(inner[0] != sign);
    marks_are_written(n);
    mark_encloses(sign, n, inner, rest);
    let other = if sign == '*' {
        '_'
    } else {
        '*'
    };
    other_marks_do_not_start(sign, n, other, 1, inner, behind);
    other_marks_do_not_start(sign, n, other, 2, inner, behind);
    other_marks_do_not_start(sign, n, other, 3, inner, behind);
    if n < 3 {
        other_marks_do_not_start(sign, n, sign, 3, inner, behind);
    }
    if n < 2 {
        other_marks_do_not_start(sign, n, sign, 2, inner, behind);
    }
    assert(text.skip(0) == text);
    assert(emphasis_at(text) == Some((n as int, inner.len() as int)));
    let end = n + inner.len() + n;
    assert(text.subrange(n as int, n as int + inner.len()) == inner);
    assert(text.skip(end as int) == rest);
    let shown = emphasised(text, color);
    assert(shown == seq![span(inner, emphasis_style(color, n as int))] + emphasised(rest, color));
    assert(shown.skip(1) == emphasised(rest, color));
}

proof fn emphasis_comes_later(
    before: Seq<char>,
    text: Seq<char>,
    from: int,
    mark: int,
    length: int,
)
    requires
        0 <= from <= before.len(),
        !before.contains('*') && !before.contains('_'),
        emphasis_at(text) == Some((mark, length)),
    ensures
        emphasis_from(before + text, from) == Some(
            Emphasis { start: before.len() as int, mark, length },
        ),
    decreases before.len() - from,
{
    let all = before + text;
    if from < before.len() {
        let rest = all.skip(from);
        assert(rest[0] == before[from]);
        reveal_strlit("***");
        reveal_strlit("___");
        reveal_strlit("**");
        reveal_strlit("__");
        reveal_strlit("*");
        reveal_strlit("_");
        not_started(rest, "***"@);
        not_started(rest, "___"@);
        not_started(rest, "**"@);
        not_started(rest, "__"@);
        not_started(rest, "*"@);
        not_started(rest, "_"@);
        emphasis_comes_later(before, text, from + 1, mark, length);
    } else {
        assert(all.skip(from) == text);
        if text.len() == 0 {
            mark_lengths();
        }
    }
}

/// Text without marks before an emphasis is shown as it is, and the emphasis behind it.
pub proof fn text_before_an_emphasis_is_kept(before: Seq<char>, text: Seq<char>, color: Color)
    requires
        before.len() > 0,
        !before.contains('*') && !before.contains('_'),
        emphasis_at(text) is Some,
    ensures
        emphasised(before + text, color) == seq![span(before, fg(color))] + emphasised(text, color),
{
    let all = before + text;
    let none = Seq::<char>::empty();
    let (mark, length) = emphasis_at(text)->0;
    emphasis_comes_later(before, text, 0, mark, length);
    assert(none + text == text);
    emphasis_comes_later(none, text, 0, mark, length);
    emphasis_fits(text, 0);
    let found = emphasis_from(text, 0)->0;
    let n = before.len() as int;
    let open = found.mark;
    let close = open + found.length;
    let end = close + found.mark;
    assert(all.take(n) == before);
    assert(all.subrange(n + open, n + close) == text.subrange(open, close));
    assert(all.skip(n + end) == text.skip(end));
    let a = seq![span(text.subrange(open, close), emphasis_style(color, found.mark))];
    let b = emphasised(text.skip(end), color);
    assert(Seq::<SpanView>::empty() + a + b == a + b);
    assert(seq![span(before, fg(color))] + a + b == seq![span(before, fg(color))] + (a + b));
}

/// Code between backticks is shown with them, in green; what stands before it and behind it is
/// shown on its own. A backtick that is not closed is shown with all that follows.
pub proof fn code_is_shown_with_its_backticks(
    before: Seq<char>,
    code: Seq<char>,
    behind: Seq<char>,
    color: Color,
)
    requires
        !before.contains('`'),
        !code.contains('`'),
    ensures
        inline(before + seq!['`'] + code + seq!['`'] + behind, color) == emphasised(before, color)
            + seq![span(seq!['`'] + code + seq!['`'], fg(tokyo_green()))] + inline(behind, color),
        inline(before + seq!['`'] + code, color) == emphasised(before, color) + seq![
            span(seq!['`'] + code, fg(color)),
        ],
        inline(before, color) == emphasised(before, color),
{
    reveal_strlit("`");
    assert("`"@ == seq!['`']);
    position_is_first(before, '`');
    let a = before + seq!['`'] + code + seq!['`'] + behind;
    let b = before + seq!['`'] + code;
    backtick_is_found(before, code + seq!['`'] + behind);
    backtick_is_found(before, code);
    assert(a == before + seq!['`'] + (code + seq!['`'] + behind));
    let n = before.len() as int;
    assert(a.take(n) == before);
    assert(b.take(n) == before);
    let tail = a.skip(n + 1);
    assert(tail == code + seq!['`'] + behind);
    backtick_is_found(code, behind);
    assert(tail.take(code.len() as int) == code);
    assert(tail.skip(code.len() as int + 1) == behind);
    assert(b.skip(n + 1) == code);
    position_is_first(code, '`');
    assert(b.skip(n) == seq!['`'] + code);
    assert(emphasised(before, color) + (seq![
        span(seq!['`'] + code + seq!['`'], fg(tokyo_green())),
    ] + inline(behind, color)) == emphasised(before, color) + seq![
        span(seq!['`'] + code + seq!['`'], fg(tokyo_green())),
    ] + inline(behind, color));
}

proof fn backtick_is_found(before: Seq<char>, behind: Seq<char>)
    requires
        !before.contains('`'),
    ensures
        position(before + seq!['`'] + behind, '`') == before.len(),
{
    let all = before + seq!['`'] + behind;
    position_is_first(all, '`');
    assert(all[before.len() as int] == '`');
    let p = position(all, '`');
    if p < before.len() {
        assert(before[p] == '`');
    }
}

/// A line is a heading where it starts with one to six number signs and white space behind them, and
/// with no more of them.
pub proof fn headings_have_number_signs(line: Seq<char>, n: int)
    requires
        0 <= n < line.len(),
        forall|i: int| 0 <= i < n ==> line[i] == '#',
        line[n] != '#',
    ensures
        heads(line) <==> 1 <= n <= 6 && is_ascii_space(line[n]),
{
    signs_are_counted(line, n);
}

proof fn signs_are_counted(line: Seq<char>, n: int)
    requires
        0 <= n <= line.len(),
        forall|i: int| 0 <= i < n ==> line[i] == '#',
        n < line.len() ==> line[n] != '#',
    ensures
        hashes(line) == n,
    decreases n,
{
    if n > 0 {
        assert(line[0] == '#');
        assert forall|i: int| 0 <= i < n - 1 implies line.skip(1)[i] == '#' by {
            assert(line.skip(1)[i] == line[i + 1]);
        }
        signs_are_counted(line.skip(1), n - 1);
    }
}

/// A line is an item of a list where it starts with a dash, a star or a plus sign and white space,
/// or with a number of at most nine digits, a full stop and white space.
pub proof fn items_have_a_bullet_or_a_number(line: Seq<char>, n: int)
    ensures
        line.len() >= 2 && (line[0] == '-' || line[0] == '*' || line[0] == '+') && is_space(line[1])
            ==> item_mark(line) == Some(2int),
        1 <= n <= 9 && n + 1 < line.len() && (forall|i: int|
            0 <= i < n ==> '0' <= #[trigger] line[i] <= '9') && line[n] == '.' && is_space(
            line[n + 1],
        ) ==> item_mark(line) == Some(n + 2),
        line.len() > 0 && !('0' <= line[0] <= '9') && line[0] != '-' && line[0] != '*' && line[0]
            != '+' ==> item_mark(line) is None,
        line.len() > 1 && !('0' <= line[0] <= '9') && !is_space(line[1]) ==> item_mark(line) is None,
        n > 9 && n < line.len() && (forall|i: int| 0 <= i < n ==> '0' <= #[trigger] line[i] <= '9')
            ==> item_mark(line) is None,
{
    position_is_first(line, '.');
    let stop = position(line, '.');
    if 1 <= n < line.len() && (forall|i: int| 0 <= i < n ==> '0' <= #[trigger] line[i] <= '9') {
        assert('0' <= line[0] <= '9');
        if stop < n {
            assert('0' <= line[stop] <= '9');
        }
        if line[n] == '.' {
            assert(line.contains('.'));
            assert(stop == n);
            assert(digits_before(line, n));
        }
    }
    if 0 < stop && digits_before(line, stop) {
        assert(is_digit(line[0]));
    }
}

/// A fence opens a block of code and the next one closes it: a line stands in code where an odd
/// number of fences stands before it.
pub proof fn fences_come_in_pairs(all: Seq<Seq<char>>)
    ensures
        in_code_after(all) <==> all.filter(
            |line: Seq<char>| opens_code(trim_start(line)),
        ).len() % 2 == 1,
    decreases all.len(),
{
    reveal(Seq::filter);
    if all.len() > 0 {
        fences_come_in_pairs(all.drop_last());
    }
}

/// A fence is three backticks or three tildes.
pub proof fn fences_have_three_signs(line: Seq<char>)
    ensures
        opens_code(line) <==> line.len() >= 3 && line[0] == line[1] && line[1] == line[2] && (line[0]
            == '`' || line[0] == '~'),
{
    reveal_strlit("```");
    reveal_strlit("~~~");
    if line.len() >= 3 {
        let head = line.subrange(0, 3);
        assert(head[0] == line[0] && head[1] == line[1] && head[2] == line[2]);
        if line[0] == '`' && line[1] == '`' && line[2] == '`' {
            assert(head == "```"@);
        }
        if line[0] == '~' && line[1] == '~' && line[2] == '~' {
            assert(head == "~~~"@);
        }
    }
}

/// Each line is shown behind two blanks, in code where it stands in code, and no more lines than
/// asked for.
pub proof fn lines_are_shown_in_order(all: Seq<Seq<char>>, color: Color, i: int)
    requires
        0 <= i < all.len(),
    ensures
        shown_lines(all, color)[i] == line_spans("  "@, all[i], color, in_code_after(all.take(i))),
    decreases all.len(),
{
    each_line_is_shown(all, color);
    each_line_is_shown(all.drop_last(), color);
    if i < all.len() - 1 {
        lines_are_shown_in_order(all.drop_last(), color, i);
        assert(all.drop_last().take(i) == all.take(i));
    } else {
        assert(all.drop_last() == all.take(i));
    }
}

/// The lines of a text that are shown are its first ones, all of them where no number is given.
pub proof fn no_more_lines_than_asked_for(text: Seq<char>, max: usize, i: int)
    ensures
        head_lines(text, None) == lines(text),
        head_lines(text, Some(max)).len() <= max,
        head_lines(text, Some(max)).len() == max || head_lines(text, Some(max)).len() == lines(
            text,
        ).len(),
        0 <= i < head_lines(text, Some(max)).len() ==> head_lines(text, Some(max))[i] == lines(
            text,
        )[i],
{
}

/// Behind its prefix a line is shown whole and in one style where it is a fence, code or a heading:
/// bold and green, green, or bold and blue.
pub proof fn whole_lines_have_one_style(
    prefix: Seq<char>,
    line: Seq<char>,
    color: Color,
    in_code: bool,
)
    ensures
        ({
            let shown = line_spans(prefix, line, color, in_code);
            let bare = trim_start(line);
            let fence = opens_code(bare);
            let heading = !fence && !in_code && heads(bare);
            &&& shown.len() > 0 && shown[0].text == prefix && shown[0].style == fg(color)
            &&& fence || in_code || heading ==> shown.len() == 2 && shown[1].text == line
            &&& fence ==> shown[1].style == bold(tokyo_green())
            &&& !fence && in_code ==> shown[1].style == fg(tokyo_green())
            &&& heading ==> shown[1].style == bold(tokyo_blue())
        }),
{
}

/// A quotation and an item of a list are shown with their indent, their mark bold and yellow, and
/// the text behind it on its own. Any other line is shown on its own.
pub proof fn marked_lines_show_their_mark(prefix: Seq<char>, line: Seq<char>, color: Color)
    ensures
        ({
            let shown = line_spans(prefix, line, color, false);
            let bare = trim_start(line);
            let indent = line.len() - bare.len();
            let whole = opens_code(bare) || heads(bare);
            let quoted = bare.len() > 0 && bare[0] == '>';
            let listed = !quoted && item_mark(bare) is Some;
            let n = if quoted {
                1
            } else {
                item_mark(bare)->0
            };
            &&& !whole && (quoted || listed) ==> {
                &&& shown.len() >= 3
                &&& shown[1].text == line.take(indent) && shown[1].style == fg(color)
                &&& shown[2].text == bare.take(n) && shown[2].style == bold(tokyo_yellow())
                &&& shown.skip(3) == inline(bare.skip(n), color)
            }
            &&& !whole && !quoted && !listed ==> shown.skip(1) == inline(line, color)
        }),
{
    reveal_strlit(">");
    let shown = line_spans(prefix, line, color, false);
    let bare = trim_start(line);
    if bare.len() > 0 && bare[0] == '>' {
        assert(bare.take(1) == ">"@);
        assert(shown.skip(3) == inline(bare.skip(1), color) || opens_code(bare) || heads(bare));
    } else if item_mark(bare) is Some {
        assert(shown.skip(3) == inline(bare.skip(item_mark(bare)->0), color) || opens_code(bare)
            || heads(bare));
    } else {
        assert(shown.skip(1) == inline(line, color) || opens_code(bare) || heads(bare));
    }
}

/// A text of characters of one byte each can always be shown, and so can code.
pub proof fn plain_texts_can_be_shown(line: Seq<char>, in_code: bool)
    ensures
        in_code ==> is_drawable(line, in_code),
        (forall|i: int| 0 <= i < line.len() ==> (#[trigger] line[i] as u32) < 0x80) ==> is_drawable(
            line,
            in_code,
        ),
{
    if forall|i: int| 0 <= i < line.len() ==> (#[trigger] line[i] as u32) < 0x80 {
        let bare = trim_start(line);
        trim_start_is_tail(line);
        assert forall|i: int| 0 <= i < bare.len() implies (#[trigger] bare[i] as u32) < 0x80 by {
            assert(bare[i] == line[i + line.len() - bare.len()]);
        }
        position_is_first(bare, '.');
    }
}

} // verus!
