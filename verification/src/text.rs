//! Text as a sequence of characters: cutting it up, putting it together, looking into it.
use crate::chars::{is_space, lower, space, to_lower};
use vstd::prelude::*;
use vstd::slice::slice_subrange;

verus! {

// ---------------------------------------------------------------------------
// What the operations mean
// ---------------------------------------------------------------------------
/// The views of a sequence of values.
pub open spec fn views<T: View>(s: Seq<T>) -> Seq<T::V> {
    Seq::new(s.len(), |i: int| s[i].view())
}

/// The view of an optional text.
pub open spec fn opt_view<T: View>(o: Option<T>) -> Option<T::V> {
    match o {
        Some(t) => Some(t.view()),
        None => None,
    }
}

/// The view of an optional borrowed text.
pub open spec fn opt_str(text: Option<&str>) -> Option<Seq<char>> {
    match text {
        Some(text) => Some(text@),
        None => None,
    }
}

/// `s` without the white space at its start.
pub open spec fn trim_start(s: Seq<char>) -> Seq<char>
    decreases s.len(),
{
    if s.len() > 0 && is_space(s[0]) {
        trim_start(s.skip(1))
    } else {
        s
    }
}

/// `s` without the white space at its end.
pub open spec fn trim_end(s: Seq<char>) -> Seq<char>
    decreases s.len(),
{
    if s.len() > 0 && is_space(s.last()) {
        trim_end(s.drop_last())
    } else {
        s
    }
}

/// `s` without the white space at either end.
pub open spec fn trim(s: Seq<char>) -> Seq<char> {
    trim_end(trim_start(s))
}

/// The index of the first `c` in `s`, or the length of `s` where there is none.
pub open spec fn position(s: Seq<char>, c: char) -> int
    decreases s.len(),
{
    if s.len() == 0 || s[0] == c {
        0
    } else {
        1 + position(s.skip(1), c)
    }
}

/// The index of the first white space in `s`, or the length of `s` where there is none.
pub open spec fn space_position(s: Seq<char>) -> int
    decreases s.len(),
{
    if s.len() == 0 || is_space(s[0]) {
        0
    } else {
        1 + space_position(s.skip(1))
    }
}

/// The pieces of `s` between the characters `c`; always at least one.
pub open spec fn split(s: Seq<char>, c: char) -> Seq<Seq<char>>
    decreases s.len(),
{
    let n = position(s, c);
    if 0 <= n < s.len() {
        seq![s.take(n)] + split(s.skip(n + 1), c)
    } else {
        seq![s]
    }
}

/// A line that ended in a line feed, without the carriage return before it.
pub open spec fn without_return(line: Seq<char>) -> Seq<char> {
    if line.len() > 0 && line.last() == '\r' {
        line.drop_last()
    } else {
        line
    }
}

/// The lines of `s`. A line ends in a line feed, or in a carriage return and a line feed; the
/// last one may end with the text, and is not there where it would be empty.
pub open spec fn lines(s: Seq<char>) -> Seq<Seq<char>>
    decreases s.len(),
{
    let n = position(s, '\n');
    if s.len() == 0 {
        seq![]
    } else if 0 <= n < s.len() {
        seq![without_return(s.take(n))] + lines(s.skip(n + 1))
    } else {
        seq![s]
    }
}

/// The words of `s`: its longest runs of characters that are not white space.
pub open spec fn words(s: Seq<char>) -> Seq<Seq<char>>
    decreases s.len(),
{
    if s.len() == 0 {
        seq![]
    } else if is_space(s[0]) {
        words(s.skip(1))
    } else {
        let n = space_position(s);
        if 0 < n <= s.len() {
            seq![s.take(n)] + words(s.skip(n))
        } else {
            seq![]
        }
    }
}

/// The parts one after the other, with `sep` between them.
pub open spec fn join(parts: Seq<Seq<char>>, sep: Seq<char>) -> Seq<char>
    decreases parts.len(),
{
    if parts.len() == 0 {
        seq![]
    } else if parts.len() == 1 {
        parts[0]
    } else {
        join(parts.drop_last(), sep) + sep + parts.last()
    }
}

/// `pattern` stands in `s` at `i`.
pub open spec fn occurs(s: Seq<char>, pattern: Seq<char>, i: int) -> bool {
    0 <= i && i + pattern.len() <= s.len() && s.subrange(i, i + pattern.len()) == pattern
}

/// `pattern` stands somewhere in `s`.
pub open spec fn mentions(s: Seq<char>, pattern: Seq<char>) -> bool {
    exists|i: int| occurs(s, pattern, i)
}

/// The first place at or after `from` where `pattern` stands in `s`.
pub open spec fn find_from(s: Seq<char>, pattern: Seq<char>, from: int) -> Option<int>
    decreases s.len() - from,
{
    if from < 0 || from + pattern.len() > s.len() {
        None
    } else if occurs(s, pattern, from) {
        Some(from)
    } else if from < s.len() {
        find_from(s, pattern, from + 1)
    } else {
        None
    }
}

/// The first place where `pattern` stands in `s`.
pub open spec fn find(s: Seq<char>, pattern: Seq<char>) -> Option<int> {
    find_from(s, pattern, 0)
}

/// `s` starts with `pattern`.
pub open spec fn starts(s: Seq<char>, pattern: Seq<char>) -> bool {
    occurs(s, pattern, 0)
}

/// `s` ends with `pattern`.
pub open spec fn ends(s: Seq<char>, pattern: Seq<char>) -> bool {
    occurs(s, pattern, s.len() - pattern.len())
}

/// What stands behind `prefix` in `s`, where `s` starts with it.
pub open spec fn strip_prefix(s: Seq<char>, prefix: Seq<char>) -> Option<Seq<char>> {
    if starts(s, prefix) {
        Some(s.skip(prefix.len() as int))
    } else {
        None
    }
}

/// `s` with its ASCII capitals made small.
pub open spec fn lowered(s: Seq<char>) -> Seq<char> {
    s.map_values(|c: char| lower(c))
}

/// `s` with every `from` turned into `to`.
pub open spec fn swapped(s: Seq<char>, from: char, to: char) -> Seq<char> {
    s.map_values(|c: char| if c == from { to } else { c })
}

/// The first `n` characters of `s`, or all of them where there are fewer.
pub open spec fn first_chars(s: Seq<char>, n: int) -> Seq<char> {
    if s.len() <= n {
        s
    } else {
        s.take(n)
    }
}

/// `s` without the characters `c` at its start.
pub open spec fn trim_char_start(s: Seq<char>, c: char) -> Seq<char>
    decreases s.len(),
{
    if s.len() > 0 && s[0] == c {
        trim_char_start(s.skip(1), c)
    } else {
        s
    }
}

/// `s` without the characters `c` at its end.
pub open spec fn trim_char_end(s: Seq<char>, c: char) -> Seq<char>
    decreases s.len(),
{
    if s.len() > 0 && s.last() == c {
        trim_char_end(s.drop_last(), c)
    } else {
        s
    }
}

/// The pieces of `s` between the characters `c`, `n` of them at most: the last piece runs to the
/// end of the text.
pub open spec fn fields(s: Seq<char>, c: char, n: nat) -> Seq<Seq<char>>
    decreases n,
{
    let p = position(s, c);
    if n > 1 && 0 <= p < s.len() {
        seq![s.take(p)] + fields(s.skip(p + 1), c, (n - 1) as nat)
    } else {
        seq![s]
    }
}

// ---------------------------------------------------------------------------
// Facts about them
// ---------------------------------------------------------------------------
/// What `position` finds.
pub proof fn position_is_first(s: Seq<char>, c: char)
    ensures
        0 <= position(s, c) <= s.len(),
        position(s, c) < s.len() ==> s[position(s, c)] == c,
        forall|j: int| 0 <= j < position(s, c) ==> s[j] != c,
        position(s, c) < s.len() <==> s.contains(c),
    decreases s.len(),
{
    if s.len() > 0 && s[0] != c {
        position_is_first(s.skip(1), c);
        let p = position(s.skip(1), c);
        assert forall|j: int| 0 <= j < 1 + p implies s[j] != c by {
            if j > 0 {
                assert(s.skip(1)[j - 1] == s[j]);
            }
        }
        if p < s.skip(1).len() {
            assert(s[p + 1] == c);
        } else {
            assert forall|j: int| 0 <= j < s.len() implies s[j] != c by {}
        }
    } else if s.len() > 0 {
        assert(s[0] == c);
    }
}

/// What `space_position` finds.
pub proof fn space_position_is_first(s: Seq<char>)
    ensures
        0 <= space_position(s) <= s.len(),
        space_position(s) < s.len() ==> is_space(s[space_position(s)]),
        forall|j: int| 0 <= j < space_position(s) ==> !is_space(s[j]),
    decreases s.len(),
{
    if s.len() > 0 && !is_space(s[0]) {
        space_position_is_first(s.skip(1));
        assert forall|j: int| 0 <= j < space_position(s) implies !is_space(s[j]) by {
            if j > 0 {
                assert(s.skip(1)[j - 1] == s[j]);
            }
        }
    }
}

/// What trimming at the start leaves is a tail of the text that does not start with white space.
pub proof fn trim_start_is_tail(s: Seq<char>)
    ensures
        trim_start(s).len() <= s.len(),
        trim_start(s) == s.skip(s.len() - trim_start(s).len()),
        trim_start(s).len() > 0 ==> !is_space(trim_start(s)[0]),
        forall|j: int| 0 <= j < s.len() - trim_start(s).len() ==> is_space(#[trigger] s[j]),
    decreases s.len(),
{
    if s.len() > 0 && is_space(s[0]) {
        trim_start_is_tail(s.skip(1));
        let t = trim_start(s);
        assert(s.skip(1).skip(s.skip(1).len() - t.len()) == s.skip(s.len() - t.len()));
        assert forall|j: int| 0 <= j < s.len() - t.len() implies is_space(#[trigger] s[j]) by {
            if j > 0 {
                assert(s.skip(1)[j - 1] == s[j]);
            }
        }
    } else {
        assert(s.skip(0) == s);
    }
}

/// What trimming at the end leaves is a head of the text that does not end in white space.
pub proof fn trim_end_is_head(s: Seq<char>)
    ensures
        trim_end(s).len() <= s.len(),
        trim_end(s) == s.take(trim_end(s).len() as int),
        trim_end(s).len() > 0 ==> !is_space(trim_end(s).last()),
        forall|j: int| trim_end(s).len() <= j < s.len() ==> is_space(#[trigger] s[j]),
    decreases s.len(),
{
    if s.len() > 0 && is_space(s.last()) {
        trim_end_is_head(s.drop_last());
        let t = trim_end(s);
        assert(s.drop_last().take(t.len() as int) == s.take(t.len() as int));
        assert forall|j: int| t.len() <= j < s.len() implies is_space(#[trigger] s[j]) by {
            if j < s.len() - 1 {
                assert(s.drop_last()[j] == s[j]);
            }
        }
    } else {
        assert(s.take(s.len() as int) == s);
    }
}

/// A trimmed text has no white space at its ends, so trimming it again changes nothing.
pub proof fn trim_is_idempotent(s: Seq<char>)
    ensures
        trim(trim(s)) == trim(s),
        trim(s).len() > 0 ==> !is_space(trim(s)[0]) && !is_space(trim(s).last()),
{
    trim_start_is_tail(s);
    trim_end_is_head(trim_start(s));
    let t = trim(s);
    if t.len() > 0 {
        assert(t[0] == trim_start(s)[0]);
    }
    assert(trim_start(t) == t);
}

/// A text without white space at its ends is its own trimmed form.
pub proof fn trim_of_bare(s: Seq<char>)
    requires
        s.len() > 0 ==> !is_space(s[0]) && !is_space(s.last()),
    ensures
        trim(s) == s,
{
}

/// Finding names the first occurrence, and there is one just where the text has the pattern.
pub proof fn find_from_is_first(s: Seq<char>, pattern: Seq<char>, from: int)
    requires
        0 <= from,
    ensures
        match find_from(s, pattern, from) {
            Some(i) => from <= i && occurs(s, pattern, i) && (forall|j: int|
                from <= j < i ==> !occurs(s, pattern, j)),
            None => forall|j: int| from <= j ==> !occurs(s, pattern, j),
        },
    decreases s.len() - from,
{
    if from + pattern.len() <= s.len() && !occurs(s, pattern, from) && from < s.len() {
        find_from_is_first(s, pattern, from + 1);
    }
}

/// `find` succeeds just where the text has the pattern.
pub proof fn find_iff_has(s: Seq<char>, pattern: Seq<char>)
    ensures
        (find(s, pattern) is Some) == mentions(s, pattern),
{
    find_from_is_first(s, pattern, 0);
    if mentions(s, pattern) {
        let i = choose|i: int| occurs(s, pattern, i);
        assert(occurs(s, pattern, i));
    }
}

// ---------------------------------------------------------------------------
// The operations
// ---------------------------------------------------------------------------
/// The characters of a text.
pub fn chars_of(text: &str) -> (out: Vec<char>)
    ensures
        out@ == text@,
{
    let mut out: Vec<char> = Vec::new();
    for c in it: text.chars()
        invariant
            out@ == it.seq().take(it.index() as int),
            it.seq() == text@,
    {
        out.push(c);
    }
    out
}

/// The text of a run of characters.
pub fn string_of(chars: &[char]) -> (out: String)
    ensures
        out@ == chars@,
{
    let mut out = String::new();
    let mut i: usize = 0;
    while i < chars.len()
        invariant
            i <= chars.len(),
            out@ == chars@.take(i as int),
        decreases chars.len() - i,
    {
        out.push(chars[i]);
        i += 1;
    }
    assert(chars@.take(chars.len() as int) == chars@);
    out
}

/// A copy of a run of characters.
pub fn copy_of(chars: &[char]) -> (out: Vec<char>)
    ensures
        out@ == chars@,
{
    let mut out: Vec<char> = Vec::new();
    let mut i: usize = 0;
    while i < chars.len()
        invariant
            i <= chars.len(),
            out@ == chars@.take(i as int),
        decreases chars.len() - i,
    {
        out.push(chars[i]);
        i += 1;
    }
    assert(chars@.take(chars.len() as int) == chars@);
    out
}

/// The characters of `s` from `from` up to `to`.
pub fn part(s: &[char], from: usize, to: usize) -> (out: &[char])
    requires
        from <= to <= s@.len(),
    ensures
        out@ == s@.subrange(from as int, to as int),
{
    slice_subrange(s, from, to)
}

/// Whether two runs of characters are the same.
pub fn same_chars(a: &[char], b: &[char]) -> (yes: bool)
    ensures
        yes == (a@ == b@),
{
    if a.len() != b.len() {
        return false;
    }
    let mut i: usize = 0;
    while i < a.len()
        invariant
            a.len() == b.len(),
            i <= a.len(),
            forall|j: int| 0 <= j < i ==> a@[j] == b@[j],
        decreases a.len() - i,
    {
        if a[i] != b[i] {
            return false;
        }
        i += 1;
    }
    assert(a@ =~= b@);
    true
}

/// Whether two texts are the same.
pub fn same_text(a: &str, b: &str) -> (yes: bool)
    ensures
        yes == (a@ == b@),
{
    let a = chars_of(a);
    let b = chars_of(b);
    same_chars(&a, &b)
}

/// Whether `pattern` stands in `s` at `i`.
pub fn occurs_at(s: &[char], pattern: &[char], i: usize) -> (yes: bool)
    ensures
        yes == occurs(s@, pattern@, i as int),
{
    if pattern.len() > s.len() || i > s.len() - pattern.len() {
        return false;
    }
    same_chars(part(s, i, i + pattern.len()), pattern)
}

/// Whether `s` starts with `pattern`.
pub fn starts_with(s: &[char], pattern: &str) -> (yes: bool)
    ensures
        yes == starts(s@, pattern@),
{
    let pattern = chars_of(pattern);
    occurs_at(s, &pattern, 0)
}

/// Whether `s` ends with `pattern`.
pub fn ends_with(s: &[char], pattern: &str) -> (yes: bool)
    ensures
        yes == ends(s@, pattern@),
{
    let pattern = chars_of(pattern);
    if pattern.len() > s.len() {
        return false;
    }
    occurs_at(s, &pattern, s.len() - pattern.len())
}

/// The first place at or after `from` where `pattern` stands in `s`.
pub fn find_chars(s: &[char], pattern: &[char], from: usize) -> (place: Option<usize>)
    ensures
        match place {
            Some(i) => find_from(s@, pattern@, from as int) == Some(i as int),
            None => find_from(s@, pattern@, from as int) is None,
        },
{
    if pattern.len() > s.len() {
        return None;
    }
    let mut i: usize = from;
    while i <= s.len() - pattern.len()
        invariant
            pattern.len() <= s.len(),
            from <= i,
            find_from(s@, pattern@, from as int) == find_from(s@, pattern@, i as int),
        decreases s.len() - pattern.len() + 1 - i,
    {
        if occurs_at(s, pattern, i) {
            return Some(i);
        }
        if i == s.len() {
            return None;
        }
        i += 1;
    }
    None
}

/// Whether `pattern` stands in `s`.
pub fn contains(s: &[char], pattern: &str) -> (yes: bool)
    ensures
        yes == mentions(s@, pattern@),
{
    let pattern = chars_of(pattern);
    proof {
        find_iff_has(s@, pattern@);
    }
    find_chars(s, &pattern, 0).is_some()
}

/// The index of the first `c` in `s`, or the length of `s` where there is none.
pub fn position_of(s: &[char], c: char) -> (place: usize)
    ensures
        place == position(s@, c),
        place <= s@.len(),
{
    let mut i: usize = 0;
    assert(s@.skip(0) == s@);
    while i < s.len() && s[i] != c
        invariant
            i <= s.len(),
            position(s@, c) == i + position(s@.skip(i as int), c),
        decreases s.len() - i,
    {
        assert(s@.skip(i as int).skip(1) == s@.skip(i + 1));
        i += 1;
    }
    i
}

/// `s` without the white space at its start.
pub fn trimmed_start(s: &[char]) -> (out: &[char])
    ensures
        out@ == trim_start(s@),
{
    let mut i: usize = 0;
    assert(s@.skip(0) == s@);
    while i < s.len() && space(s[i])
        invariant
            i <= s.len(),
            trim_start(s@) == trim_start(s@.skip(i as int)),
        decreases s.len() - i,
    {
        assert(s@.skip(i as int).skip(1) == s@.skip(i + 1));
        i += 1;
    }
    part(s, i, s.len())
}

/// `s` without the white space at its end.
pub fn trimmed_end(s: &[char]) -> (out: &[char])
    ensures
        out@ == trim_end(s@),
{
    let mut i: usize = s.len();
    assert(s@.take(i as int) == s@);
    while i > 0 && space(s[i - 1])
        invariant
            i <= s.len(),
            trim_end(s@) == trim_end(s@.take(i as int)),
        decreases i,
    {
        assert(s@.take(i as int).drop_last() == s@.take(i - 1));
        i -= 1;
    }
    part(s, 0, i)
}

/// `s` without the white space at either end.
pub fn trimmed(s: &[char]) -> (out: &[char])
    ensures
        out@ == trim(s@),
{
    trimmed_end(trimmed_start(s))
}

/// The pieces of `s` between the characters `c`.
pub fn split_at_char(s: &[char], c: char) -> (out: Vec<Vec<char>>)
    ensures
        views(out@) == split(s@, c),
        out@.len() > 0,
{
    let mut out: Vec<Vec<char>> = Vec::new();
    let mut from: usize = 0;
    assert(s@.skip(0) == s@);
    loop
        invariant
            from <= s.len(),
            split(s@, c) == views(out@) + split(s@.skip(from as int), c),
        decreases s.len() - from,
    {
        let rest = part(s, from, s.len());
        let n: usize = position_of(rest, c);
        let ghost before = views(out@);
        if n == rest.len() {
            out.push(copy_of(rest));
            assert(views(out@) == before + seq![rest@]);
            return out;
        }
        out.push(copy_of(part(rest, 0, n)));
        assert(views(out@) == before + seq![rest@.take(n as int)]);
        assert(rest@.skip(n + 1) == s@.skip(from + n + 1));
        from = from + n + 1;
    }
}

/// The lines of `s`.
pub fn lines_of(s: &[char]) -> (out: Vec<Vec<char>>)
    ensures
        views(out@) == lines(s@),
{
    let mut out: Vec<Vec<char>> = Vec::new();
    let mut from: usize = 0;
    assert(s@.skip(0) == s@);
    assert(views(out@) == Seq::<Seq<char>>::empty());
    while from < s.len()
        invariant
            from <= s.len(),
            lines(s@) == views(out@) + lines(s@.skip(from as int)),
        decreases s.len() - from,
    {
        let rest = part(s, from, s.len());
        let n: usize = position_of(rest, '\n');
        let ghost before = views(out@);
        if n == rest.len() {
            out.push(copy_of(rest));
            assert(views(out@) == before + seq![rest@]);
            return out;
        }
        let mut end: usize = n;
        if n > 0 && rest[n - 1] == '\r' {
            end = n - 1;
        }
        out.push(copy_of(part(rest, 0, end)));
        assert(rest@.take(n as int).drop_last() == rest@.take(n - 1) || n == 0);
        assert(views(out@) == before + seq![without_return(rest@.take(n as int))]);
        assert(rest@.skip(n + 1) == s@.skip(from + n + 1));
        from = from + n + 1;
    }
    assert(lines(s@.skip(from as int)) == Seq::<Seq<char>>::empty());
    out
}

/// The words of `s`.
pub fn words_of(s: &[char]) -> (out: Vec<Vec<char>>)
    ensures
        views(out@) == words(s@),
{
    let mut out: Vec<Vec<char>> = Vec::new();
    let mut from: usize = 0;
    assert(s@.skip(0) == s@);
    assert(views(out@) == Seq::<Seq<char>>::empty());
    while from < s.len()
        invariant
            from <= s.len(),
            words(s@) == views(out@) + words(s@.skip(from as int)),
        decreases s.len() - from,
    {
        let ghost rest = s@.skip(from as int);
        if space(s[from]) {
            assert(rest.skip(1) == s@.skip(from + 1));
            from += 1;
        } else {
            let mut to: usize = from;
            while to < s.len() && !space(s[to])
                invariant
                    from <= to <= s.len(),
                    rest == s@.skip(from as int),
                    space_position(rest) == to - from + space_position(s@.skip(to as int)),
                decreases s.len() - to,
            {
                assert(s@.skip(to as int).skip(1) == s@.skip(to + 1));
                to += 1;
            }
            let ghost before = views(out@);
            assert(from < to);
            out.push(copy_of(part(s, from, to)));
            assert(rest.take(to - from) == s@.subrange(from as int, to as int));
            assert(views(out@) == before + seq![rest.take(to - from)]);
            assert(rest.skip(to - from) == s@.skip(to as int));
            from = to;
        }
    }
    assert(words(s@.skip(from as int)) == Seq::<Seq<char>>::empty());
    out
}

/// The parts one after the other, with `sep` between them.
pub fn joined(parts: &Vec<Vec<char>>, sep: &str) -> (out: Vec<char>)
    ensures
        out@ == join(views(parts@), sep@),
{
    let mut out: Vec<char> = Vec::new();
    let sep = chars_of(sep);
    let mut i: usize = 0;
    while i < parts.len()
        invariant
            i <= parts.len(),
            out@ == join(views(parts@).take(i as int), sep@),
        decreases parts.len() - i,
    {
        let ghost all = views(parts@);
        assert(all.take(i + 1).drop_last() == all.take(i as int));
        if i > 0 {
            append(&mut out, &sep);
        }
        append(&mut out, &parts[i]);
        i += 1;
    }
    assert(views(parts@).take(parts.len() as int) == views(parts@));
    out
}

/// Puts `more` behind `s`.
pub fn append(s: &mut Vec<char>, more: &[char])
    ensures
        final(s)@ == old(s)@ + more@,
{
    let mut i: usize = 0;
    while i < more.len()
        invariant
            i <= more.len(),
            s@ == old(s)@ + more@.take(i as int),
        decreases more.len() - i,
    {
        s.push(more[i]);
        i += 1;
    }
    assert(more@.take(more.len() as int) == more@);
}

/// `s` with its ASCII capitals made small.
pub fn lowered_of(s: &[char]) -> (out: Vec<char>)
    ensures
        out@ == lowered(s@),
{
    let mut out: Vec<char> = Vec::new();
    let mut i: usize = 0;
    while i < s.len()
        invariant
            i <= s.len(),
            out@ == lowered(s@).take(i as int),
        decreases s.len() - i,
    {
        out.push(to_lower(s[i]));
        i += 1;
    }
    assert(lowered(s@).take(s.len() as int) == lowered(s@));
    out
}

/// `s` with every `from` turned into `to`.
pub fn swapped_of(s: &[char], from: char, to: char) -> (out: Vec<char>)
    ensures
        out@ == swapped(s@, from, to),
{
    let mut out: Vec<char> = Vec::new();
    let mut i: usize = 0;
    while i < s.len()
        invariant
            i <= s.len(),
            out@ == swapped(s@, from, to).take(i as int),
        decreases s.len() - i,
    {
        if s[i] == from {
            out.push(to);
        } else {
            out.push(s[i]);
        }
        i += 1;
    }
    assert(swapped(s@, from, to).take(s.len() as int) == swapped(s@, from, to));
    out
}

/// The first `n` characters of `s`, or all of them where there are fewer.
pub fn first_chars_of(s: &[char], n: usize) -> (out: &[char])
    ensures
        out@ == first_chars(s@, n as int),
{
    if s.len() <= n {
        s
    } else {
        part(s, 0, n)
    }
}

/// The number of characters of a text.
pub fn count_chars(text: &str) -> (n: usize)
    ensures
        n == text@.len(),
{
    chars_of(text).len()
}

/// A text with another one behind it.
pub fn concat(a: &str, b: &str) -> (out: String)
    ensures
        out@ == a@ + b@,
{
    let mut out = a.to_owned();
    out.append(b);
    out
}

/// A copy of an optional text.
pub fn copy_opt(text: &Option<String>) -> (out: Option<String>)
    ensures
        out == *text,
{
    match text {
        Some(t) => Some(t.clone()),
        None => None,
    }
}

/// A copy of a list of texts.
pub fn copy_texts(texts: &Vec<String>) -> (out: Vec<String>)
    ensures
        out@ == texts@,
{
    let mut out: Vec<String> = Vec::new();
    let mut i: usize = 0;
    while i < texts.len()
        invariant
            i <= texts.len(),
            out@ == texts@.take(i as int),
        decreases texts.len() - i,
    {
        out.push(texts[i].clone());
        i += 1;
    }
    assert(texts@.take(texts.len() as int) == texts@);
    out
}

/// The text without the characters `c` at its start.
pub fn char_trimmed_start(s: &[char], c: char) -> (out: &[char])
    ensures
        out@ == trim_char_start(s@, c),
{
    let mut i: usize = 0;
    assert(s@.skip(0) == s@);
    while i < s.len() && s[i] == c
        invariant
            i <= s.len(),
            trim_char_start(s@.skip(i as int), c) == trim_char_start(s@, c),
        decreases s.len() - i,
    {
        assert(s@.skip(i as int).skip(1) == s@.skip(i + 1));
        i += 1;
    }
    assert(s@.subrange(i as int, s@.len() as int) == s@.skip(i as int));
    part(s, i, s.len())
}

/// The text without the characters `c` at its end.
pub fn char_trimmed_end(s: &[char], c: char) -> (out: &[char])
    ensures
        out@ == trim_char_end(s@, c),
{
    let mut i: usize = s.len();
    assert(s@.take(s@.len() as int) == s@);
    while i > 0 && s[i - 1] == c
        invariant
            i <= s.len(),
            trim_char_end(s@.take(i as int), c) == trim_char_end(s@, c),
        decreases i,
    {
        assert(s@.take(i as int).drop_last() == s@.take(i - 1));
        i -= 1;
    }
    assert(s@.subrange(0, i as int) == s@.take(i as int));
    part(s, 0, i)
}

/// The pieces of `s` between the characters `c`, `n` of them at most.
pub fn fields_of(s: &[char], c: char, n: usize) -> (out: Vec<Vec<char>>)
    ensures
        views(out@) == fields(s@, c, n as nat),
        0 < out@.len(),
{
    let mut out: Vec<Vec<char>> = Vec::new();
    let mut rest: &[char] = s;
    let mut left: usize = n;
    loop
        invariant
            left <= n,
            views(out@) + fields(rest@, c, left as nat) == fields(s@, c, n as nat),
        decreases left,
    {
        let p = position_of(rest, c);
        let ghost before = out@;
        if left > 1 && p < rest.len() {
            out.push(copy_of(part(rest, 0, p)));
            assert(rest@.subrange(0, p as int) == rest@.take(p as int));
            assert(rest@.subrange(p + 1, rest@.len() as int) == rest@.skip(p + 1));
            assert(views(out@) == views(before).push(rest@.take(p as int)));
            assert(views(out@) + fields(rest@.skip(p + 1), c, (left - 1) as nat) == views(before)
                + fields(rest@, c, left as nat));
            rest = part(rest, p + 1, rest.len());
            left -= 1;
        } else {
            out.push(copy_of(rest));
            assert(views(out@) == views(before) + seq![rest@]);
            return out;
        }
    }
}

/// Texts of their own with the characters of the given ones.
pub fn texts_of(texts: &Vec<&str>) -> (out: Vec<String>)
    ensures
        views(out@) == views(texts@),
{
    let mut out: Vec<String> = Vec::new();
    let mut i: usize = 0;
    while i < texts.len()
        invariant
            i <= texts.len(),
            views(out@) == views(texts@).take(i as int),
        decreases texts.len() - i,
    {
        let ghost before = out@;
        out.push(texts[i].to_owned());
        assert(views(out@) == views(before).push(texts@[i as int]@));
        i += 1;
    }
    assert(views(texts@).take(texts@.len() as int) == views(texts@));
    out
}

/// `s` holds no white space.
pub open spec fn is_solid(s: Seq<char>) -> bool {
    forall|i: int| 0 <= i < s.len() ==> !is_space(#[trigger] s[i])
}

proof fn space_position_of_solid_start(a: Seq<char>, b: Seq<char>)
    ensures
        space_position(a + b) == if space_position(a) < a.len() {
            space_position(a)
        } else {
            a.len() + space_position(b)
        },
    decreases a.len(),
{
    if a.len() == 0 {
        assert(a + b == b);
    } else {
        assert((a + b)[0] == a[0]);
        if !is_space(a[0]) {
            space_position_of_solid_start(a.skip(1), b);
            space_position_is_first(a.skip(1));
            assert((a + b).skip(1) == a.skip(1) + b);
        }
    }
}

/// A word behind a text and a space is a word more.
pub proof fn words_grow(a: Seq<char>, word: Seq<char>)
    requires
        word.len() > 0,
        is_solid(word),
    ensures
        words(a + seq![' '] + word) == words(a).push(word),
        words(word) == seq![word],
    decreases a.len(),
{
    let s = a + seq![' '] + word;
    space_position_is_first(word);
    assert(word.take(word.len() as int) == word);
    assert(words(word.skip(word.len() as int)) == Seq::<Seq<char>>::empty());
    assert(words(word) == seq![word]);
    if a.len() == 0 {
        assert(s.skip(1) == word);
        assert(words(a) == Seq::<Seq<char>>::empty());
    } else if is_space(a[0]) {
        assert(s[0] == a[0]);
        assert(s.skip(1) == a.skip(1) + seq![' '] + word);
        words_grow(a.skip(1), word);
    } else {
        assert(s[0] == a[0]);
        let n = space_position(a);
        space_position_is_first(a);
        let tail = seq![' '] + word;
        assert(tail[0] == ' ');
        assert(space_position(tail) == 0);
        space_position_of_solid_start(a, tail);
        assert(s == a + tail);
        assert(space_position(s) == n);
        assert(s.take(n) == a.take(n));
        assert(s.skip(n) == a.skip(n) + seq![' '] + word);
        words_grow(a.skip(n), word);
    }
}

/// The words of words put together with spaces are those words.
pub proof fn words_of_joined(parts: Seq<Seq<char>>)
    requires
        forall|i: int| 0 <= i < parts.len() ==> (#[trigger] parts[i]).len() > 0 && is_solid(parts[i]),
    ensures
        words(join(parts, seq![' '])) == parts,
    decreases parts.len(),
{
    if parts.len() == 0 {
        assert(words(join(parts, seq![' '])) == parts);
    } else if parts.len() == 1 {
        words_grow(seq![], parts[0]);
        assert(parts == seq![parts[0]]);
    } else {
        words_of_joined(parts.drop_last());
        words_grow(join(parts.drop_last(), seq![' ']), parts.last());
        assert(parts == parts.drop_last().push(parts.last()));
    }
}

/// The words of a text are not empty and hold no white space, and their characters are those of
/// the text.
pub proof fn words_are_solid(s: Seq<char>)
    ensures
        forall|i: int|
            0 <= i < words(s).len() ==> (#[trigger] words(s)[i]).len() > 0 && is_solid(words(s)[i]),
        forall|i: int, k: int|
            0 <= i < words(s).len() && 0 <= k < words(s)[i].len() ==> s.contains(
                #[trigger] words(s)[i][k],
            ),
    decreases s.len(),
{
    if s.len() == 0 {
        assert(words(s) == Seq::<Seq<char>>::empty());
    } else if is_space(s[0]) {
        words_are_solid(s.skip(1));
        assert(words(s) == words(s.skip(1)));
        assert forall|i: int, k: int|
            0 <= i < words(s).len() && 0 <= k < words(s)[i].len() implies s.contains(
            #[trigger] words(s)[i][k],
        ) by {
            let c = words(s.skip(1))[i][k];
            assert(s.skip(1).contains(c));
            let j = choose|j: int| 0 <= j < s.skip(1).len() && s.skip(1)[j] == c;
            assert(s[j + 1] == c);
        }
    } else {
        let n = space_position(s);
        space_position_is_first(s);
        words_are_solid(s.skip(n));
        assert forall|i: int| 0 <= i < words(s).len() implies (#[trigger] words(s)[i]).len() > 0
            && is_solid(words(s)[i]) by {
            if i == 0 {
                assert(words(s)[0] == s.take(n));
            } else {
                assert(words(s)[i] == words(s.skip(n))[i - 1]);
            }
        }
        assert forall|i: int, k: int|
            0 <= i < words(s).len() && 0 <= k < words(s)[i].len() implies s.contains(
            #[trigger] words(s)[i][k],
        ) by {
            if i == 0 {
                assert(words(s)[0] == s.take(n));
                assert(words(s)[0][k] == s[k]);
            } else {
                let c = words(s.skip(n))[i - 1][k];
                assert(s.skip(n).contains(c));
                let j = choose|j: int| 0 <= j < s.skip(n).len() && s.skip(n)[j] == c;
                assert(s[j + n] == c);
            }
        }
    }
}

/// `s` cut to `width` characters, with a tilde for what was cut off.
pub open spec fn shortened(s: Seq<char>, width: nat) -> Seq<char> {
    if s.len() <= width {
        s
    } else if width == 0 {
        seq![]
    } else {
        s.take(width - 1).push('~')
    }
}

/// A text cut to a width takes up no more than that, and all of it where something was cut off.
pub proof fn shortened_fits(s: Seq<char>, width: nat)
    ensures
        shortened(s, width).len() <= width,
        s.len() > width ==> shortened(s, width).len() == width,
        shortened(shortened(s, width), width) == shortened(s, width),
{
}

/// The text cut to `width` characters, with a tilde for what was cut off.
pub fn truncate(input: &str, width: usize) -> (out: String)
    ensures
        out@ == shortened(input@, width as nat),
{
    let s = chars_of(input);
    if s.len() <= width {
        return input.to_owned();
    }
    if width == 0 {
        return String::new();
    }
    assert(s@.subrange(0, width - 1) == s@.take(width - 1));
    let mut out = string_of(part(&s, 0, width - 1));
    out.push('~');
    out
}

// ---------------------------------------------------------------------------
// What holds of them
// ---------------------------------------------------------------------------
/// The pieces of a text do not hold what separates them, and put together with it they are the text.
pub proof fn pieces_make_the_text(s: Seq<char>, c: char)
    ensures
        split(s, c).len() >= 1,
        forall|i: int| 0 <= i < split(s, c).len() ==> !(#[trigger] split(s, c)[i]).contains(c),
        join(split(s, c), seq![c]) == s,
    decreases s.len(),
{
    position_is_first(s, c);
    let n = position(s, c);
    if n < s.len() {
        let rest = split(s.skip(n + 1), c);
        pieces_make_the_text(s.skip(n + 1), c);
        assert forall|i: int| 0 <= i < split(s, c).len() implies !(
        #[trigger] split(s, c)[i]).contains(c) by {
            if i > 0 {
                assert(split(s, c)[i] == rest[i - 1]);
            }
        }
        join_of_first(s.take(n), rest, seq![c]);
        assert(s.take(n) + seq![c] + s.skip(n + 1) == s);
    } else {
        assert(join(seq![s], seq![c]) == s);
    }
}

proof fn join_of_first(first: Seq<char>, rest: Seq<Seq<char>>, sep: Seq<char>)
    requires
        rest.len() > 0,
    ensures
        join(seq![first] + rest, sep) == first + sep + join(rest, sep),
    decreases rest.len(),
{
    let all = seq![first] + rest;
    if rest.len() == 1 {
        assert(all.drop_last() == seq![first]);
        assert(join(seq![first], sep) == first);
        assert(all.last() == rest[0]);
    } else {
        join_of_first(first, rest.drop_last(), sep);
        assert(all.drop_last() == seq![first] + rest.drop_last());
        assert(all.last() == rest.last());
        assert(first + sep + join(rest.drop_last(), sep) + sep + rest.last() == first + sep + (join(
            rest.drop_last(),
            sep,
        ) + sep + rest.last()));
    }
}

/// The fields of a text are as many as asked for at most. None but the last holds what separates
/// them, and put together with it they are the text.
pub proof fn fields_make_the_text(s: Seq<char>, c: char, n: nat)
    requires
        n > 0,
    ensures
        1 <= fields(s, c, n).len() <= n,
        forall|i: int|
            0 <= i < fields(s, c, n).len() - 1 ==> !(#[trigger] fields(s, c, n)[i]).contains(c),
        fields(s, c, n).len() < n ==> !fields(s, c, n).last().contains(c),
        join(fields(s, c, n), seq![c]) == s,
    decreases n,
{
    position_is_first(s, c);
    let p = position(s, c);
    if n > 1 && p < s.len() {
        let rest = fields(s.skip(p + 1), c, (n - 1) as nat);
        fields_make_the_text(s.skip(p + 1), c, (n - 1) as nat);
        assert forall|i: int| 0 <= i < fields(s, c, n).len() - 1 implies !(
        #[trigger] fields(s, c, n)[i]).contains(c) by {
            if i > 0 {
                assert(fields(s, c, n)[i] == rest[i - 1]);
            }
        }
        assert(fields(s, c, n).last() == rest.last());
        join_of_first(s.take(p), rest, seq![c]);
        assert(s.take(p) + seq![c] + s.skip(p + 1) == s);
    } else {
        assert(join(seq![s], seq![c]) == s);
    }
}

/// A line that is put before a text, with a line feed behind it, is its first line. A carriage
/// return before the line feed does not count, and neither does a line feed at the end of a text.
pub proof fn line_is_read_back(line: Seq<char>, rest: Seq<char>)
    requires
        !line.contains('\n'),
    ensures
        line.len() == 0 || line.last() != '\r' ==> lines(line + seq!['\n'] + rest) == seq![line]
            + lines(rest),
        lines(line + seq!['\r', '\n'] + rest) == seq![line] + lines(rest),
        lines(line) == if line.len() > 0 {
            seq![line]
        } else {
            seq![]
        },
        rest.len() == 0 ==> lines(rest).len() == 0,
{
    position_is_first(line, '\n');
    let a = line + seq!['\n'] + rest;
    position_is_first(a, '\n');
    assert(a[line.len() as int] == '\n');
    assert(a.contains('\n'));
    let p = position(a, '\n');
    if p < line.len() {
        assert(line[p] == '\n');
    }
    assert(a.take(p) == line);
    assert(a.skip(p + 1) == rest);
    let b = line + seq!['\r', '\n'] + rest;
    position_is_first(b, '\n');
    assert(b[line.len() as int + 1] == '\n');
    assert(b.contains('\n'));
    let q = position(b, '\n');
    if q < line.len() {
        assert(line[q] == '\n');
    }
    assert(b[line.len() as int] == '\r');
    assert(q == line.len() + 1);
    assert(b.take(q).drop_last() == line);
    assert(b.take(q).last() == '\r');
    assert(b.skip(q + 1) == rest);
}

/// A text mentions what stands in it, starts with what stands first and ends with what stands last;
/// what stands behind its start is left once that is taken off.
pub proof fn parts_are_found(a: Seq<char>, b: Seq<char>, c: Seq<char>)
    ensures
        mentions(a + b + c, b),
        starts(a + b, a),
        ends(a + b, b),
        strip_prefix(a + b, a) == Some(b),
        a.len() > b.len() ==> !starts(b, a) && !ends(b, a) && !mentions(b, a),
{
    let n = a.len() as int;
    assert((a + b + c).subrange(n, n + b.len()) == b);
    assert(occurs(a + b + c, b, n));
    assert((a + b).subrange(0, n) == a);
    assert((a + b).subrange(n, n + b.len()) == b);
    assert((a + b).skip(n) == b);
}

/// Small letters and swapped characters change a text place by place; its start is kept as it is.
pub proof fn characters_change_in_place(s: Seq<char>, from: char, to: char, n: int, i: int)
    requires
        0 <= i < s.len(),
        0 <= n,
    ensures
        lowered(s).len() == s.len(),
        'A' <= s[i] <= 'Z' ==> (lowered(s)[i] as int) == (s[i] as int) + 32,
        !('A' <= s[i] <= 'Z') ==> lowered(s)[i] == s[i],
        swapped(s, from, to).len() == s.len(),
        s[i] == from ==> swapped(s, from, to)[i] == to,
        s[i] != from ==> swapped(s, from, to)[i] == s[i],
        i < n ==> first_chars(s, n)[i] == s[i],
        first_chars(s, n).len() <= n && first_chars(s, n).len() <= s.len(),
        first_chars(s, n).len() == n || first_chars(s, n).len() == s.len(),
{
}

/// Without a character at an end, a text has lost only such characters, and has none left there.
pub proof fn ends_lose_a_character(s: Seq<char>, c: char)
    ensures
        ({
            let tail = trim_char_start(s, c);
            let head = trim_char_end(s, c);
            &&& tail.len() <= s.len() && tail == s.skip(s.len() - tail.len())
            &&& head.len() <= s.len() && head == s.take(head.len() as int)
            &&& tail.len() > 0 ==> tail[0] != c
            &&& head.len() > 0 ==> head.last() != c
            &&& forall|j: int| 0 <= j < s.len() - tail.len() ==> s[j] == c
            &&& forall|j: int| head.len() <= j < s.len() ==> s[j] == c
        }),
    decreases s.len(),
{
    let tail = trim_char_start(s, c);
    let head = trim_char_end(s, c);
    if s.len() > 0 && s[0] == c {
        ends_lose_a_character(s.skip(1), c);
        assert(s.skip(1).skip(s.len() - 1 - tail.len()) == s.skip(s.len() - tail.len()));
        assert forall|j: int| 0 <= j < s.len() - tail.len() implies s[j] == c by {
            if j > 0 {
                assert(s.skip(1)[j - 1] == s[j]);
            }
        }
    } else {
        assert(s.skip(0) == s);
    }
    if s.len() > 0 && s.last() == c {
        ends_lose_a_character(s.drop_last(), c);
        assert(s.drop_last().take(head.len() as int) == s.take(head.len() as int));
        assert forall|j: int| head.len() <= j < s.len() implies s[j] == c by {
            if j < s.len() - 1 {
                assert(s.drop_last()[j] == s[j]);
            }
        }
    } else {
        assert(s.take(s.len() as int) == s);
    }
}

/// A text that is cut keeps its start and ends in a tilde; one that fits is kept whole.
pub proof fn cut_text_keeps_its_start(s: Seq<char>, width: nat)
    ensures
        s.len() <= width ==> shortened(s, width) == s,
        0 < width < s.len() ==> shortened(s, width).last() == '~' && forall|i: int|
            0 <= i < width - 1 ==> #[trigger] shortened(s, width)[i] == s[i],
        width == 0 ==> shortened(s, width).len() == 0,
{
}

} // verus!
