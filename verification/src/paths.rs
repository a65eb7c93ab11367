//! Paths as texts, with `/` between their components.
use crate::text::{
    chars_of, concat, copy_of, ends, ends_with, join, joined, opt_str, opt_view, part, position,
    position_is_first, same_chars, split, split_at_char, starts, starts_with, string_of,
    strip_prefix, trim, trimmed, views,
};
use vstd::prelude::*;

verus! {

// ---------------------------------------------------------------------------
// What the operations mean
// ---------------------------------------------------------------------------
/// A piece of a path that stands for no component: nothing, or the directory itself.
pub open spec fn is_void(piece: Seq<char>) -> bool {
    piece == ""@ || piece == "."@
}

/// The pieces without the void ones at their start.
pub open spec fn drop_void_start(pieces: Seq<Seq<char>>) -> Seq<Seq<char>>
    decreases pieces.len(),
{
    if pieces.len() > 0 && is_void(pieces[0]) {
        drop_void_start(pieces.skip(1))
    } else {
        pieces
    }
}

/// The pieces without the void ones at their end.
pub open spec fn drop_void_end(pieces: Seq<Seq<char>>) -> Seq<Seq<char>>
    decreases pieces.len(),
{
    if pieces.len() > 0 && is_void(pieces.last()) {
        drop_void_end(pieces.drop_last())
    } else {
        pieces
    }
}

/// The pieces that stand for a component.
pub open spec fn components(pieces: Seq<Seq<char>>) -> Seq<Seq<char>>
    decreases pieces.len(),
{
    if pieces.len() == 0 {
        seq![]
    } else if is_void(pieces[0]) {
        components(pieces.skip(1))
    } else {
        seq![pieces[0]] + components(pieces.skip(1))
    }
}

/// The last component of a path, where it is a name.
pub open spec fn file_name(path: Seq<char>) -> Option<Seq<char>> {
    let pieces = drop_void_end(split(path, '/'));
    if pieces.len() == 0 || pieces.last() == ".."@ {
        None
    } else {
        Some(pieces.last())
    }
}

/// The path starts at the root.
pub open spec fn is_absolute(path: Seq<char>) -> bool {
    path.len() > 0 && path[0] == '/'
}

/// A path taken from a directory: an absolute one stays as it is.
pub open spec fn joined_path(base: Seq<char>, child: Seq<char>) -> Seq<char> {
    if is_absolute(child) {
        child
    } else if base.len() == 0 || base.last() == '/' {
        base + child
    } else {
        base + seq!['/'] + child
    }
}

/// The pieces behind those that stand for the components `base`; nothing where they do not.
pub open spec fn behind(pieces: Seq<Seq<char>>, base: Seq<Seq<char>>) -> Option<Seq<Seq<char>>>
    decreases pieces.len(),
{
    if base.len() == 0 {
        Some(pieces)
    } else if pieces.len() == 0 {
        None
    } else if is_void(pieces[0]) {
        behind(pieces.skip(1), base)
    } else if pieces[0] == base[0] {
        behind(pieces.skip(1), base.skip(1))
    } else {
        None
    }
}

/// The first piece of a path counts as a component of its own: it is the root, or the directory
/// itself.
pub open spec fn has_start(path: Seq<char>) -> bool {
    is_absolute(path) || split(path, '/')[0] == "."@
}

/// The path from the directory `base`, which is not empty; nothing where the path does not lie in
/// it.
pub open spec fn relative_path(path: Seq<char>, base: Seq<char>) -> Option<Seq<char>> {
    let pieces = split(path, '/');
    let roots = split(base, '/');
    let rest = if has_start(path) && has_start(base) {
        if pieces[0] == roots[0] {
            behind(pieces.skip(1), components(roots.skip(1)))
        } else {
            None
        }
    } else if has_start(path) || has_start(base) {
        None
    } else {
        behind(pieces, components(roots))
    };
    match rest {
        Some(rest) => Some(join(drop_void_end(drop_void_start(rest)), "/"@)),
        None => None,
    }
}

/// The directory that an environment variable names: its value, where it is set and not empty.
pub open spec fn set_dir(value: Option<Seq<char>>) -> Option<Seq<char>> {
    match value {
        Some(dir) => if dir.len() > 0 {
            Some(dir)
        } else {
            None
        },
        None => None,
    }
}

/// A path as a prompt shows it, by the value of `HOME`: with `~` for the home directory.
pub open spec fn prompt_form(path: Seq<char>, home: Option<Seq<char>>) -> Seq<char> {
    match set_dir(home) {
        Some(home) => match relative_path(path, home) {
            Some(rest) => if rest.len() == 0 {
                "~"@
            } else {
                "~/"@ + rest
            },
            None => path,
        },
        None => path,
    }
}

/// Why a path that was typed in names no directory.
#[derive(Debug, Clone, Copy, PartialEq, Eq, Structural)]
pub enum PathError {
    /// Nothing was typed in.
    Empty,
    /// The home directory is not known.
    NoHome,
}

/// A path with `~` at its start turned into the home directory, by the value of `HOME`.
pub open spec fn expanded(input: Seq<char>, home: Option<Seq<char>>) -> Result<Seq<char>, PathError> {
    if input == "~"@ {
        match set_dir(home) {
            Some(home) => Ok(home),
            None => Err(PathError::NoHome),
        }
    } else {
        match strip_prefix(input, "~/"@) {
            Some(rest) => match set_dir(home) {
                Some(home) => Ok(joined_path(home, rest)),
                None => Err(PathError::NoHome),
            },
            None => Ok(input),
        }
    }
}

/// The path that a typed text names, from the current directory.
pub open spec fn named_path(
    current: Seq<char>,
    input: Seq<char>,
    home: Option<Seq<char>>,
) -> Result<Seq<char>, PathError> {
    if input.len() == 0 {
        Err(PathError::Empty)
    } else {
        match expanded(input, home) {
            Ok(path) => Ok(joined_path(current, path)),
            Err(error) => Err(error),
        }
    }
}

/// The name of a project for want of a better one: its directory's, or the whole path.
pub open spec fn directory_label(path: Seq<char>) -> Seq<char> {
    match file_name(path) {
        Some(name) => name,
        None => path,
    }
}

/// `s` without the texts `end` at its end.
pub open spec fn without_ends(s: Seq<char>, end: Seq<char>) -> Seq<char>
    decreases s.len(),
{
    if end.len() > 0 && ends(s, end) {
        without_ends(s.take(s.len() - end.len()), end)
    } else {
        s
    }
}

/// The repository path of a GitHub remote, behind the host.
pub open spec fn github_path(remote: Seq<char>) -> Option<Seq<char>> {
    if starts(remote, "git@github.com:"@) {
        strip_prefix(remote, "git@github.com:"@)
    } else if starts(remote, "https://github.com/"@) {
        strip_prefix(remote, "https://github.com/"@)
    } else if starts(remote, "http://github.com/"@) {
        strip_prefix(remote, "http://github.com/"@)
    } else {
        strip_prefix(remote, "ssh://git@github.com/"@)
    }
}

/// The owner and name of the repository at a GitHub remote.
pub open spec fn github_repository(remote: Seq<char>) -> Option<Seq<char>> {
    match github_path(without_ends(remote, ".git"@)) {
        Some(path) => {
            let pieces = split(path, '/');
            if pieces.len() < 2 || trim(pieces[0]).len() == 0 || trim(pieces[1]).len() == 0 {
                None
            } else {
                Some(trim(pieces[0]) + "/"@ + trim(pieces[1]))
            }
        },
        None => None,
    }
}

// ---------------------------------------------------------------------------
// The operations
// ---------------------------------------------------------------------------
fn void(piece: &[char]) -> (yes: bool)
    ensures
        yes == is_void(piece@),
{
    same_chars(piece, &chars_of("")) || same_chars(piece, &chars_of("."))
}

/// The last component of a path, where it is a name.
pub fn file_name_of(path: &str) -> (out: Option<String>)
    ensures
        opt_view(out) == file_name(path@),
{
    let pieces = split_at_char(&chars_of(path), '/');
    let ghost all = views(pieces@);
    let mut n: usize = pieces.len();
    assert(all.take(all.len() as int) == all);
    while n > 0 && void(&pieces[n - 1])
        invariant
            n <= pieces.len(),
            all == views(pieces@),
            drop_void_end(all.take(n as int)) == drop_void_end(all),
        decreases n,
    {
        assert(all.take(n as int).drop_last() == all.take(n - 1));
        assert(all.take(n as int).last() == pieces@[n - 1]@);
        n -= 1;
    }
    if n == 0 {
        return None;
    }
    assert(all.take(n as int).last() == pieces@[n - 1]@);
    if same_chars(&pieces[n - 1], &chars_of("..")) {
        None
    } else {
        Some(string_of(&pieces[n - 1]))
    }
}

/// Whether a path starts at the root.
pub fn absolute(path: &str) -> (yes: bool)
    ensures
        yes == is_absolute(path@),
{
    let s = chars_of(path);
    s.len() > 0 && s[0] == '/'
}

/// A path taken from a directory: an absolute one stays as it is.
pub fn join_path(base: &str, child: &str) -> (out: String)
    ensures
        out@ == joined_path(base@, child@),
{
    let s = chars_of(base);
    if absolute(child) {
        child.to_owned()
    } else if s.len() == 0 || s[s.len() - 1] == '/' {
        concat(base, child)
    } else {
        proof {
            slash_is_one_char();
        }
        concat(&concat(base, "/"), child)
    }
}

proof fn slash_is_one_char()
    ensures
        "/"@ == seq!['/'],
{
    reveal_strlit("/");
}

fn components_of(pieces: &Vec<Vec<char>>, from: usize) -> (out: Vec<Vec<char>>)
    requires
        from <= pieces@.len(),
    ensures
        views(out@) == components(views(pieces@).skip(from as int)),
{
    let mut out: Vec<Vec<char>> = Vec::new();
    let ghost all = views(pieces@);
    let mut i: usize = from;
    while i < pieces.len()
        invariant
            from <= i <= pieces.len(),
            all == views(pieces@),
            views(out@) + components(all.skip(i as int)) == components(all.skip(from as int)),
        decreases pieces.len() - i,
    {
        assert(all.skip(i as int).skip(1) == all.skip(i + 1));
        assert(all.skip(i as int)[0] == pieces@[i as int]@);
        if !void(&pieces[i]) {
            let ghost before = out@;
            out.push(copy_of(&pieces[i]));
            assert(views(out@) == views(before).push(pieces@[i as int]@));
            assert(views(out@) + components(all.skip(i + 1)) == views(before) + components(
                all.skip(i as int),
            ));
        }
        i += 1;
    }
    assert(views(out@) + Seq::<Seq<char>>::empty() == views(out@));
    out
}

fn behind_of(pieces: &Vec<Vec<char>>, from: usize, base: &Vec<Vec<char>>) -> (place: Option<usize>)
    requires
        from <= pieces@.len(),
    ensures
        match place {
            Some(n) => from <= n <= pieces@.len() && behind(
                views(pieces@).skip(from as int),
                views(base@),
            ) == Some(views(pieces@).skip(n as int)),
            None => behind(views(pieces@).skip(from as int), views(base@)) is None,
        },
{
    let ghost all = views(pieces@);
    let ghost wanted = views(base@);
    let mut i: usize = from;
    let mut k: usize = 0;
    assert(wanted.skip(0) == wanted);
    while k < base.len()
        invariant
            from <= i <= pieces.len(),
            k <= base.len(),
            all == views(pieces@),
            wanted == views(base@),
            behind(all.skip(i as int), wanted.skip(k as int)) == behind(
                all.skip(from as int),
                wanted,
            ),
        decreases pieces.len() - i,
    {
        if i >= pieces.len() {
            return None;
        }
        assert(all.skip(i as int).skip(1) == all.skip(i + 1));
        assert(all.skip(i as int)[0] == pieces@[i as int]@);
        assert(wanted.skip(k as int)[0] == base@[k as int]@);
        assert(wanted.skip(k as int).skip(1) == wanted.skip(k + 1));
        if void(&pieces[i]) {
            i += 1;
        } else if same_chars(&pieces[i], &base[k]) {
            i += 1;
            k += 1;
        } else {
            return None;
        }
    }
    Some(i)
}

fn starts_itself(path: &str, pieces: &Vec<Vec<char>>) -> (yes: bool)
    requires
        views(pieces@) == split(path@, '/'),
        pieces@.len() > 0,
    ensures
        yes == has_start(path@),
{
    assert(views(pieces@)[0] == pieces@[0]@);
    absolute(path) || same_chars(&pieces[0], &chars_of("."))
}

fn rest_text(pieces: &Vec<Vec<char>>, from: usize) -> (out: Vec<char>)
    requires
        from <= pieces@.len(),
    ensures
        out@ == join(drop_void_end(drop_void_start(views(pieces@).skip(from as int))), "/"@),
{
    let ghost all = views(pieces@);
    let mut i: usize = from;
    while i < pieces.len() && void(&pieces[i])
        invariant
            from <= i <= pieces.len(),
            all == views(pieces@),
            drop_void_start(all.skip(i as int)) == drop_void_start(all.skip(from as int)),
        decreases pieces.len() - i,
    {
        assert(all.skip(i as int).skip(1) == all.skip(i + 1));
        assert(all.skip(i as int)[0] == pieces@[i as int]@);
        i += 1;
    }
    let ghost rest = all.skip(i as int);
    assert(rest.len() > 0 ==> rest[0] == pieces@[i as int]@);
    let mut n: usize = pieces.len();
    assert(all.subrange(i as int, n as int) == rest);
    while n > i && void(&pieces[n - 1])
        invariant
            i <= n <= pieces.len(),
            all == views(pieces@),
            drop_void_end(all.subrange(i as int, n as int)) == drop_void_end(rest),
        decreases n,
    {
        assert(all.subrange(i as int, n as int).drop_last() == all.subrange(i as int, n - 1));
        assert(all.subrange(i as int, n as int).last() == pieces@[n - 1]@);
        n -= 1;
    }
    assert(n > i ==> all.subrange(i as int, n as int).last() == pieces@[n - 1]@);
    let mut kept: Vec<Vec<char>> = Vec::new();
    let mut k: usize = i;
    while k < n
        invariant
            i <= k <= n <= pieces.len(),
            all == views(pieces@),
            views(kept@) == all.subrange(i as int, k as int),
        decreases n - k,
    {
        let ghost before = kept@;
        kept.push(copy_of(&pieces[k]));
        assert(views(kept@) == views(before).push(pieces@[k as int]@));
        k += 1;
    }
    joined(&kept, "/")
}

/// The path from the directory `base`; nothing where the path does not lie in it.
pub fn relative_to(path: &str, base: &str) -> (out: Option<String>)
    requires
        base@.len() > 0,
    ensures
        opt_view(out) == relative_path(path@, base@),
{
    let pieces = split_at_char(&chars_of(path), '/');
    let roots = split_at_char(&chars_of(base), '/');
    let inner = starts_itself(path, &pieces);
    let outer = starts_itself(base, &roots);
    assert(views(pieces@)[0] == pieces@[0]@ && views(roots@)[0] == roots@[0]@);
    if inner != outer || (inner && !same_chars(&pieces[0], &roots[0])) {
        return None;
    }
    let from: usize = if inner { 1 } else { 0 };
    let wanted = components_of(&roots, from);
    assert(views(pieces@).skip(0) == views(pieces@));
    assert(views(roots@).skip(0) == views(roots@));
    match behind_of(&pieces, from, &wanted) {
        Some(n) => Some(string_of(&rest_text(&pieces, n))),
        None => None,
    }
}

/// The directory that an environment variable names: its value, where it is set and not empty.
pub fn usable_dir(value: Option<&str>) -> (out: Option<String>)
    ensures
        opt_view(out) == set_dir(opt_str(value)),
{
    match value {
        Some(dir) => if chars_of(dir).len() > 0 {
            Some(dir.to_owned())
        } else {
            None
        },
        None => None,
    }
}

/// A path as a prompt shows it: with `~` for the home directory.
pub fn prompt_path(path: &str, home: Option<&str>) -> (out: String)
    ensures
        out@ == prompt_form(path@, opt_str(home)),
{
    match usable_dir(home) {
        Some(home) => match relative_to(path, &home) {
            Some(rest) => if chars_of(&rest).len() == 0 {
                "~".to_owned()
            } else {
                concat("~/", &rest)
            },
            None => path.to_owned(),
        },
        None => path.to_owned(),
    }
}

/// A path with `~` at its start turned into the home directory.
pub fn expand_home_path(input: &str, home: Option<&str>) -> (out: Result<String, PathError>)
    ensures
        match out {
            Ok(path) => expanded(input@, opt_str(home)) == Ok::<Seq<char>, PathError>(path@),
            Err(error) => expanded(input@, opt_str(home)) == Err::<Seq<char>, PathError>(error),
        },
{
    let s = chars_of(input);
    if same_chars(&s, &chars_of("~")) {
        return match usable_dir(home) {
            Some(home) => Ok(home),
            None => Err(PathError::NoHome),
        };
    }
    if starts_with(&s, "~/") {
        proof {
            reveal_strlit("~/");
        }
        assert(s@.subrange(2, s@.len() as int) == s@.skip(2));
        let rest = string_of(part(&s, 2, s.len()));
        return match usable_dir(home) {
            Some(home) => Ok(join_path(&home, &rest)),
            None => Err(PathError::NoHome),
        };
    }
    Ok(input.to_owned())
}

/// The path that a typed text names, from the current directory.
pub fn resolve_project_dir(current: &str, input: &str, home: Option<&str>) -> (out: Result<
    String,
    PathError,
>)
    ensures
        match out {
            Ok(path) => named_path(current@, input@, opt_str(home)) == Ok::<Seq<char>, PathError>(
                path@,
            ),
            Err(error) => named_path(current@, input@, opt_str(home)) == Err::<
                Seq<char>,
                PathError,
            >(error),
        },
{
    if chars_of(input).len() == 0 {
        return Err(PathError::Empty);
    }
    match expand_home_path(input, home) {
        Ok(path) => Ok(join_path(current, &path)),
        Err(error) => Err(error),
    }
}

impl PathError {
    /// What the error is called.
    pub open spec fn text(self) -> Seq<char> {
        match self {
            PathError::Empty => "repo path cannot be empty"@,
            PathError::NoHome => "HOME is not set; cannot resolve ~"@,
        }
    }

    /// What the error is called.
    pub fn message(self) -> (out: String)
        ensures
            out@ == self.text(),
    {
        match self {
            PathError::Empty => "repo path cannot be empty".to_owned(),
            PathError::NoHome => "HOME is not set; cannot resolve ~".to_owned(),
        }
    }
}

/// The name of a project for want of a better one: its directory's, or the whole path.
pub fn fallback_project_label(project_dir: &str) -> (out: String)
    ensures
        out@ == directory_label(project_dir@),
{
    match file_name_of(project_dir) {
        Some(name) => name,
        None => project_dir.to_owned(),
    }
}

fn without_suffixes<'a>(s: &'a [char], end: &str) -> (out: &'a [char])
    requires
        end@.len() > 0,
    ensures
        out@ == without_ends(s@, end@),
{
    let wanted = chars_of(end);
    let mut rest: &'a [char] = s;
    while ends_with(rest, end)
        invariant
            wanted@ == end@,
            wanted@.len() > 0,
            without_ends(rest@, end@) == without_ends(s@, end@),
        decreases rest@.len(),
    {
        assert(rest@.subrange(0, rest@.len() - end@.len()) == rest@.take(
            rest@.len() - end@.len(),
        ));
        rest = part(rest, 0, rest.len() - wanted.len());
    }
    rest
}

fn after_prefix(s: &[char], prefix: &str) -> (out: Vec<char>)
    requires
        starts(s@, prefix@),
    ensures
        Some(out@) == strip_prefix(s@, prefix@),
{
    let n: usize = chars_of(prefix).len();
    assert(s@.subrange(n as int, s@.len() as int) == s@.skip(n as int));
    copy_of(part(s, n, s.len()))
}

/// The owner and name of the repository at a GitHub remote.
pub fn parse_github_remote(remote: &str) -> (out: Option<String>)
    ensures
        opt_view(out) == github_repository(remote@),
{
    proof {
        reveal_strlit(".git");
    }
    let s = chars_of(remote);
    let short = without_suffixes(&s, ".git");
    let path = if starts_with(short, "git@github.com:") {
        after_prefix(short, "git@github.com:")
    } else if starts_with(short, "https://github.com/") {
        after_prefix(short, "https://github.com/")
    } else if starts_with(short, "http://github.com/") {
        after_prefix(short, "http://github.com/")
    } else if starts_with(short, "ssh://git@github.com/") {
        after_prefix(short, "ssh://git@github.com/")
    } else {
        return None;
    };
    let pieces = split_at_char(&path, '/');
    if pieces.len() < 2 {
        return None;
    }
    assert(views(pieces@)[0] == pieces@[0]@ && views(pieces@)[1] == pieces@[1]@);
    let owner = trimmed(&pieces[0]);
    let repo = trimmed(&pieces[1]);
    if owner.len() == 0 || repo.len() == 0 {
        None
    } else {
        Some(concat(&concat(&string_of(owner), "/"), &string_of(repo)))
    }
}

/// The place of the session cache: under the configuration directory, or under the home directory
/// where that is not given. Nothing where neither is.
pub open spec fn cache_path(
    config: Option<Seq<char>>,
    home: Option<Seq<char>>,
) -> Option<Seq<char>> {
    let base = match (set_dir(config), set_dir(home)) {
        (Some(config), _) => Some(config),
        (None, Some(home)) => Some(joined_path(home, ".config"@)),
        (None, None) => None,
    };
    match base {
        Some(base) => Some(joined_path(joined_path(base, "gh-pilot"@), "sessions.sqlite3"@)),
        None => None,
    }
}

/// The place of the session cache, by the values of `XDG_CONFIG_HOME` and `HOME`.
pub fn database_path(config_home: Option<&str>, home: Option<&str>) -> (out: Option<String>)
    ensures
        opt_view(out) == cache_path(opt_str(config_home), opt_str(home)),
{
    let base = match usable_dir(config_home) {
        Some(dir) => dir,
        None => match usable_dir(home) {
            Some(dir) => join_path(&dir, ".config"),
            None => {
                return None;
            },
        },
    };
    Some(join_path(&join_path(&base, "gh-pilot"), "sessions.sqlite3"))
}

// ---------------------------------------------------------------------------
// Laws
// ---------------------------------------------------------------------------
/// What a prompt shows of an absolute path leads back to it when it is typed in: to the same
/// components from the root.
pub proof fn shown_path_leads_back(path: Seq<char>, home: Seq<char>)
    requires
        is_absolute(path),
        is_absolute(home),
    ensures
        ({
            let typed = expanded(prompt_form(path, Some(home)), Some(home));
            &&& typed is Ok
            &&& is_absolute(typed->Ok_0)
            &&& components(split(typed->Ok_0, '/')) == components(split(path, '/'))
        }),
{
    let pieces = split(path, '/');
    let roots = split(home, '/');
    root_is_empty(path);
    root_is_empty(home);
    reveal_strlit("");
    reveal_strlit("~");
    reveal_strlit("~/");
    assert(components(pieces) == components(pieces.skip(1)));
    assert(components(roots) == components(roots.skip(1)));
    match behind(pieces.skip(1), components(roots.skip(1))) {
        None => {
            assert(prompt_form(path, Some(home)) == path);
            assert(path != "~"@);
            assert(!starts(path, "~/"@)) by {
                if starts(path, "~/"@) {
                    assert(path.take(2)[0] == path[0]);
                }
            }
        },
        Some(rest) => {
            behind_components(pieces.skip(1), components(roots.skip(1)));
            let kept = drop_void_end(drop_void_start(rest));
            kept_components(rest);
            pieces_are_bare(path, '/');
            behind_is_tail(pieces.skip(1), components(roots.skip(1)));
            assert forall|i: int| 0 <= i < kept.len() implies !(#[trigger] kept[i]).contains(
                '/',
            ) by {
                kept_is_part(rest, i);
            }
            let shown = join(kept, "/"@);
            if kept.len() == 0 {
                assert(prompt_form(path, Some(home)) == "~"@);
                assert(components(kept) == Seq::<Seq<char>>::empty());
                assert(components(roots) + Seq::<Seq<char>>::empty() == components(roots));
            } else {
                kept_start(rest);
                join_starts(kept);
                assert(shown.len() > 0 && shown[0] == kept[0][0]);
                assert(shown[0] != '/');
                assert(prompt_form(path, Some(home)) == "~/"@ + shown);
                let typed = "~/"@ + shown;
                assert(typed != "~"@);
                assert(starts(typed, "~/"@)) by {
                    assert(typed.take(2) == "~/"@);
                }
                assert(typed.skip(2) == shown);
                split_of_join(kept);
                let full = joined_path(home, shown);
                joined_components(home, shown);
                assert(components(split(full, '/')) == components(roots) + components(kept));
                assert(full[0] == '/');
            }
        },
    }
}

proof fn root_is_empty(path: Seq<char>)
    requires
        is_absolute(path),
    ensures
        split(path, '/').len() > 1,
        split(path, '/')[0] == ""@,
{
    reveal_strlit("");
    assert(position(path, '/') == 0);
    assert(path.take(0) == ""@);
    split_has_piece(path.skip(1));
}

proof fn split_has_piece(s: Seq<char>)
    ensures
        split(s, '/').len() >= 1,
    decreases s.len(),
{
    let n = position(s, '/');
    if 0 <= n < s.len() {
        split_has_piece(s.skip(n + 1));
    }
}

proof fn pieces_are_bare(s: Seq<char>, c: char)
    ensures
        forall|i: int| 0 <= i < split(s, c).len() ==> !(#[trigger] split(s, c)[i]).contains(c),
    decreases s.len(),
{
    let n = position(s, c);
    position_is_first(s, c);
    if 0 <= n < s.len() {
        pieces_are_bare(s.skip(n + 1), c);
        let rest = split(s.skip(n + 1), c);
        assert forall|i: int| 0 <= i < split(s, c).len() implies !(#[trigger] split(s, c)[i]).contains(
            c,
        ) by {
            if i == 0 {
                assert forall|j: int| 0 <= j < n implies s.take(n)[j] != c by {}
            } else {
                assert(split(s, c)[i] == rest[i - 1]);
            }
        }
    }
}

/// The pieces of two texts with the character between them are those of the one and of the other.
pub proof fn split_of_two(a: Seq<char>, b: Seq<char>, c: char)
    ensures
        split(a + seq![c] + b, c) == split(a, c) + split(b, c),
    decreases a.len(),
{
    let all = a + seq![c] + b;
    position_is_first(a, c);
    position_is_first(all, c);
    let n = position(a, c);
    assert(all[a.len() as int] == c);
    assert(position(all, c) == n) by {
        let m = position(all, c);
        assert forall|j: int| 0 <= j < n implies all[j] != c by {
            assert(all[j] == a[j]);
        }
        assert(all[n] == c);
        if m < n {
            assert(all[m] == c);
        }
        if n < m {
            assert(all[n] != c);
        }
    }
    assert(all.take(n) == a.take(n));
    if n < a.len() {
        assert(all.skip(n + 1) == a.skip(n + 1) + seq![c] + b);
        split_of_two(a.skip(n + 1), b, c);
        assert(split(all, c) == seq![a.take(n)] + (split(a.skip(n + 1), c) + split(b, c)));
        assert(split(all, c) == split(a, c) + split(b, c));
    } else {
        assert(a.take(n) == a);
        assert(all.skip(n + 1) == b);
    }
}

proof fn split_of_join(pieces: Seq<Seq<char>>)
    requires
        pieces.len() > 0,
        forall|i: int| 0 <= i < pieces.len() ==> !(#[trigger] pieces[i]).contains('/'),
    ensures
        split(join(pieces, "/"@), '/') == pieces,
    decreases pieces.len(),
{
    reveal_strlit("/");
    assert("/"@ == seq!['/']);
    let last = pieces.last();
    position_is_first(last, '/');
    assert(!pieces[pieces.len() - 1].contains('/'));
    assert(split(last, '/') == seq![last]);
    if pieces.len() == 1 {
        assert(pieces == seq![last]);
    } else {
        let head = pieces.drop_last();
        assert forall|i: int| 0 <= i < head.len() implies !(#[trigger] head[i]).contains('/') by {
            assert(head[i] == pieces[i]);
        }
        split_of_join(head);
        split_of_two(join(head, "/"@), last, '/');
        assert(pieces == head + seq![last]);
    }
}

proof fn join_starts(pieces: Seq<Seq<char>>)
    requires
        pieces.len() > 0,
        pieces[0].len() > 0,
    ensures
        join(pieces, "/"@).len() > 0,
        join(pieces, "/"@)[0] == pieces[0][0],
    decreases pieces.len(),
{
    if pieces.len() > 1 {
        join_starts(pieces.drop_last());
    }
}

proof fn components_of_two(a: Seq<Seq<char>>, b: Seq<Seq<char>>)
    ensures
        components(a + b) == components(a) + components(b),
    decreases a.len(),
{
    if a.len() == 0 {
        assert(a + b == b);
    } else {
        assert((a + b).skip(1) == a.skip(1) + b);
        components_of_two(a.skip(1), b);
        if !is_void(a[0]) {
            assert(components(a + b) == components(a) + components(b));
        }
    }
}

proof fn behind_components(pieces: Seq<Seq<char>>, base: Seq<Seq<char>>)
    requires
        behind(pieces, base) is Some,
    ensures
        components(pieces) == base + components(behind(pieces, base)->0),
    decreases pieces.len(),
{
    if base.len() > 0 {
        if is_void(pieces[0]) {
            behind_components(pieces.skip(1), base);
        } else {
            behind_components(pieces.skip(1), base.skip(1));
            assert(base == seq![base[0]] + base.skip(1));
        }
    } else {
        assert(base + components(pieces) == components(pieces));
    }
}

proof fn behind_is_tail(pieces: Seq<Seq<char>>, base: Seq<Seq<char>>)
    requires
        behind(pieces, base) is Some,
    ensures
        behind(pieces, base)->0.len() <= pieces.len(),
        behind(pieces, base)->0 == pieces.skip(pieces.len() - behind(pieces, base)->0.len()),
    decreases pieces.len(),
{
    if base.len() > 0 {
        if is_void(pieces[0]) {
            behind_is_tail(pieces.skip(1), base);
        } else {
            behind_is_tail(pieces.skip(1), base.skip(1));
        }
    } else {
        assert(pieces.skip(0) == pieces);
    }
}

proof fn kept_components(pieces: Seq<Seq<char>>)
    ensures
        components(drop_void_end(drop_void_start(pieces))) == components(pieces),
{
    start_components(pieces);
    end_components(drop_void_start(pieces));
}

proof fn start_components(pieces: Seq<Seq<char>>)
    ensures
        components(drop_void_start(pieces)) == components(pieces),
    decreases pieces.len(),
{
    if pieces.len() > 0 && is_void(pieces[0]) {
        start_components(pieces.skip(1));
    }
}

proof fn end_components(pieces: Seq<Seq<char>>)
    ensures
        components(drop_void_end(pieces)) == components(pieces),
    decreases pieces.len(),
{
    if pieces.len() > 0 && is_void(pieces.last()) {
        end_components(pieces.drop_last());
        let last = seq![pieces.last()];
        assert(pieces == pieces.drop_last() + last);
        components_of_two(pieces.drop_last(), last);
        assert(components(last.skip(1)) == Seq::<Seq<char>>::empty());
        assert(components(last) == Seq::<Seq<char>>::empty());
    }
}

proof fn kept_is_part(pieces: Seq<Seq<char>>, i: int)
    requires
        0 <= i < drop_void_end(drop_void_start(pieces)).len(),
    ensures
        pieces.contains(drop_void_end(drop_void_start(pieces))[i]),
{
    end_is_part(drop_void_start(pieces), i);
    start_is_part(pieces, i);
}

proof fn start_is_part(pieces: Seq<Seq<char>>, i: int)
    requires
        0 <= i < drop_void_start(pieces).len(),
    ensures
        pieces.contains(drop_void_start(pieces)[i]),
    decreases pieces.len(),
{
    if pieces.len() > 0 && is_void(pieces[0]) {
        start_is_part(pieces.skip(1), i);
        let k = pieces.skip(1).index_of(drop_void_start(pieces)[i]);
        assert(pieces[k + 1] == drop_void_start(pieces)[i]);
    } else {
        assert(pieces[i] == drop_void_start(pieces)[i]);
    }
}

proof fn end_is_part(pieces: Seq<Seq<char>>, i: int)
    requires
        0 <= i < drop_void_end(pieces).len(),
    ensures
        i < pieces.len(),
        drop_void_end(pieces)[i] == pieces[i],
    decreases pieces.len(),
{
    if pieces.len() > 0 && is_void(pieces.last()) {
        end_is_part(pieces.drop_last(), i);
    }
}

proof fn kept_start(pieces: Seq<Seq<char>>)
    requires
        drop_void_end(drop_void_start(pieces)).len() > 0,
    ensures
        drop_void_end(drop_void_start(pieces))[0].len() > 0,
{
    end_is_part(drop_void_start(pieces), 0);
    first_is_solid(pieces);
    reveal_strlit("");
    let first = drop_void_start(pieces)[0];
    if first.len() == 0 {
        assert(first == ""@);
    }
}

proof fn first_is_solid(pieces: Seq<Seq<char>>)
    requires
        drop_void_start(pieces).len() > 0,
    ensures
        !is_void(drop_void_start(pieces)[0]),
    decreases pieces.len(),
{
    if pieces.len() > 0 && is_void(pieces[0]) {
        first_is_solid(pieces.skip(1));
    }
}

/// The components of a path taken from a directory are those of the directory and its own.
pub proof fn joined_components(base: Seq<char>, child: Seq<char>)
    requires
        base.len() > 0,
        !is_absolute(child),
    ensures
        components(split(joined_path(base, child), '/')) == components(split(base, '/'))
            + components(split(child, '/')),
{
    if base.last() == '/' {
        let head = base.drop_last();
        let nothing = Seq::<char>::empty();
        assert(base == head + seq!['/'] + nothing);
        assert(base + child == head + seq!['/'] + child);
        split_of_two(head, nothing, '/');
        split_of_two(head, child, '/');
        components_of_two(split(head, '/'), split(nothing, '/'));
        components_of_two(split(head, '/'), split(child, '/'));
        reveal_strlit("");
        assert(nothing == ""@);
        assert(split(nothing, '/') == seq![nothing]);
        assert(components(seq![nothing].skip(1)) == Seq::<Seq<char>>::empty());
        assert(components(split(nothing, '/')) == Seq::<Seq<char>>::empty());
        assert(components(split(base, '/')) == components(split(head, '/')));
    } else {
        split_of_two(base, child, '/');
        components_of_two(split(base, '/'), split(child, '/'));
    }
}

/// The last component of a path is its name, whatever slashes follow; it names the directory.
pub proof fn last_component_is_the_name(base: Seq<char>, name: Seq<char>)
    requires
        name.len() > 0,
        name != "."@,
        name != ".."@,
        !name.contains('/'),
    ensures
        file_name(base + seq!['/'] + name) == Some(name),
        file_name(base + seq!['/'] + name + seq!['/']) == Some(name),
        directory_label(base + seq!['/'] + name) == name,
        file_name(name) == Some(name),
{
    reveal_strlit("");
    reveal_strlit(".");
    position_is_first(name, '/');
    assert(split(name, '/') == seq![name]);
    split_of_two(base, name, '/');
    let a = base + seq!['/'] + name;
    let pieces = split(a, '/');
    assert(pieces == split(base, '/') + seq![name]);
    assert(pieces.last() == name);
    assert(drop_void_end(pieces) == pieces);
    assert(drop_void_end(seq![name]) == seq![name]);
    let none = Seq::<char>::empty();
    split_of_two(a, none, '/');
    assert(a + seq!['/'] + none == a + seq!['/']);
    position_is_first(none, '/');
    assert(split(none, '/') == seq![none]);
    let more = split(a + seq!['/'], '/');
    assert(more == pieces + seq![none]);
    assert(more.drop_last() == pieces);
    assert(none =~= ""@);
}

/// A path behind a directory and a slash lies in it, and an absolute one stays where it is.
pub proof fn joined_paths_lie_in_the_directory(base: Seq<char>, child: Seq<char>)
    ensures
        child.len() > 0 && child[0] == '/' ==> joined_path(base, child) == child,
        (child.len() == 0 || child[0] != '/') && base.len() > 0 && base.last() != '/'
            ==> joined_path(base, child) == base + seq!['/'] + child,
        (child.len() == 0 || child[0] != '/') && (base.len() == 0 || base.last() == '/')
            ==> joined_path(base, child) == base + child,
{
}

/// A typed path is taken from the current directory unless it starts at the root or at the home
/// directory. An empty one names nothing, and `~` names nothing where there is no home directory.
pub proof fn typed_path_names_a_directory(
    current: Seq<char>,
    rest: Seq<char>,
    home: Seq<char>,
)
    requires
        home.len() > 0 && home[0] == '/',
    ensures
        named_path(current, Seq::<char>::empty(), Some(home)) == Err::<Seq<char>, PathError>(
            PathError::Empty,
        ),
        named_path(current, "~"@, Some(home)) == Ok::<Seq<char>, PathError>(home),
        named_path(current, "~"@, None) == Err::<Seq<char>, PathError>(PathError::NoHome),
        named_path(current, "~/"@ + rest, None) == Err::<Seq<char>, PathError>(PathError::NoHome),
        rest.len() > 0 && rest[0] != '/' ==> named_path(current, "~/"@ + rest, Some(home)) == Ok::<
            Seq<char>,
            PathError,
        >(joined_path(home, rest)),
        rest.len() > 0 && rest[0] != '~' ==> named_path(current, rest, Some(home)) == Ok::<
            Seq<char>,
            PathError,
        >(joined_path(current, rest)),
{
    reveal_strlit("~");
    reveal_strlit("~/");
    let typed = "~/"@ + rest;
    assert(typed.subrange(0, 2) == "~/"@);
    assert(typed.skip(2) == rest);
    assert(typed.len() >= 2);
    if rest.len() > 0 && rest[0] != '~' {
        if starts(rest, "~/"@) {
            assert(rest.subrange(0, 2)[0] == rest[0]);
        }
    }
}

/// The cache lies under `XDG_CONFIG_HOME`, or under `.config` in the home directory where that is not
/// set or empty; it has no place where neither is.
pub proof fn cache_has_its_place(config: Seq<char>, home: Seq<char>)
    requires
        config.len() > 0,
        home.len() > 0,
    ensures
        ({
            let within = |dir: Seq<char>|
                Some(joined_path(joined_path(dir, "gh-pilot"@), "sessions.sqlite3"@));
            let none = Seq::<char>::empty();
            &&& cache_path(Some(config), Some(home)) == within(config)
            &&& cache_path(Some(config), None) == within(config)
            &&& cache_path(None, Some(home)) == within(joined_path(home, ".config"@))
            &&& cache_path(Some(none), Some(home)) == within(joined_path(home, ".config"@))
            &&& cache_path(None, None) is None
            &&& cache_path(Some(none), Some(none)) is None
        }),
{
}

proof fn start_is_behind(pieces: Seq<Seq<char>>, base: Seq<Seq<char>>)
    requires
        base.len() <= components(pieces).len(),
        components(pieces).take(base.len() as int) == base,
    ensures
        behind(pieces, base) is Some,
    decreases pieces.len(),
{
    if base.len() > 0 && pieces.len() > 0 {
        let rest = components(pieces.skip(1));
        if is_void(pieces[0]) {
            start_is_behind(pieces.skip(1), base);
        } else {
            assert(components(pieces)[0] == pieces[0]);
            assert(components(pieces).take(base.len() as int)[0] == base[0]);
            assert(rest.take(base.len() - 1) == base.skip(1)) by {
                assert forall|i: int| 0 <= i < base.len() - 1 implies rest[i] == base[i + 1] by {
                    assert(components(pieces)[i + 1] == rest[i]);
                    assert(components(pieces).take(base.len() as int)[i + 1] == base[i + 1]);
                }
            }
            start_is_behind(pieces.skip(1), base.skip(1));
        }
    }
}

/// A path in the home directory is shown with a tilde in its place, one elsewhere as it is. It lies
/// there where its first components are those of the home directory.
pub proof fn tilde_stands_for_home(path: Seq<char>, home: Seq<char>)
    requires
        is_absolute(path),
        is_absolute(home),
    ensures
        ({
            let own = components(split(path, '/'));
            let base = components(split(home, '/'));
            let shown = prompt_form(path, Some(home));
            let within = base.len() <= own.len() && own.take(base.len() as int) == base;
            &&& within ==> shown[0] == '~'
            &&& !within ==> shown == path
        }),
        prompt_form(path, None) == path,
{
    let pieces = split(path, '/');
    let roots = split(home, '/');
    root_is_empty(path);
    root_is_empty(home);
    reveal_strlit("");
    reveal_strlit("~");
    reveal_strlit("~/");
    assert(components(pieces) == components(pieces.skip(1)));
    assert(components(roots) == components(roots.skip(1)));
    let base = components(roots);
    if base.len() <= components(pieces).len() && components(pieces).take(base.len() as int) == base {
        start_is_behind(pieces.skip(1), base);
        let shown = prompt_form(path, Some(home));
        assert("~"@[0] == '~' && "~/"@[0] == '~');
        assert(shown[0] == '~');
    } else {
        match behind(pieces.skip(1), base) {
            Some(rest) => {
                behind_components(pieces.skip(1), base);
                assert((base + components(rest)).take(base.len() as int) == base);
            },
            None => {},
        }
    }
}

/// The ways in which a remote at GitHub is written.
pub open spec fn github_starts() -> Seq<Seq<char>> {
    seq![
        "git@github.com:"@,
        "https://github.com/"@,
        "http://github.com/"@,
        "ssh://git@github.com/"@,
    ]
}

/// A remote at GitHub names its repository by owner and name, however it is written, with `.git`
/// behind it or without. A remote elsewhere names none.
pub proof fn github_remote_names_its_repository(
    k: int,
    owner: Seq<char>,
    name: Seq<char>,
    other: Seq<char>,
)
    requires
        0 <= k < github_starts().len(),
        owner.len() > 0 && name.len() > 0,
        !owner.contains('/') && !name.contains('/'),
        trim(owner) == owner && trim(name) == name,
        !ends(name, ".git"@),
        forall|j: int| 0 <= j < github_starts().len() ==> !starts(other, #[trigger] github_starts()[j]),
    ensures
        github_repository(github_starts()[k] + owner + seq!['/'] + name) == Some(
            owner + seq!['/'] + name,
        ),
        github_repository(github_starts()[k] + owner + seq!['/'] + name + ".git"@) == Some(
            owner + seq!['/'] + name,
        ),
        github_repository(other) is None,
{
    let start = github_starts()[k];
    let path = owner + seq!['/'] + name;
    let remote = start + owner + seq!['/'] + name;
    assert(remote == start + path);
    name_ends_the_remote(start + owner, name);
    assert(without_ends(remote, ".git"@) == remote);
    reveal_strlit(".git");
    let long = remote + ".git"@;
    assert(long.subrange(remote.len() as int, long.len() as int) == ".git"@);
    assert(long.take(remote.len() as int) == remote);
    assert(without_ends(long, ".git"@) == remote);
    path_is_behind_its_start(k, path);
    position_is_first(owner, '/');
    position_is_first(name, '/');
    assert(split(owner, '/') == seq![owner]);
    assert(split(name, '/') == seq![name]);
    split_of_two(owner, name, '/');
    let pieces = split(path, '/');
    assert(pieces == seq![owner, name]);
    reveal_strlit("/");
    assert("/"@ == seq!['/']);
    start_outlasts_the_end(other, ".git"@);
    assert(github_starts()[0] == "git@github.com:"@ && github_starts()[1] == "https://github.com/"@
        && github_starts()[2] == "http://github.com/"@ && github_starts()[3]
        == "ssh://git@github.com/"@);
    let bare = without_ends(other, ".git"@);
    assert forall|j: int| 0 <= j < github_starts().len() implies !starts(
        bare,
        #[trigger] github_starts()[j],
    ) by {
        let p = github_starts()[j];
        if starts(bare, p) {
            assert(other.subrange(0, p.len() as int) == bare.subrange(0, p.len() as int));
            assert(starts(other, p));
        }
    }
}

proof fn name_ends_the_remote(start: Seq<char>, name: Seq<char>)
    requires
        !name.contains('/'),
        !ends(name, ".git"@),
    ensures
        !ends(start + seq!['/'] + name, ".git"@),
{
    reveal_strlit(".git");
    let all = start + seq!['/'] + name;
    let end = ".git"@;
    let n = all.len() as int;
    if ends(all, end) {
        let tail = all.subrange(n - 4, n);
        assert(tail == end);
        if name.len() >= 4 {
            assert(name.subrange(name.len() - 4, name.len() as int) == tail);
        } else {
            let at = 3 - name.len();
            assert(tail[at] == all[n - 4 + at]);
            assert(all[start.len() as int] == '/');
            assert(end[at] == '/');
        }
    }
}

proof fn path_is_behind_its_start(k: int, path: Seq<char>)
    requires
        0 <= k < github_starts().len(),
    ensures
        github_path(github_starts()[k] + path) == Some(path),
{
    reveal_strlit("git@github.com:");
    reveal_strlit("https://github.com/");
    reveal_strlit("http://github.com/");
    reveal_strlit("ssh://git@github.com/");
    let start = github_starts()[k];
    let all = start + path;
    let n = start.len() as int;
    assert(all.subrange(0, n) == start);
    assert(all.skip(n) == path);
    let a = "git@github.com:"@;
    let b = "https://github.com/"@;
    let c = "http://github.com/"@;
    let d = "ssh://git@github.com/"@;
    assert(a[0] == 'g' && b[0] == 'h' && c[0] == 'h' && d[0] == 's');
    assert(b[4] == 's' && c[4] == ':');
    assert(all[0] == start[0] && all[4] == start[4]);
    if starts(all, a) {
        assert(all.subrange(0, a.len() as int)[0] == all[0]);
    }
    if starts(all, b) {
        assert(all.subrange(0, b.len() as int)[0] == all[0]);
        assert(all.subrange(0, b.len() as int)[4] == all[4]);
    }
    if starts(all, c) {
        assert(all.subrange(0, c.len() as int)[0] == all[0]);
        assert(all.subrange(0, c.len() as int)[4] == all[4]);
    }
}

proof fn start_outlasts_the_end(s: Seq<char>, end: Seq<char>)
    ensures
        without_ends(s, end).len() <= s.len(),
        without_ends(s, end) == s.take(without_ends(s, end).len() as int),
    decreases s.len(),
{
    if end.len() > 0 && ends(s, end) {
        let head = s.take(s.len() - end.len());
        start_outlasts_the_end(head, end);
        let n = without_ends(s, end).len() as int;
        assert(head.take(n) == s.take(n));
    } else {
        assert(s.take(s.len() as int) == s);
    }
}

/// A directory of the environment counts where it is set and not empty, and each way in which a path
/// names none has words of its own.
pub proof fn empty_directories_do_not_count(dir: Seq<char>)
    ensures
        dir.len() > 0 ==> set_dir(Some(dir)) == Some(dir),
        dir.len() == 0 ==> set_dir(Some(dir)) is None,
        set_dir(None) is None,
        PathError::Empty.text() == "repo path cannot be empty"@,
        PathError::NoHome.text() == "HOME is not set; cannot resolve ~"@,
{
}

} // verus!
