//! The projects that are followed, what they are called, and the paths typed to reach them.
use crate::chars::is_space;
use crate::foreign::{decode_lossy, lossy_text};
use crate::groups::add_key;
use crate::order::{
    arrangement_is_complete, is_less, is_sorting, sort, sorted_from, text_less,
    text_less_is_asymmetric, text_less_is_total, text_not_less_chains, Ranked,
};
use crate::paths::{
    directory_label, fallback_project_label, github_repository, parse_github_remote, prompt_form,
    prompt_path,
};
use crate::remote::RemoteSession;
use crate::tables::{all_differ, has_text, TextSet};
use crate::text::{
    chars_of, opt_str, opt_view, starts, starts_with, string_of, trim, trim_end, trim_of_bare,
    trim_start, trimmed, views,
};
use crate::tmux::ManagedSession;
use vstd::prelude::*;

verus! {

impl Ranked for String {
    open spec fn before(self, other: Self) -> bool {
        text_less(self@, other@)
    }

    proof fn before_is_asymmetric(a: Self, b: Self) {
        text_less_is_asymmetric(a@, b@);
    }

    proof fn not_before_chains(a: Self, b: Self, c: Self) {
        text_not_less_chains(a@, b@, c@);
    }

    fn is_before(&self, other: &Self) -> (yes: bool) {
        is_less(self, other)
    }
}

/// Each text comes before those behind it.
pub open spec fn is_ascending(texts: Seq<Seq<char>>) -> bool {
    forall|i: int, j: int| 0 <= i < j < texts.len() ==> text_less(texts[i], texts[j])
}

/// A session is in the directory.
pub open spec fn has_session_in(sessions: Seq<ManagedSession<Seq<char>>>, dir: Seq<char>) -> bool {
    exists|i: int| 0 <= i < sessions.len() && (#[trigger] sessions[i]).project_dir == dir
}

/// A task is in the directory.
pub open spec fn has_task_in(remote: Seq<RemoteSession<Seq<char>>>, dir: Seq<char>) -> bool {
    exists|i: int| 0 <= i < remote.len() && (#[trigger] remote[i]).project_dir == dir
}

/// The directories of the projects that are followed: the current one, those of sessions and tasks,
/// and the recent ones, without those that were removed.
pub open spec fn followed_dirs(
    current: Seq<char>,
    sessions: Seq<ManagedSession<Seq<char>>>,
    remote: Seq<RemoteSession<Seq<char>>>,
    recent: Seq<Seq<char>>,
    removed: Set<Seq<char>>,
) -> Set<Seq<char>> {
    Set::new(
        |dir: Seq<char>|
            !removed.contains(dir) && (dir == current || has_session_in(sessions, dir)
                || has_task_in(remote, dir) || recent.contains(dir)),
    )
}

/// `list` holds the texts of the set, each once, in order.
pub open spec fn lists(list: Seq<Seq<char>>, set: Set<Seq<char>>) -> bool {
    is_ascending(list) && list.to_set() == set
}

/// The texts of a set in order.
pub open spec fn ordered(set: Set<Seq<char>>) -> Seq<Seq<char>> {
    choose|list: Seq<Seq<char>>| lists(list, set)
}

/// A set has one ordered list.
pub proof fn list_is_determined(a: Seq<Seq<char>>, b: Seq<Seq<char>>, set: Set<Seq<char>>)
    requires
        lists(a, set),
        lists(b, set),
    ensures
        a == b,
{
    starts_agree(a, b, set, a.len() as int);
    starts_agree(b, a, set, b.len() as int);
    assert(a =~= b);
}

proof fn starts_agree(a: Seq<Seq<char>>, b: Seq<Seq<char>>, set: Set<Seq<char>>, n: int)
    requires
        lists(a, set),
        lists(b, set),
        0 <= n <= a.len(),
    ensures
        n <= b.len(),
        forall|i: int| 0 <= i < n ==> a[i] == b[i],
    decreases n,
{
    if n > 0 {
        starts_agree(a, b, set, n - 1);
        let x = a[n - 1];
        assert(a.to_set().contains(x));
        assert(b.contains(x));
        let j = choose|j: int| 0 <= j < b.len() && b[j] == x;
        if j < n - 1 {
            assert(a[j] == b[j]);
            assert(text_less(a[j], a[n - 1]));
            text_less_is_asymmetric(a[j], a[n - 1]);
        } else if j > n - 1 {
            let y = b[n - 1];
            assert(b.to_set().contains(y));
            assert(a.contains(y));
            let k = choose|k: int| 0 <= k < a.len() && a[k] == y;
            assert(text_less(b[n - 1], b[j]));
            text_less_is_asymmetric(y, x);
            if k < n - 1 {
                assert(a[k] == b[k]);
                assert(text_less(b[k], b[n - 1]));
                text_less_is_asymmetric(b[k], b[n - 1]);
            } else if k > n - 1 {
                assert(text_less(a[n - 1], a[k]));
            }
        }
    }
}

proof fn sorted_texts_ascend(input: Seq<String>, output: Seq<String>)
    requires
        sorted_from(input, output),
        all_differ(views(input)),
    ensures
        is_ascending(views(output)),
        views(output).to_set() == views(input).to_set(),
{
    let places = choose|places: Seq<int>| is_sorting(input, output, places);
    let a = views(input);
    let b = views(output);
    assert forall|i: int, j: int| 0 <= i < j < b.len() implies text_less(b[i], b[j]) by {
        assert(output[i].before(output[j]) || !output[j].before(output[i]));
        text_less_is_total(b[i], b[j]);
        assert(places[i] != places[j]);
        assert(output[i] == input[places[i]] && output[j] == input[places[j]]);
        if places[i] < places[j] {
            assert(a[places[i]] != a[places[j]]);
        } else {
            assert(a[places[j]] != a[places[i]]);
        }
    }
    assert forall|t: Seq<char>| a.contains(t) == b.contains(t) by {
        if a.contains(t) {
            let k = choose|k: int| 0 <= k < a.len() && a[k] == t;
            arrangement_is_complete(places, a.len() as int, k);
            let i = choose|i: int| 0 <= i < a.len() && #[trigger] places[i] == k;
            assert(b[i] == t);
        }
        if b.contains(t) {
            let i = choose|i: int| 0 <= i < b.len() && b[i] == t;
            assert(output[i] == input[places[i]]);
            assert(a[places[i]] == t);
        }
    }
    assert(b.to_set() =~= a.to_set());
}

/// A directory is among the first ones of the sessions.
spec fn early_dir(sessions: Seq<ManagedSession<Seq<char>>>, n: int, dir: Seq<char>) -> bool {
    exists|i: int| 0 <= i < n && (#[trigger] sessions[i]).project_dir == dir
}

spec fn early_task_dir(remote: Seq<RemoteSession<Seq<char>>>, n: int, dir: Seq<char>) -> bool {
    exists|i: int| 0 <= i < n && (#[trigger] remote[i]).project_dir == dir
}

spec fn early_text(texts: Seq<Seq<char>>, n: int, text: Seq<char>) -> bool {
    exists|i: int| 0 <= i < n && #[trigger] texts[i] == text
}

fn insert_project_dir(projects: &mut Vec<String>, path: &str, removed_projects: &TextSet)
    requires
        all_differ(views(old(projects)@)),
    ensures
        all_differ(views(final(projects)@)),
        forall|k: Seq<char>|
            #[trigger] views(final(projects)@).contains(k) <==> views(old(projects)@).contains(k)
                || (k == path@ && !removed_projects@.contains(k)),
{
    if !removed_projects.contains(path) {
        add_key(projects, path);
    }
}

/// The directories of the projects that are followed, in order.
pub fn tracked_project_dirs(
    current_dir: &str,
    sessions: &Vec<ManagedSession>,
    remote_sessions: &Vec<RemoteSession>,
    recent_paths: &Vec<String>,
    removed_projects: &TextSet,
) -> (out: Vec<String>)
    ensures
        lists(
            views(out@),
            followed_dirs(
                current_dir@,
                views(sessions@),
                views(remote_sessions@),
                views(recent_paths@),
                removed_projects@,
            ),
        ),
        views(out@) == ordered(
            followed_dirs(
                current_dir@,
                views(sessions@),
                views(remote_sessions@),
                views(recent_paths@),
                removed_projects@,
            ),
        ),
{
    let ghost local = views(sessions@);
    let ghost remote = views(remote_sessions@);
    let ghost recent = views(recent_paths@);
    let ghost removed = removed_projects@;
    let mut projects: Vec<String> = Vec::new();
    insert_project_dir(&mut projects, current_dir, removed_projects);
    let mut i: usize = 0;
    while i < sessions.len()
        invariant
            i <= sessions.len(),
            local == views(sessions@),
            removed == removed_projects@,
            all_differ(views(projects@)),
            forall|k: Seq<char>|
                #[trigger] views(projects@).contains(k) <==> !removed.contains(k) && (k
                    == current_dir@ || early_dir(local, i as int, k)),
        decreases sessions.len() - i,
    {
        let ghost was = views(projects@);
        assert(local[i as int] == sessions@[i as int]@);
        insert_project_dir(&mut projects, &sessions[i].project_dir, removed_projects);
        assert forall|k: Seq<char>|
            #[trigger] views(projects@).contains(k) <==> !removed.contains(k) && (k == current_dir@
                || early_dir(local, i + 1, k)) by {
            assert(was.contains(k) <==> !removed.contains(k) && (k == current_dir@ || early_dir(
                local,
                i as int,
                k,
            )));
            if early_dir(local, i as int, k) {
                let j = choose|j: int| 0 <= j < i && (#[trigger] local[j]).project_dir == k;
                assert(0 <= j < i + 1 && local[j].project_dir == k);
            }
            assert(early_dir(local, i + 1, local[i as int].project_dir));
        }
        i += 1;
    }
    let mut i: usize = 0;
    while i < remote_sessions.len()
        invariant
            i <= remote_sessions.len(),
            remote == views(remote_sessions@),
            removed == removed_projects@,
            all_differ(views(projects@)),
            forall|k: Seq<char>|
                #[trigger] views(projects@).contains(k) <==> !removed.contains(k) && (k
                    == current_dir@ || has_session_in(local, k) || early_task_dir(
                    remote,
                    i as int,
                    k,
                )),
        decreases remote_sessions.len() - i,
    {
        let ghost was = views(projects@);
        assert(remote[i as int] == remote_sessions@[i as int]@);
        insert_project_dir(&mut projects, &remote_sessions[i].project_dir, removed_projects);
        assert forall|k: Seq<char>|
            #[trigger] views(projects@).contains(k) <==> !removed.contains(k) && (k == current_dir@
                || has_session_in(local, k) || early_task_dir(remote, i + 1, k)) by {
            assert(was.contains(k) <==> !removed.contains(k) && (k == current_dir@
                || has_session_in(local, k) || early_task_dir(remote, i as int, k)));
            if early_task_dir(remote, i as int, k) {
                let j = choose|j: int| 0 <= j < i && (#[trigger] remote[j]).project_dir == k;
                assert(0 <= j < i + 1 && remote[j].project_dir == k);
            }
            assert(early_task_dir(remote, i + 1, remote[i as int].project_dir));
        }
        i += 1;
    }
    let mut i: usize = 0;
    while i < recent_paths.len()
        invariant
            i <= recent_paths.len(),
            recent == views(recent_paths@),
            removed == removed_projects@,
            all_differ(views(projects@)),
            forall|k: Seq<char>|
                #[trigger] views(projects@).contains(k) <==> !removed.contains(k) && (k
                    == current_dir@ || has_session_in(local, k) || has_task_in(remote, k)
                    || early_text(recent, i as int, k)),
        decreases recent_paths.len() - i,
    {
        let ghost was = views(projects@);
        assert(recent[i as int] == recent_paths@[i as int]@);
        insert_project_dir(&mut projects, &recent_paths[i], removed_projects);
        assert forall|k: Seq<char>|
            #[trigger] views(projects@).contains(k) <==> !removed.contains(k) && (k == current_dir@
                || has_session_in(local, k) || has_task_in(remote, k) || early_text(
                recent,
                i + 1,
                k,
            )) by {
            assert(was.contains(k) <==> !removed.contains(k) && (k == current_dir@
                || has_session_in(local, k) || has_task_in(remote, k) || early_text(
                recent,
                i as int,
                k,
            )));
            if early_text(recent, i as int, k) {
                let j = choose|j: int| 0 <= j < i && #[trigger] recent[j] == k;
                assert(0 <= j < i + 1 && recent[j] == k);
            }
            assert(early_text(recent, i + 1, recent[i as int]));
        }
        i += 1;
    }
    let ghost built = projects@;
    let ghost wanted = followed_dirs(current_dir@, local, remote, recent, removed);
    assert forall|k: Seq<char>| views(built).contains(k) <==> wanted.contains(k) by {
        assert(early_text(recent, recent.len() as int, k) == recent.contains(k));
    }
    assert(views(built).to_set() =~= wanted);
    sort(&mut projects);
    proof {
        sorted_texts_ascend(built, projects@);
        assert(lists(views(projects@), wanted));
        list_is_determined(views(projects@), ordered(wanted), wanted);
    }
    projects
}

/// A project that was removed is not followed; the current one is, unless it was removed.
pub proof fn removed_projects_are_not_followed(
    current: Seq<char>,
    sessions: Seq<ManagedSession<Seq<char>>>,
    remote: Seq<RemoteSession<Seq<char>>>,
    recent: Seq<Seq<char>>,
    removed: Set<Seq<char>>,
    dir: Seq<char>,
)
    ensures
        removed.contains(dir) ==> !followed_dirs(current, sessions, remote, recent, removed).contains(
            dir,
        ),
        followed_dirs(current, sessions, remote, recent, removed).contains(current)
            <==> !removed.contains(current),
        followed_dirs(current, sessions, remote, recent, removed.insert(dir)) =~= followed_dirs(
            current,
            sessions,
            remote,
            recent,
            removed,
        ).remove(dir),
{
}

// ---------------------------------------------------------------------------
// What projects are called
// ---------------------------------------------------------------------------
/// The repository at the remote that a text names.
pub open spec fn repository_in(text: Seq<char>) -> Option<Seq<char>> {
    github_repository(trim(text))
}

/// The repository at the remote that a text names.
pub fn repository_of_remote(text: &str) -> (out: Option<String>)
    ensures
        opt_view(out) == repository_in(text@),
{
    parse_github_remote(&string_of(trimmed(&chars_of(text))))
}

/// The repository of a project, by what a run of git for its remote printed.
pub fn github_repo_from_remote(success: bool, stdout: &[u8]) -> (out: Option<String>)
    ensures
        opt_view(out) == (if success {
            repository_in(lossy_text(stdout@))
        } else {
            None
        }),
{
    if !success {
        return None;
    }
    repository_of_remote(&decode_lossy(stdout))
}

/// What a project is called: by its repository, or by its directory.
pub open spec fn label_of(repository: Option<Seq<char>>, dir: Seq<char>) -> Seq<char> {
    match repository {
        Some(name) => name,
        None => directory_label(dir),
    }
}

/// What a project is called: by its repository, or by its directory.
pub fn project_label(project_dir: &str, repository: Option<String>) -> (out: String)
    ensures
        out@ == label_of(opt_view(repository), project_dir@),
{
    match repository {
        Some(name) => name,
        None => fallback_project_label(project_dir),
    }
}

// ---------------------------------------------------------------------------
// Completing paths
// ---------------------------------------------------------------------------
/// A recent path can complete the prefix, in the form that the prompt shows or as it is.
pub open spec fn completes(prefix: Seq<char>, path: Seq<char>, home: Option<Seq<char>>) -> bool {
    prefix.len() == 0 || starts(prompt_form(path, home), prefix) || starts(path, prefix)
}

/// The completions of a prefix among the recent paths, in their order, each form once.
pub open spec fn completions(
    prefix: Seq<char>,
    recent: Seq<Seq<char>>,
    home: Option<Seq<char>>,
) -> Seq<Seq<char>>
    decreases recent.len(),
{
    if recent.len() == 0 {
        seq![]
    } else {
        let rest = completions(prefix, recent.drop_last(), home);
        let form = prompt_form(recent.last(), home);
        if completes(prefix, recent.last(), home) && !rest.contains(form) {
            rest.push(form)
        } else {
            rest
        }
    }
}

/// The completions of a prefix among the recent paths.
pub fn recent_path_matches(prefix: &str, recent_paths: &Vec<String>, home: Option<&str>) -> (out: Vec<
    String,
>)
    ensures
        views(out@) == completions(prefix@, views(recent_paths@), opt_str(home)),
{
    let mut matches: Vec<String> = Vec::new();
    let ghost recent = views(recent_paths@);
    let empty = chars_of(prefix).len() == 0;
    let mut i: usize = 0;
    while i < recent_paths.len()
        invariant
            i <= recent_paths.len(),
            recent == views(recent_paths@),
            empty == (prefix@.len() == 0),
            views(matches@) == completions(prefix@, recent.take(i as int), opt_str(home)),
        decreases recent_paths.len() - i,
    {
        let path = &recent_paths[i];
        assert(recent.take(i + 1).drop_last() == recent.take(i as int));
        assert(recent.take(i + 1).last() == path@);
        let display = prompt_path(path, home);
        if (empty || starts_with(&chars_of(&display), prefix) || starts_with(&chars_of(path), prefix))
            && !has_text(&matches, &display) {
            let ghost before = matches@;
            let ghost form = display@;
            matches.push(display);
            assert(views(matches@) == views(before).push(form));
        }
        i += 1;
    }
    assert(recent.take(recent_paths@.len() as int) == recent);
    matches
}

/// No completion is offered twice.
pub proof fn completions_differ(
    prefix: Seq<char>,
    recent: Seq<Seq<char>>,
    home: Option<Seq<char>>,
)
    ensures
        all_differ(completions(prefix, recent, home)),
        completions(prefix, recent, home).len() <= recent.len(),
    decreases recent.len(),
{
    if recent.len() > 0 {
        let rest = completions(prefix, recent.drop_last(), home);
        completions_differ(prefix, recent.drop_last(), home);
        let all = completions(prefix, recent, home);
        assert forall|i: int, j: int| 0 <= i < j < all.len() implies all[i] != all[j] by {
            if j == rest.len() {
                assert(rest.contains(rest[i]));
            }
        }
    }
}

/// What completing turns a typed path into: the path, the prefix that it completes, and the place
/// of the completion.
pub struct Completion<T = String> {
    pub buffer: T,
    pub prefix: Option<T>,
    pub index: usize,
}

/// The place of the next completion of `n`.
pub open spec fn next_place(active: bool, index: usize, n: nat, reverse: bool) -> usize {
    if !active {
        if reverse {
            (n - 1) as usize
        } else {
            0
        }
    } else {
        let sum = index + if reverse {
            n - 1
        } else {
            1
        };
        ((if sum > usize::MAX {
            usize::MAX as int
        } else {
            sum
        }) % (n as int)) as usize
    }
}

/// A typed path once it was completed.
pub open spec fn completed(
    input: Completion<Seq<char>>,
    recent: Seq<Seq<char>>,
    home: Option<Seq<char>>,
    reverse: bool,
) -> Completion<Seq<char>> {
    let prefix = match input.prefix {
        Some(prefix) => prefix,
        None => trim(input.buffer),
    };
    let all = completions(prefix, recent, home);
    if all.len() == 0 {
        input
    } else {
        let index = next_place(input.prefix is Some, input.index, all.len(), reverse);
        Completion { buffer: all[index as int], prefix: Some(prefix), index }
    }
}

/// Completes a typed path by the recent ones: the first time by what was typed, then by the next
/// completion of the same, or by the one before it.
pub fn complete_path_input(
    buffer: &mut String,
    completion_prefix: &mut Option<String>,
    completion_index: &mut usize,
    recent_paths: &Vec<String>,
    home: Option<&str>,
    reverse: bool,
)
    ensures
        (Completion {
            buffer: final(buffer)@,
            prefix: opt_view(*final(completion_prefix)),
            index: *final(completion_index),
        }) == completed(
            Completion {
                buffer: old(buffer)@,
                prefix: opt_view(*old(completion_prefix)),
                index: *old(completion_index),
            },
            views(recent_paths@),
            opt_str(home),
            reverse,
        ),
{
    let active = completion_prefix.is_some();
    let prefix = match completion_prefix {
        Some(prefix) => prefix.clone(),
        None => string_of(trimmed(&chars_of(buffer))),
    };
    let matches = recent_path_matches(&prefix, recent_paths, home);
    assert(views(matches@).len() == matches@.len());
    if matches.len() == 0 {
        return;
    }
    let index: usize = if active {
        let offset: usize = if reverse { matches.len() - 1 } else { 1 };
        let sum: usize = if *completion_index <= usize::MAX - offset {
            *completion_index + offset
        } else {
            usize::MAX
        };
        sum % matches.len()
    } else if reverse {
        matches.len() - 1
    } else {
        0
    };
    assert(views(matches@)[index as int] == matches@[index as int]@);
    *buffer = matches[index].clone();
    *completion_prefix = Some(prefix);
    *completion_index = index;
}

/// Stepping on and stepping back among the completions undo each other; where there are none,
/// nothing changes. The places are told apart as long as a place and the number of completions can
/// be added up.
pub proof fn completion_goes_round(
    input: Completion<Seq<char>>,
    recent: Seq<Seq<char>>,
    home: Option<Seq<char>>,
)
    requires
        input.prefix is Some,
        ({
            let all = completions(input.prefix->0, recent, home);
            all.len() == 0 || (input.index < all.len() && input.buffer == all[input.index as int]
                && input.index + all.len() <= usize::MAX)
        }),
    ensures
        completed(completed(input, recent, home, false), recent, home, true) == input,
        completed(completed(input, recent, home, true), recent, home, false) == input,
{
    let n = completions(input.prefix->0, recent, home).len() as int;
    if n > 0 {
        steps_undo_each_other(input.index as int, n);
    }
}

/// Among `n` places in a ring, a step on and a step back undo each other.
proof fn steps_undo_each_other(i: int, n: int)
    requires
        0 <= i < n,
    ensures
        0 <= (i + 1) % n < n,
        0 <= (i + n - 1) % n < n,
        (i + 1) % n == 0 || (i + 1) % n == i + 1,
        ((i + 1) % n + n - 1) % n == i,
        ((i + n - 1) % n + 1) % n == i,
{
    assert((i + 1) % n == if i + 1 == n {
        0
    } else {
        i + 1
    }) by {
        if i + 1 < n {
            vstd::arithmetic::div_mod::lemma_small_mod((i + 1) as nat, n as nat);
        } else {
            vstd::arithmetic::div_mod::lemma_mod_self_0(n);
        }
    }
    assert((i + n - 1) % n == if i == 0 {
        n - 1
    } else {
        i - 1
    }) by {
        if i == 0 {
            vstd::arithmetic::div_mod::lemma_small_mod((n - 1) as nat, n as nat);
        } else {
            vstd::arithmetic::div_mod::lemma_mod_add_multiples_vanish(i - 1, n);
            vstd::arithmetic::div_mod::lemma_small_mod((i - 1) as nat, n as nat);
        }
    }
    let forth = (i + 1) % n;
    let back = (i + n - 1) % n;
    assert((forth + n - 1) % n == i) by {
        if forth == 0 {
            vstd::arithmetic::div_mod::lemma_small_mod((n - 1) as nat, n as nat);
        } else {
            vstd::arithmetic::div_mod::lemma_mod_add_multiples_vanish(forth - 1, n);
            vstd::arithmetic::div_mod::lemma_small_mod((forth - 1) as nat, n as nat);
        }
    }
    assert((back + 1) % n == i) by {
        if back + 1 < n {
            vstd::arithmetic::div_mod::lemma_small_mod((back + 1) as nat, n as nat);
        } else {
            vstd::arithmetic::div_mod::lemma_mod_self_0(n);
        }
    }
}

/// What completes a prefix among the recent paths: every path that starts with it, as it is or as a
/// prompt shows it, is offered as a prompt shows it, and nothing else is.
pub proof fn completions_are_the_matching_paths(
    prefix: Seq<char>,
    recent: Seq<Seq<char>>,
    home: Option<Seq<char>>,
    text: Seq<char>,
)
    ensures
        completions(prefix, recent, home).contains(text) <==> exists|i: int|
            0 <= i < recent.len() && prompt_form(#[trigger] recent[i], home) == text && {
                ||| prefix.len() == 0
                ||| prefix.len() <= text.len() && text.take(prefix.len() as int) == prefix
                ||| prefix.len() <= recent[i].len() && recent[i].take(prefix.len() as int)
                    == prefix
            },
    decreases recent.len(),
{
    let all = completions(prefix, recent, home);
    if recent.len() > 0 {
        let rest = recent.drop_last();
        let last = recent.last();
        let before = completions(prefix, rest, home);
        completions_are_the_matching_paths(prefix, rest, home, text);
        let form = prompt_form(last, home);
        assert(completes(prefix, last, home) == {
            ||| prefix.len() == 0
            ||| prefix.len() <= form.len() && form.take(prefix.len() as int) == prefix
            ||| prefix.len() <= last.len() && last.take(prefix.len() as int) == prefix
        }) by {
            if prefix.len() <= form.len() {
                assert(form.subrange(0, prefix.len() as int) == form.take(prefix.len() as int));
            }
            if prefix.len() <= last.len() {
                assert(last.subrange(0, prefix.len() as int) == last.take(prefix.len() as int));
            }
        }
        if before.contains(text) {
            let k = choose|k: int| 0 <= k < before.len() && before[k] == text;
            assert(all[k] == text);
            let i = choose|i: int|
                0 <= i < rest.len() && prompt_form(#[trigger] rest[i], home) == text && {
                    ||| prefix.len() == 0
                    ||| prefix.len() <= text.len() && text.take(prefix.len() as int) == prefix
                    ||| prefix.len() <= rest[i].len() && rest[i].take(prefix.len() as int)
                        == prefix
                };
            assert(recent[i] == rest[i]);
        }
        if all.contains(text) && !before.contains(text) {
            let k = choose|k: int| 0 <= k < all.len() && all[k] == text;
            if k < before.len() {
                assert(before[k] == text);
            }
            assert(recent[recent.len() - 1] == last);
        }
        if exists|i: int|
            0 <= i < recent.len() && prompt_form(#[trigger] recent[i], home) == text && {
                ||| prefix.len() == 0
                ||| prefix.len() <= text.len() && text.take(prefix.len() as int) == prefix
                ||| prefix.len() <= recent[i].len() && recent[i].take(prefix.len() as int)
                    == prefix
            } {
            let i = choose|i: int|
                0 <= i < recent.len() && prompt_form(#[trigger] recent[i], home) == text && {
                    ||| prefix.len() == 0
                    ||| prefix.len() <= text.len() && text.take(prefix.len() as int) == prefix
                    ||| prefix.len() <= recent[i].len() && recent[i].take(prefix.len() as int)
                        == prefix
                };
            if i < rest.len() {
                assert(rest[i] == recent[i]);
            } else if !before.contains(text) {
                assert(all[before.len() as int] == text);
            }
        }
    }
}

/// Completing takes the first completion of what was typed, or going back the last one; then the
/// next or the one before, round and round. What was typed is remembered. Without a completion
/// nothing changes.
pub proof fn completing_steps_through_the_completions(
    input: Completion<Seq<char>>,
    recent: Seq<Seq<char>>,
    home: Option<Seq<char>>,
)
    requires
        recent.len() <= usize::MAX,
    ensures
        ({
            let typed = match input.prefix {
                Some(prefix) => prefix,
                None => trim(input.buffer),
            };
            let all = completions(typed, recent, home);
            let n = all.len() as int;
            let on = completed(input, recent, home, false);
            let back = completed(input, recent, home, true);
            &&& n == 0 ==> on == input && back == input
            &&& n > 0 ==> on.prefix == Some(typed) && back.prefix == Some(typed) && on.buffer
                == all[on.index as int] && back.buffer == all[back.index as int]
            &&& n > 0 && input.prefix is None ==> on.index == 0 && back.index == n - 1
            &&& n > 0 && input.prefix is Some && input.index < n && input.index + n <= usize::MAX
                ==> on.index == (input.index + 1) % n && back.index == (input.index + n - 1) % n
        }),
{
    let typed = match input.prefix {
        Some(prefix) => prefix,
        None => trim(input.buffer),
    };
    completions_differ(typed, recent, home);
    let n = completions(typed, recent, home).len() as int;
    if n > 0 && input.prefix is Some && input.index < n {
        steps_undo_each_other(input.index as int, n);
    }
}

/// A project is called by its repository where that is known, and else by its directory.
pub proof fn repository_names_a_project(repository: Option<Seq<char>>, dir: Seq<char>)
    ensures
        repository is Some ==> label_of(repository, dir) == repository->0,
        repository is None ==> label_of(repository, dir) == directory_label(dir),
{
}

/// The list of the projects that are followed holds each of them once, in the order of their paths.
pub proof fn projects_are_listed_by_path(list: Seq<Seq<char>>, set: Set<Seq<char>>, dir: Seq<char>)
    requires
        lists(list, set),
    ensures
        list.contains(dir) <==> set.contains(dir),
        forall|i: int, j: int| 0 <= i < j < list.len() ==> text_less(list[i], list[j]),
        ordered(set) == list,
{
    assert(list.to_set().contains(dir) <==> set.contains(dir));
    list_is_determined(list, ordered(set), set);
}

/// A project is followed where it is the current one, where a session or a task is in it, or where
/// it was used of late, unless it was removed.
pub proof fn used_projects_are_followed(
    current: Seq<char>,
    sessions: Seq<ManagedSession<Seq<char>>>,
    remote: Seq<RemoteSession<Seq<char>>>,
    recent: Seq<Seq<char>>,
    removed: Set<Seq<char>>,
    dir: Seq<char>,
    i: int,
)
    requires
        !removed.contains(dir),
    ensures
        ({
            let followed = followed_dirs(current, sessions, remote, recent, removed);
            &&& dir == current ==> followed.contains(dir)
            &&& 0 <= i < sessions.len() && sessions[i].project_dir == dir ==> followed.contains(dir)
            &&& 0 <= i < remote.len() && remote[i].project_dir == dir ==> followed.contains(dir)
            &&& 0 <= i < recent.len() && recent[i] == dir ==> followed.contains(dir)
            &&& dir != current && (forall|k: int|
                0 <= k < sessions.len() ==> (#[trigger] sessions[k]).project_dir != dir) && (forall|
                k: int,
            |
                0 <= k < remote.len() ==> (#[trigger] remote[k]).project_dir != dir) && (forall|
                k: int,
            |
                0 <= k < recent.len() ==> #[trigger] recent[k] != dir) ==> !followed.contains(dir)
        }),
{
}

/// The white space around a remote does not count.
pub proof fn remote_is_read_without_its_line_end(remote: Seq<char>)
    requires
        remote.len() > 0 && !is_space(remote[0]) && !is_space(remote.last()),
    ensures
        repository_in(remote) == github_repository(remote),
        repository_in(remote + seq!['\n']) == github_repository(remote),
        repository_in(seq![' '] + remote) == github_repository(remote),
{
    trim_of_bare(remote);
    let a = remote + seq!['\n'];
    assert(a[0] == remote[0]);
    assert(trim_start(a) == a);
    assert(a.last() == '\n');
    assert(a.drop_last() == remote);
    assert(trim_end(a) == trim_end(remote));
    let b = seq![' '] + remote;
    assert(b.skip(1) == remote);
    assert(trim_start(b) == trim_start(remote));
}

} // verus!
