//! Copilot tasks that run on GitHub.
use crate::chars::{is_digit, lower, to_lower};
use crate::foreign::{decode_lossy, json_of_bytes, lossy_text};
use crate::json::{parse_json_bytes, Json, JsonView};
use crate::numbers::{is_number, number_value, number_value_grows, parse_i64, parsed_i64};
use crate::paths::split_of_two;
use crate::status::SessionStatus;
use crate::tables::TextSet;
use crate::text::{
    char_trimmed_end, chars_of, concat, copy_opt, join, joined, opt_str, opt_view, part, position,
    position_is_first, position_of, same_text, shortened, split, split_at_char, string_of, texts_of,
    trim, trim_char_end, trimmed, truncate, views,
};
use crate::tmux::{failure_message, failure_text};
use vstd::prelude::*;

verus! {

/// A Copilot task on GitHub.
#[derive(Debug, PartialEq, Eq)]
pub struct RemoteSession<T = String> {
    pub id: T,
    pub display_name: T,
    pub project_dir: T,
    pub repository: Option<T>,
    pub status: SessionStatus,
    pub state: T,
    pub updated_at: Option<T>,
    pub url: Option<T>,
    pub pr_url: Option<T>,
}

impl View for RemoteSession<String> {
    type V = RemoteSession<Seq<char>>;

    open spec fn view(&self) -> RemoteSession<Seq<char>> {
        RemoteSession {
            id: self.id@,
            display_name: self.display_name@,
            project_dir: self.project_dir@,
            repository: opt_view(self.repository),
            status: self.status,
            state: self.state@,
            updated_at: opt_view(self.updated_at),
            url: opt_view(self.url),
            pr_url: opt_view(self.pr_url),
        }
    }
}

impl Clone for RemoteSession<String> {
    fn clone(&self) -> (out: Self)
        ensures
            out == *self,
    {
        RemoteSession {
            id: self.id.clone(),
            display_name: self.display_name.clone(),
            project_dir: self.project_dir.clone(),
            repository: copy_opt(&self.repository),
            status: self.status,
            state: self.state.clone(),
            updated_at: copy_opt(&self.updated_at),
            url: copy_opt(&self.url),
            pr_url: copy_opt(&self.pr_url),
        }
    }
}

/// How far the list of remote tasks is.
#[derive(Debug, PartialEq, Eq)]
pub enum RemoteLoadState<T = String> {
    NotStarted,
    Loading,
    Loaded,
    Empty,
    Failed(T),
}

impl View for RemoteLoadState<String> {
    type V = RemoteLoadState<Seq<char>>;

    open spec fn view(&self) -> RemoteLoadState<Seq<char>> {
        match self {
            RemoteLoadState::NotStarted => RemoteLoadState::NotStarted,
            RemoteLoadState::Loading => RemoteLoadState::Loading,
            RemoteLoadState::Loaded => RemoteLoadState::Loaded,
            RemoteLoadState::Empty => RemoteLoadState::Empty,
            RemoteLoadState::Failed(error) => RemoteLoadState::Failed(error@),
        }
    }
}

// ---------------------------------------------------------------------------
// States
// ---------------------------------------------------------------------------
/// A state as one word in small letters, with underscores for dashes and spaces.
pub open spec fn state_word(state: Seq<char>) -> Seq<char> {
    trim(state).map_values(
        |c: char|
            if c == '-' || c == ' ' {
                '_'
            } else {
                lower(c)
            },
    )
}

/// The words for a task that is done.
pub open spec fn is_done_word(word: Seq<char>) -> bool {
    ||| word == "completed"@
    ||| word == "complete"@
    ||| word == "done"@
    ||| word == "succeeded"@
    ||| word == "success"@
}

/// The words for a task that was called off.
pub open spec fn is_cancelled_word(word: Seq<char>) -> bool {
    ||| word == "cancelled"@
    ||| word == "canceled"@
    ||| word == "cancelling"@
    ||| word == "canceling"@
}

/// The words for a task that waits.
pub open spec fn is_waiting_word(word: Seq<char>) -> bool {
    ||| word == "queued"@
    ||| word == "pending"@
    ||| word == "waiting"@
    ||| word == "blocked"@
    ||| word == "waiting_for_input"@
    ||| word == "waiting_for_user"@
    ||| word == "input_required"@
    ||| word == "user_input_required"@
    ||| word == "requires_action"@
}

/// The words for a task that is at work.
pub open spec fn is_busy_word(word: Seq<char>) -> bool {
    ||| word == "in_progress"@
    ||| word == "running"@
    ||| word == "busy"@
    ||| word == "started"@
}

/// What a task in the given state is doing.
pub open spec fn state_status(state: Seq<char>) -> SessionStatus {
    let word = state_word(state);
    if is_done_word(word) {
        SessionStatus::Done
    } else if is_cancelled_word(word) {
        SessionStatus::Idle
    } else if is_waiting_word(word) {
        SessionStatus::Waiting
    } else if is_busy_word(word) {
        SessionStatus::Busy
    } else {
        SessionStatus::Idle
    }
}

/// A state as one word in small letters, with underscores for dashes and spaces.
pub fn normalize_remote_state(state: &str) -> (out: String)
    ensures
        out@ == state_word(state@),
{
    let s = chars_of(state);
    let t = trimmed(&s);
    let mut out: Vec<char> = Vec::new();
    let mut i: usize = 0;
    while i < t.len()
        invariant
            i <= t.len(),
            t@ == trim(state@),
            out@ == state_word(state@).take(i as int),
        decreases t.len() - i,
    {
        let c = t[i];
        let d = if c == '-' || c == ' ' { '_' } else { to_lower(c) };
        assert(state_word(state@).take(i + 1) == state_word(state@).take(i as int).push(d));
        out.push(d);
        i += 1;
    }
    assert(state_word(state@).take(t@.len() as int) == state_word(state@));
    string_of(&out)
}

fn done_word(word: &str) -> (yes: bool)
    ensures
        yes == is_done_word(word@),
{
    same_text(word, "completed") || same_text(word, "complete") || same_text(word, "done")
        || same_text(word, "succeeded") || same_text(word, "success")
}

fn cancelled_word(word: &str) -> (yes: bool)
    ensures
        yes == is_cancelled_word(word@),
{
    same_text(word, "cancelled") || same_text(word, "canceled") || same_text(word, "cancelling")
        || same_text(word, "canceling")
}

fn waiting_word(word: &str) -> (yes: bool)
    ensures
        yes == is_waiting_word(word@),
{
    same_text(word, "queued") || same_text(word, "pending") || same_text(word, "waiting")
        || same_text(word, "blocked") || same_text(word, "waiting_for_input") || same_text(
        word,
        "waiting_for_user",
    ) || same_text(word, "input_required") || same_text(word, "user_input_required") || same_text(
        word,
        "requires_action",
    )
}

fn busy_word(word: &str) -> (yes: bool)
    ensures
        yes == is_busy_word(word@),
{
    same_text(word, "in_progress") || same_text(word, "running") || same_text(word, "busy")
        || same_text(word, "started")
}

/// What a task in the given state is doing.
pub fn remote_status(state: &str) -> (out: SessionStatus)
    ensures
        out == state_status(state@),
{
    let word = normalize_remote_state(state);
    if done_word(&word) {
        SessionStatus::Done
    } else if cancelled_word(&word) {
        SessionStatus::Idle
    } else if waiting_word(&word) {
        SessionStatus::Waiting
    } else if busy_word(&word) {
        SessionStatus::Busy
    } else {
        SessionStatus::Idle
    }
}

/// A task in the given state was called off.
pub open spec fn is_cancelled(state: Seq<char>) -> bool {
    is_cancelled_word(state_word(state))
}

/// Whether a task in the given state was called off.
pub fn is_cancelled_remote_state(state: &str) -> (yes: bool)
    ensures
        yes == is_cancelled(state@),
{
    cancelled_word(&normalize_remote_state(state))
}

/// A task that was called off is idle.
pub proof fn cancelled_tasks_are_idle(state: Seq<char>)
    ensures
        is_cancelled(state) ==> state_status(state) == SessionStatus::Idle,
{
    let word = state_word(state);
    if is_cancelled(state) {
        reveal_strlit("cancelled");
        reveal_strlit("canceled");
        reveal_strlit("cancelling");
        reveal_strlit("canceling");
        reveal_strlit("completed");
        reveal_strlit("complete");
        reveal_strlit("done");
        reveal_strlit("succeeded");
        reveal_strlit("success");
        assert(word[1] == 'a');
        assert("completed"@[1] == 'o' && "complete"@[1] == 'o' && "done"@[1] == 'o');
        assert("succeeded"@[1] == 'u' && "success"@[1] == 'u');
    }
}

// ---------------------------------------------------------------------------
// Tasks as GitHub lists them
// ---------------------------------------------------------------------------
/// The repository of a task: by its name, or by the first of the usual entries of an object.
pub open spec fn task_repo(task: JsonView) -> Option<Seq<char>> {
    match task.get("repository"@) {
        Some(JsonView::Text(repo)) => Some(repo),
        Some(JsonView::Object(fields)) => {
            let repo = JsonView::Object(fields);
            match repo.get("nameWithOwner"@) {
                Some(value) => value.as_text(),
                None => match repo.get("fullName"@) {
                    Some(value) => value.as_text(),
                    None => match repo.get("name"@) {
                        Some(value) => value.as_text(),
                        None => None,
                    },
                },
            }
        },
        _ => None,
    }
}

/// The repository of a task, where it is the given one.
pub open spec fn matching_repo(task: JsonView, repo: Option<Seq<char>>) -> Option<Seq<char>> {
    if repo is Some && task_repo(task) == repo {
        repo
    } else {
        None
    }
}

fn owned(text: Option<&str>) -> (out: Option<String>)
    ensures
        opt_view(out) == opt_str(text),
{
    match text {
        Some(text) => Some(text.to_owned()),
        None => None,
    }
}

/// The repository of a task.
pub fn task_repository(task: &Json) -> (out: Option<String>)
    ensures
        opt_view(out) == task_repo(task@),
{
    match task.get("repository") {
        Some(repo) => match repo {
            Json::Text(name) => Some(name.clone()),
            Json::Object(_) => {
                match repo.get("nameWithOwner") {
                    Some(value) => {
                        return owned(value.as_str());
                    },
                    None => {},
                }
                match repo.get("fullName") {
                    Some(value) => {
                        return owned(value.as_str());
                    },
                    None => {},
                }
                match repo.get("name") {
                    Some(value) => owned(value.as_str()),
                    None => None,
                }
            },
            _ => None,
        },
        None => None,
    }
}

/// The repository of a task, where it is the given one.
pub fn matching_task_repository(task: &Json, repo: Option<&str>) -> (out: Option<String>)
    ensures
        opt_view(out) == matching_repo(task@, opt_str(repo)),
{
    match repo {
        Some(repo) => match task_repository(task) {
            Some(task_repo) => if same_text(&task_repo, repo) {
                Some(task_repo)
            } else {
                None
            },
            None => None,
        },
        None => None,
    }
}

/// The address of the pull request of a task.
pub open spec fn task_pr_url(task: JsonView) -> Option<Seq<char>> {
    match task.text_at("pullRequestUrl"@) {
        Some(url) => if url.len() > 0 {
            Some(url)
        } else {
            None
        },
        None => None,
    }
}

/// The address of a task: under that of its pull request.
pub open spec fn task_url(task: JsonView, id: Seq<char>) -> Option<Seq<char>> {
    match task_pr_url(task) {
        Some(url) => Some(trim_char_end(url, '/') + "/agent-sessions/"@ + id),
        None => None,
    }
}

/// The address of the pull request of a task.
pub fn pull_request_url(task: &Json) -> (out: Option<String>)
    ensures
        opt_view(out) == task_pr_url(task@),
{
    match task.str_at("pullRequestUrl") {
        Some(url) => if chars_of(url).len() > 0 {
            Some(url.to_owned())
        } else {
            None
        },
        None => None,
    }
}

/// The address of a task.
pub fn remote_session_url(task: &Json, id: &str) -> (out: Option<String>)
    ensures
        opt_view(out) == task_url(task@, id@),
{
    match pull_request_url(task) {
        Some(url) => {
            let base = string_of(char_trimmed_end(&chars_of(&url), '/'));
            Some(concat(&concat(&base, "/agent-sessions/"), id))
        },
        None => None,
    }
}

/// What a listed task comes to in the project at `dir`, where it belongs to the repository.
pub open spec fn listed_task(
    task: JsonView,
    dir: Seq<char>,
    repo: Option<Seq<char>>,
) -> Option<RemoteSession<Seq<char>>> {
    let id = task.text_at("id"@);
    if matching_repo(task, repo) is None || id is None {
        None
    } else {
        let state = match task.text_at("state"@) {
            Some(state) => state,
            None => "unknown"@,
        };
        let name = match task.text_at("name"@) {
            Some(name) => name,
            None => "Remote Copilot session"@,
        };
        Some(
            RemoteSession {
                id: id->0,
                display_name: shortened(name, 48),
                project_dir: dir,
                repository: matching_repo(task, repo),
                status: state_status(state),
                state,
                updated_at: task.text_at("updatedAt"@),
                url: task_url(task, id->0),
                pr_url: task_pr_url(task),
            },
        )
    }
}

/// What the listed tasks come to in the project at `dir`.
pub open spec fn listed_tasks(
    tasks: Seq<JsonView>,
    dir: Seq<char>,
    repo: Option<Seq<char>>,
) -> Seq<RemoteSession<Seq<char>>>
    decreases tasks.len(),
{
    if tasks.len() == 0 {
        seq![]
    } else {
        match listed_task(tasks.last(), dir, repo) {
            Some(session) => listed_tasks(tasks.drop_last(), dir, repo).push(session),
            None => listed_tasks(tasks.drop_last(), dir, repo),
        }
    }
}

/// What a list of tasks comes to; nothing where it is no list.
pub open spec fn task_sessions(
    tasks: JsonView,
    dir: Seq<char>,
    repo: Option<Seq<char>>,
) -> Seq<RemoteSession<Seq<char>>> {
    match tasks {
        JsonView::Array(items) => listed_tasks(items, dir, repo),
        _ => seq![],
    }
}

fn session_of_task(task: &Json, dir: &str, repo: Option<&str>) -> (out: Option<RemoteSession>)
    ensures
        opt_view(out) == listed_task(task@, dir@, opt_str(repo)),
{
    let repository = match matching_task_repository(task, repo) {
        Some(repository) => repository,
        None => {
            return None;
        },
    };
    let id = match task.str_at("id") {
        Some(id) => id,
        None => {
            return None;
        },
    };
    let name = match task.str_at("name") {
        Some(name) => name,
        None => "Remote Copilot session",
    };
    let state = match task.str_at("state") {
        Some(state) => state,
        None => "unknown",
    };
    Some(
        RemoteSession {
            id: id.to_owned(),
            display_name: truncate(name, 48),
            project_dir: dir.to_owned(),
            repository: Some(repository),
            status: remote_status(state),
            state: state.to_owned(),
            updated_at: owned(task.str_at("updatedAt")),
            url: remote_session_url(task, id),
            pr_url: pull_request_url(task),
        },
    )
}

/// The tasks of the repository in a list, for the project at `dir`.
pub fn sessions_of_tasks(tasks: &Json, dir: &str, repo: Option<&str>) -> (out: Vec<RemoteSession>)
    ensures
        views(out@) == task_sessions(tasks@, dir@, opt_str(repo)),
{
    let mut out: Vec<RemoteSession> = Vec::new();
    match tasks {
        Json::Array(items) => {
            let ghost all = tasks@->Array_0;
            let ghost wanted = opt_str(repo);
            let mut i: usize = 0;
            while i < items.len()
                invariant
                    i <= items.len(),
                    all.len() == items@.len(),
                    wanted == opt_str(repo),
                    forall|k: int| 0 <= k < items@.len() ==> all[k] == #[trigger] items@[k]@,
                    views(out@) == listed_tasks(all.take(i as int), dir@, wanted),
                decreases items.len() - i,
            {
                assert(all.take(i + 1).drop_last() == all.take(i as int));
                assert(all.take(i + 1).last() == items@[i as int]@);
                match session_of_task(&items[i], dir, repo) {
                    Some(session) => {
                        let ghost before = out@;
                        out.push(session);
                        assert(views(out@) == views(before).push(session@));
                    },
                    None => {},
                }
                i += 1;
            }
            assert(all.take(items@.len() as int) == all);
        },
        _ => {},
    }
    out
}

/// The tasks of the project at `dir` in what a run of the list printed, or what is said where it
/// failed.
pub fn list_remote_sessions_for_project(
    dir: &str,
    repo: Option<&str>,
    success: bool,
    stdout: &[u8],
    stderr: &[u8],
) -> (out: Result<Vec<RemoteSession>, String>)
    ensures
        match out {
            Ok(sessions) => success && json_of_bytes(stdout@) is Some && views(sessions@)
                == task_sessions(json_of_bytes(stdout@)->0, dir@, opt_str(repo)),
            Err(message) => if success {
                json_of_bytes(stdout@) is None && message@
                    == "failed to parse gh agent-task output"@
            } else {
                message@ == failure_text("gh agent-task list"@, lossy_text(stderr@))
            },
        },
{
    if !success {
        return Err(failure_message("gh agent-task list", &decode_lossy(stderr)));
    }
    match parse_json_bytes(stdout) {
        Some(tasks) => Ok(sessions_of_tasks(&tasks, dir, repo)),
        None => Err("failed to parse gh agent-task output".to_owned()),
    }
}

/// The arguments of `gh` that list the tasks.
pub fn list_args() -> (out: Vec<String>)
    ensures
        views(out@) == seq![
            "agent-task"@,
            "list"@,
            "--limit"@,
            "50"@,
            "--json"@,
            "id,name,pullRequestUrl,repository,state,updatedAt"@,
        ],
{
    let words: Vec<&str> = vec![
        "agent-task",
        "list",
        "--limit",
        "50",
        "--json",
        "id,name,pullRequestUrl,repository,state,updatedAt",
    ];
    assert(views(words@) == seq![
        "agent-task"@,
        "list"@,
        "--limit"@,
        "50"@,
        "--json"@,
        "id,name,pullRequestUrl,repository,state,updatedAt"@,
    ]);
    texts_of(&words)
}

// ---------------------------------------------------------------------------
// Putting the projects together
// ---------------------------------------------------------------------------
/// A session with the id is among them.
pub open spec fn has_id(sessions: Seq<RemoteSession<Seq<char>>>, id: Seq<char>) -> bool {
    exists|i: int| 0 <= i < sessions.len() && (#[trigger] sessions[i]).id == id
}

/// The sessions, and those of `more` whose ids are not there yet.
pub open spec fn with_new(
    sessions: Seq<RemoteSession<Seq<char>>>,
    more: Seq<RemoteSession<Seq<char>>>,
) -> Seq<RemoteSession<Seq<char>>>
    decreases more.len(),
{
    if more.len() == 0 {
        sessions
    } else {
        let all = with_new(sessions, more.drop_last());
        if has_id(all, more.last().id) {
            all
        } else {
            all.push(more.last())
        }
    }
}

/// What listing the tasks of a project gave.
pub open spec fn list_view(list: Result<Vec<RemoteSession>, String>) -> Result<
    Seq<RemoteSession<Seq<char>>>,
    Seq<char>,
> {
    match list {
        Ok(sessions) => Ok(views(sessions@)),
        Err(error) => Err(error@),
    }
}

/// What listing the tasks of the projects gave.
pub open spec fn list_views(lists: Seq<Result<Vec<RemoteSession>, String>>) -> Seq<
    Result<Seq<RemoteSession<Seq<char>>>, Seq<char>>,
> {
    Seq::new(lists.len(), |i: int| list_view(lists[i]))
}

/// The tasks of all projects, each of them once.
pub open spec fn gathered(
    lists: Seq<Result<Seq<RemoteSession<Seq<char>>>, Seq<char>>>,
) -> Seq<RemoteSession<Seq<char>>>
    decreases lists.len(),
{
    if lists.len() == 0 {
        seq![]
    } else {
        match lists.last() {
            Ok(sessions) => with_new(gathered(lists.drop_last()), sessions),
            Err(_) => gathered(lists.drop_last()),
        }
    }
}

/// What went wrong with the projects.
pub open spec fn list_errors(
    lists: Seq<Result<Seq<RemoteSession<Seq<char>>>, Seq<char>>>,
) -> Seq<Seq<char>>
    decreases lists.len(),
{
    if lists.len() == 0 {
        seq![]
    } else {
        match lists.last() {
            Ok(_) => list_errors(lists.drop_last()),
            Err(error) => list_errors(lists.drop_last()).push(error),
        }
    }
}

/// No two of the sessions have one id.
pub open spec fn ids_differ(sessions: Seq<RemoteSession<Seq<char>>>) -> bool {
    forall|i: int, j: int| 0 <= i < j < sessions.len() ==> sessions[i].id != sessions[j].id
}

proof fn new_ids_differ(
    sessions: Seq<RemoteSession<Seq<char>>>,
    more: Seq<RemoteSession<Seq<char>>>,
)
    requires
        ids_differ(sessions),
    ensures
        ids_differ(with_new(sessions, more)),
        forall|i: int|
            0 <= i < sessions.len() ==> has_id(with_new(sessions, more), #[trigger] sessions[i].id),
        forall|i: int|
            0 <= i < more.len() ==> has_id(with_new(sessions, more), #[trigger] more[i].id),
    decreases more.len(),
{
    if more.len() > 0 {
        let all = with_new(sessions, more.drop_last());
        let out = with_new(sessions, more);
        new_ids_differ(sessions, more.drop_last());
        assert forall|id: Seq<char>| has_id(all, id) implies has_id(out, id) by {
            let i = choose|i: int| 0 <= i < all.len() && (#[trigger] all[i]).id == id;
            assert(out[i].id == id);
        }
        assert forall|i: int| 0 <= i < more.len() implies has_id(out, #[trigger] more[i].id) by {
            if i < more.len() - 1 {
                assert(more.drop_last()[i] == more[i]);
            } else if !has_id(all, more.last().id) {
                assert(out[all.len() as int] == more.last());
            }
        }
        if !has_id(all, more.last().id) {
            assert forall|i: int, j: int| 0 <= i < j < out.len() implies out[i].id != out[j].id by {
                if j == all.len() {
                    assert(all[i].id != more.last().id);
                }
            }
        }
    } else {
        assert forall|i: int| 0 <= i < sessions.len() implies has_id(
            with_new(sessions, more),
            #[trigger] sessions[i].id,
        ) by {}
    }
}

/// Each task stands once among those of all projects.
pub proof fn gathered_ids_differ(lists: Seq<Result<Seq<RemoteSession<Seq<char>>>, Seq<char>>>)
    ensures
        ids_differ(gathered(lists)),
    decreases lists.len(),
{
    if lists.len() > 0 {
        gathered_ids_differ(lists.drop_last());
        match lists.last() {
            Ok(sessions) => {
                new_ids_differ(gathered(lists.drop_last()), sessions);
            },
            Err(_) => {},
        }
    }
}

/// Every task that a project listed stands among those of all projects.
pub proof fn gathered_misses_none(
    lists: Seq<Result<Seq<RemoteSession<Seq<char>>>, Seq<char>>>,
    project: int,
    task: int,
)
    requires
        0 <= project < lists.len(),
        lists[project] is Ok,
        0 <= task < lists[project]->Ok_0.len(),
    ensures
        has_id(gathered(lists), lists[project]->Ok_0[task].id),
    decreases lists.len(),
{
    let id = lists[project]->Ok_0[task].id;
    let rest = lists.drop_last();
    gathered_ids_differ(rest);
    match lists.last() {
        Ok(sessions) => {
            new_ids_differ(gathered(rest), sessions);
            if project < rest.len() {
                assert(rest[project] == lists[project]);
                gathered_misses_none(rest, project, task);
                let i = choose|i: int|
                    0 <= i < gathered(rest).len() && (#[trigger] gathered(rest)[i]).id == id;
                assert(has_id(with_new(gathered(rest), sessions), gathered(rest)[i].id));
            }
        },
        Err(_) => {
            assert(rest[project] == lists[project]);
            gathered_misses_none(rest, project, task);
        },
    }
}

fn add_new(sessions: &mut Vec<RemoteSession>, seen: &mut TextSet, more: &Vec<RemoteSession>)
    requires
        forall|id: Seq<char>| old(seen)@.contains(id) == has_id(views(old(sessions)@), id),
    ensures
        views(final(sessions)@) == with_new(views(old(sessions)@), views(more@)),
        forall|id: Seq<char>| final(seen)@.contains(id) == has_id(views(final(sessions)@), id),
{
    let ghost start = views(sessions@);
    let ghost all = views(more@);
    let mut i: usize = 0;
    while i < more.len()
        invariant
            i <= more.len(),
            all == views(more@),
            views(sessions@) == with_new(start, all.take(i as int)),
            forall|id: Seq<char>| seen@.contains(id) == has_id(views(sessions@), id),
        decreases more.len() - i,
    {
        let ghost before = sessions@;
        let ghost id = more@[i as int].id@;
        assert(all.take(i + 1).drop_last() == all.take(i as int));
        assert(all.take(i + 1).last() == more@[i as int]@);
        if seen.insert(&more[i].id) {
            sessions.push(more[i].clone());
            proof {
                let now = views(sessions@);
                assert(now == views(before).push(more@[i as int]@));
                assert forall|other: Seq<char>| seen@.contains(other) == has_id(now, other) by {
                    if has_id(views(before), other) {
                        let k = choose|k: int|
                            0 <= k < views(before).len() && (#[trigger] views(before)[k]).id
                                == other;
                        assert(now[k].id == other);
                    }
                    if has_id(now, other) && other != id {
                        let k = choose|k: int| 0 <= k < now.len() && (#[trigger] now[k]).id == other;
                        assert(views(before)[k].id == other);
                    }
                    assert(now[before.len() as int].id == id);
                }
            }
        }
        i += 1;
    }
    assert(all.take(more@.len() as int) == all);
}

/// The tasks of all projects, each of them once; an error where there are none and something went
/// wrong.
pub fn list_remote_sessions(lists: &Vec<Result<Vec<RemoteSession>, String>>) -> (out: Result<
    Vec<RemoteSession>,
    String,
>)
    ensures
        match out {
            Ok(sessions) => views(sessions@) == gathered(list_views(lists@)) && (gathered(
                list_views(lists@),
            ).len() > 0 || list_errors(list_views(lists@)).len() == 0),
            Err(message) => gathered(list_views(lists@)).len() == 0 && list_errors(
                list_views(lists@),
            ).len() > 0 && message@ == join(list_errors(list_views(lists@)), "; "@),
        },
        (exists|p: int|
            0 <= p < lists@.len() && (#[trigger] lists@[p]) is Ok && lists@[p]->Ok_0@.len() > 0)
            ==> out is Ok,
        (forall|p: int| 0 <= p < lists@.len() ==> (#[trigger] lists@[p]) is Ok) ==> out is Ok,
        lists@.len() > 0 && (forall|p: int|
            0 <= p < lists@.len() ==> (#[trigger] lists@[p]) is Err) ==> out is Err,
{
    let mut sessions: Vec<RemoteSession> = Vec::new();
    let mut errors: Vec<Vec<char>> = Vec::new();
    let mut seen = TextSet::new();
    let ghost all = list_views(lists@);
    let mut i: usize = 0;
    while i < lists.len()
        invariant
            i <= lists.len(),
            all == list_views(lists@),
            views(sessions@) == gathered(all.take(i as int)),
            views(errors@) == list_errors(all.take(i as int)),
            forall|id: Seq<char>| seen@.contains(id) == has_id(views(sessions@), id),
        decreases lists.len() - i,
    {
        assert(all.take(i + 1).drop_last() == all.take(i as int));
        assert(all.take(i + 1).last() == list_view(lists@[i as int]));
        match &lists[i] {
            Ok(more) => {
                add_new(&mut sessions, &mut seen, more);
            },
            Err(error) => {
                let ghost before = errors@;
                errors.push(chars_of(error));
                assert(views(errors@) == views(before).push(error@));
            },
        }
        i += 1;
    }
    assert(all.take(lists@.len() as int) == all);
    assert(views(errors@).len() == errors@.len());
    assert(views(sessions@).len() == sessions@.len());
    proof {
        assert forall|p: int| 0 <= p < lists@.len() implies all[p] == list_view(
            #[trigger] lists@[p],
        ) by {}
        errors_tell_of_failures(all);
        if exists|p: int|
            0 <= p < lists@.len() && (#[trigger] lists@[p]) is Ok && lists@[p]->Ok_0@.len() > 0 {
            let p = choose|p: int|
                0 <= p < lists@.len() && (#[trigger] lists@[p]) is Ok && lists@[p]->Ok_0@.len() > 0;
            gathered_misses_none(all, p, 0);
        }
        if gathered(all).len() > 0 {
            gathered_come_from_the_lists(all, 0);
            let (p, t) = choose|project: int, place: int|
                #[trigger] is_listed_at(all, project, place, gathered(all)[0]);
            assert(lists@[p] is Ok);
        }
        if lists@.len() > 0 {
            assert(all[0] == list_view(lists@[0]));
        }
    }
    if sessions.len() == 0 && errors.len() > 0 {
        return Err(string_of(&joined(&errors, "; ")));
    }
    Ok(sessions)
}

proof fn errors_tell_of_failures(lists: Seq<Result<Seq<RemoteSession<Seq<char>>>, Seq<char>>>)
    ensures
        list_errors(lists).len() == 0 <==> forall|p: int|
            0 <= p < lists.len() ==> (#[trigger] lists[p]) is Ok,
    decreases lists.len(),
{
    if lists.len() > 0 {
        let rest = lists.drop_last();
        let last = lists.len() - 1;
        errors_tell_of_failures(rest);
        assert(lists.last() == lists[last]);
        if forall|p: int| 0 <= p < rest.len() ==> (#[trigger] rest[p]) is Ok {
            assert forall|p: int| 0 <= p < last implies (#[trigger] lists[p]) is Ok by {
                assert(rest[p] == lists[p]);
            }
        }
        if forall|p: int| 0 <= p < lists.len() ==> (#[trigger] lists[p]) is Ok {
            assert forall|p: int| 0 <= p < rest.len() implies (#[trigger] rest[p]) is Ok by {
                assert(rest[p] == lists[p]);
            }
        }
    }
}

// ---------------------------------------------------------------------------
// Times
// ---------------------------------------------------------------------------
/// The year has a 29th of February.
pub open spec fn is_leap(year: int) -> bool {
    year % 4 == 0 && (year % 100 != 0 || year % 400 == 0)
}

/// The number of days from the start of the year 0 to the start of a year.
pub open spec fn days_before_year(year: int) -> int {
    365 * year + (year + 3) / 4 - (year + 99) / 100 + (year + 399) / 400
}

/// The number of days from the start of a year to the start of a month.
pub open spec fn days_before_month(year: int, month: int) -> int {
    let leap: int = if is_leap(year) { 1 } else { 0 };
    if month == 1 {
        0
    } else if month == 2 {
        31
    } else if month == 3 {
        59 + leap
    } else if month == 4 {
        90 + leap
    } else if month == 5 {
        120 + leap
    } else if month == 6 {
        151 + leap
    } else if month == 7 {
        181 + leap
    } else if month == 8 {
        212 + leap
    } else if month == 9 {
        243 + leap
    } else if month == 10 {
        273 + leap
    } else if month == 11 {
        304 + leap
    } else {
        334 + leap
    }
}

/// The number of days from the first day of 1970 to a day.
pub open spec fn day_number(year: int, month: int, day: int) -> int {
    days_before_year(year) + days_before_month(year, month) + day - 1 - days_before_year(1970)
}

/// A year starts where the year before it ends.
pub proof fn years_follow(year: int)
    ensures
        days_before_year(year + 1) == days_before_year(year) + if is_leap(year) {
            366int
        } else {
            365
        },
        day_number(1970, 1, 1) == 0,
{
    assert((year + 4) / 4 == (year + 3) / 4 + if year % 4 == 0 { 1int } else { 0 });
    assert((year + 100) / 100 == (year + 99) / 100 + if year % 100 == 0 { 1int } else { 0 });
    assert((year + 400) / 400 == (year + 399) / 400 + if year % 400 == 0 { 1int } else { 0 });
}

proof fn quarter_days(y: int, era: int, r: int)
    requires
        y == era * 400 + r,
        0 <= r < 400,
    ensures
        (y + 4) / 4 == 100 * era + r / 4 + 1,
        (y + 3) / 4 == 100 * era + r / 4 + if r % 4 == 0 {
            0int
        } else {
            1
        },
        y % 4 == r % 4,
{
}

proof fn century_days(y: int, era: int, r: int)
    requires
        y == era * 400 + r,
        0 <= r < 400,
    ensures
        (y + 100) / 100 == 4 * era + r / 100 + 1,
        (y + 99) / 100 == 4 * era + r / 100 + if r % 100 == 0 {
            0int
        } else {
            1
        },
        y % 100 == r % 100,
{
}

proof fn era_days(y: int, era: int, r: int)
    requires
        y == era * 400 + r,
        0 <= r < 400,
    ensures
        (y + 400) / 400 == era + 1,
        (y + 399) / 400 == era + if r == 0 {
            0int
        } else {
            1
        },
        y % 400 == r,
{
}

proof fn days_before_march(year: int, month: int)
    requires
        3 <= month <= 12,
    ensures
        days_before_month(year, month) == 59 + (if is_leap(year) {
            1int
        } else {
            0
        }) + (153 * (month - 3) + 2) / 5,
{
}

/// The count of days by years that start in March: `y` is such a year, with `era` the number of its
/// span of 400 years and `r` its place in that span.
proof fn days_by_march_years(y: int, era: int, r: int, month: int, day: int)
    requires
        y == era * 400 + r,
        0 <= r < 400,
        1 <= month <= 12,
    ensures
        ({
            let year = if month <= 2 { y + 1 } else { y };
            let prime = if month > 2 { month - 3 } else { month + 9 };
            day_number(year, month, day) == era * 146_097 + (r * 365 + r / 4 - r / 100 + (153
                * prime + 2) / 5 + day - 1) - 719_468
        }),
{
    assert(days_before_year(1970) == 719_528);
    quarter_days(y, era, r);
    century_days(y, era, r);
    era_days(y, era, r);
    if month <= 2 {
        assert(days_before_year(y + 1) == 146_097 * era + 365 * r + r / 4 - r / 100 + 366);
    } else {
        let leap: int = if is_leap(y) { 1 } else { 0 };
        assert(days_before_year(y) == 146_097 * era + 365 * r + r / 4 - r / 100 + 1 - leap);
        days_before_march(y, month);
    }
}

/// The number of days from the first day of 1970 to a day.
fn days_from_civil(year: i64, month: i64, day: i64) -> (days: i128)
    requires
        1 <= month <= 12,
        1 <= day <= 31,
    ensures
        days == day_number(year as int, month as int, day as int),
{
    let y: i128 = if month <= 2 { year as i128 - 1 } else { year as i128 };
    let era: i128 = if y >= 0 { y / 400 } else { -((399 - y) / 400) };
    let year_of_era: i128 = y - era * 400;
    proof {
        days_by_march_years(y as int, era as int, year_of_era as int, month as int, day as int);
    }
    let month_prime: i128 = if month > 2 { month as i128 - 3 } else { month as i128 + 9 };
    let day_of_year: i128 = (153 * month_prime + 2) / 5 + day as i128 - 1;
    let day_of_era: i128 = year_of_era * 365 + year_of_era / 4 - year_of_era / 100 + day_of_year;
    era * 146_097 + day_of_era - 719_468
}

/// The numbers of a date and a time of day.
pub struct CivilTime {
    pub year: i64,
    pub month: i64,
    pub day: i64,
    pub hour: i64,
    pub minute: i64,
    pub second: i64,
}

/// The first three numbers of a text between the characters `c`.
pub open spec fn three_numbers(s: Seq<char>, c: char) -> Option<(i64, i64, i64)> {
    let pieces = split(s, c);
    if pieces.len() >= 3 && parsed_i64(pieces[0]) is Some && parsed_i64(pieces[1]) is Some
        && parsed_i64(pieces[2]) is Some {
        Some((parsed_i64(pieces[0])->0, parsed_i64(pieces[1])->0, parsed_i64(pieces[2])->0))
    } else {
        None
    }
}

/// The part of a text before the first `c`, or all of it.
pub open spec fn head(s: Seq<char>, c: char) -> Seq<char> {
    if s.contains(c) {
        s.take(position(s, c))
    } else {
        s
    }
}

/// The date and time that a text names in the form `2026-05-13T03:48:44Z`, where a fraction of a
/// second may stand before the `Z`.
pub open spec fn named_time(input: Seq<char>) -> Option<CivilTime> {
    if input.len() == 0 || input.last() != 'Z' {
        None
    } else {
        let stamp = head(input.drop_last(), '.');
        if !stamp.contains('T') {
            None
        } else {
            let date = three_numbers(stamp.take(position(stamp, 'T')), '-');
            let time = three_numbers(stamp.skip(position(stamp, 'T') + 1), ':');
            match (date, time) {
                (Some(date), Some(time)) => Some(
                    CivilTime {
                        year: date.0,
                        month: date.1,
                        day: date.2,
                        hour: time.0,
                        minute: time.1,
                        second: time.2,
                    },
                ),
                _ => None,
            }
        }
    }
}

/// The numbers are those of a date and a time of day; a minute may have a leap second.
pub open spec fn is_civil(t: CivilTime) -> bool {
    1 <= t.month <= 12 && 1 <= t.day <= 31 && 0 <= t.hour <= 23 && 0 <= t.minute <= 59 && 0
        <= t.second <= 60
}

/// The number of seconds from the start of 1970.
pub open spec fn epoch_seconds(t: CivilTime) -> int {
    day_number(t.year as int, t.month as int, t.day as int) * 86_400 + t.hour * 3_600 + t.minute
        * 60 + t.second
}

/// The time that a text names, in milliseconds since the start of 1970, whole seconds only. Nothing
/// where the text names none, or one before 1970, or one whose seconds do not fit in 63 bits.
pub open spec fn named_millis(input: Seq<char>) -> Option<u128> {
    match named_time(input) {
        Some(t) => if is_civil(t) && 0 <= epoch_seconds(t) <= i64::MAX {
            Some((epoch_seconds(t) * 1_000) as u128)
        } else {
            None
        },
        None => None,
    }
}

fn numbers_between(s: &[char], c: char) -> (out: Option<(i64, i64, i64)>)
    ensures
        out == three_numbers(s@, c),
{
    let pieces = split_at_char(s, c);
    if pieces.len() < 3 {
        return None;
    }
    assert(views(pieces@)[0] == pieces@[0]@ && views(pieces@)[1] == pieces@[1]@ && views(pieces@)[2]
        == pieces@[2]@);
    match (parse_i64(&pieces[0]), parse_i64(&pieces[1]), parse_i64(&pieces[2])) {
        (Some(a), Some(b), Some(c)) => Some((a, b, c)),
        _ => None,
    }
}

fn read_time(input: &str) -> (out: Option<CivilTime>)
    ensures
        out == named_time(input@),
{
    let s = chars_of(input);
    if s.len() == 0 || s[s.len() - 1] != 'Z' {
        return None;
    }
    let whole = part(&s, 0, s.len() - 1);
    assert(whole@ == input@.drop_last());
    let dot = position_of(whole, '.');
    let stamp = part(whole, 0, dot);
    proof {
        position_is_first(whole@, '.');
        assert(whole@.subrange(0, dot as int) == whole@.take(dot as int));
        assert(whole@.take(whole@.len() as int) == whole@);
        assert(stamp@ == head(input@.drop_last(), '.'));
        position_is_first(stamp@, 'T');
    }
    let mark = position_of(stamp, 'T');
    if mark >= stamp.len() {
        return None;
    }
    assert(stamp@.subrange(0, mark as int) == stamp@.take(mark as int));
    assert(stamp@.subrange(mark + 1, stamp@.len() as int) == stamp@.skip(mark + 1));
    match (
        numbers_between(part(stamp, 0, mark), '-'),
        numbers_between(part(stamp, mark + 1, stamp.len()), ':'),
    ) {
        (Some(date), Some(time)) => Some(
            CivilTime {
                year: date.0,
                month: date.1,
                day: date.2,
                hour: time.0,
                minute: time.1,
                second: time.2,
            },
        ),
        _ => None,
    }
}

proof fn day_numbers_are_bounded(year: int, month: int, day: int)
    requires
        i64::MIN <= year <= i64::MAX,
        1 <= month <= 12,
        1 <= day <= 31,
    ensures
        -4_000_000_000_000_000_000_000 <= day_number(year, month, day) <= 4_000_000_000_000_000_000_000,
{
}

/// The time that a text names, in milliseconds since the start of 1970.
pub fn parse_rfc3339_utc_millis(input: &str) -> (out: Option<u128>)
    ensures
        out == named_millis(input@),
{
    let t = match read_time(input) {
        Some(t) => t,
        None => {
            return None;
        },
    };
    if !(1 <= t.month && t.month <= 12 && 1 <= t.day && t.day <= 31 && 0 <= t.hour && t.hour <= 23
        && 0 <= t.minute && t.minute <= 59 && 0 <= t.second && t.second <= 60) {
        return None;
    }
    proof {
        day_numbers_are_bounded(t.year as int, t.month as int, t.day as int);
    }
    let days: i128 = days_from_civil(t.year, t.month, t.day);
    let seconds: i128 = days * 86_400 + t.hour as i128 * 3_600 + t.minute as i128 * 60 + t.second as i128;
    if seconds < 0 || seconds > i64::MAX as i128 {
        return None;
    }
    Some(seconds as u128 * 1_000)
}

/// When a task was last changed, in milliseconds since the start of 1970.
pub open spec fn task_activity(updated_at: Option<Seq<char>>) -> Option<u128> {
    match updated_at {
        Some(text) => named_millis(text),
        None => None,
    }
}

/// When a task was last changed, in milliseconds since the start of 1970.
pub fn remote_activity_key(session: &RemoteSession) -> (out: Option<u128>)
    ensures
        out == task_activity(session@.updated_at),
{
    match &session.updated_at {
        Some(text) => parse_rfc3339_utc_millis(text),
        None => None,
    }
}

// ---------------------------------------------------------------------------
// What tasks come to
// ---------------------------------------------------------------------------
/// The states of tasks that are done.
pub open spec fn done_states() -> Seq<Seq<char>> {
    seq![
        "completed"@,
        "complete"@,
        "done"@,
        "succeeded"@,
        "success"@,
    ]
}

/// The states of tasks that were called off.
pub open spec fn cancelled_states() -> Seq<Seq<char>> {
    seq![
        "cancelled"@,
        "canceled"@,
        "cancelling"@,
        "canceling"@,
    ]
}

/// The states of tasks that wait for someone.
pub open spec fn waiting_states() -> Seq<Seq<char>> {
    seq![
        "queued"@,
        "pending"@,
        "waiting"@,
        "blocked"@,
        "waiting_for_input"@,
        "waiting_for_user"@,
        "input_required"@,
        "user_input_required"@,
        "requires_action"@,
    ]
}

/// The states of tasks at work.
pub open spec fn busy_states() -> Seq<Seq<char>> {
    seq![
        "in_progress"@,
        "running"@,
        "busy"@,
        "started"@,
    ]
}

/// What a task is doing follows from its state, however it is spelled: in small or capital letters,
/// with dashes, spaces or underscores. A state that was called off is told, and a state that is not
/// known is idle.
pub proof fn state_tells_what_a_task_is_doing(state: Seq<char>)
    ensures
        ({
            let word = trim(state).map_values(
                |c: char|
                    if c == '-' || c == ' ' {
                        '_'
                    } else {
                        lower(c)
                    },
            );
            let done = done_states().contains(word);
            let cancelled = cancelled_states().contains(word);
            let waiting = waiting_states().contains(word);
            let busy = busy_states().contains(word);
            &&& state_word(state) == word
            &&& done ==> state_status(state) is Done
            &&& cancelled && !done ==> state_status(state) is Idle
            &&& waiting && !done && !cancelled ==> state_status(state) is Waiting
            &&& busy && !done && !cancelled && !waiting ==> state_status(state) is Busy
            &&& !done && !cancelled && !waiting && !busy ==> state_status(state) is Idle
            &&& is_cancelled(state) <==> cancelled
        }),
{
    let word = state_word(state);
    assert(word =~= trim(state).map_values(
        |c: char|
            if c == '-' || c == ' ' {
                '_'
            } else {
                lower(c)
            },
    ));
    done_is_listed(word);
    cancelled_is_listed(word);
    waiting_is_listed(word);
    busy_is_listed(word);
}

proof fn done_is_listed(word: Seq<char>)
    ensures
        is_done_word(word) == done_states().contains(word),
{
    let all = done_states();
    assert(all[0] == "completed"@);
    assert(all[1] == "complete"@);
    assert(all[2] == "done"@);
    assert(all[3] == "succeeded"@);
    assert(all[4] == "success"@);
    if all.contains(word) {
        let i = choose|i: int| 0 <= i < all.len() && all[i] == word;
        assert(all[i] == word);
    }
}

proof fn cancelled_is_listed(word: Seq<char>)
    ensures
        is_cancelled_word(word) == cancelled_states().contains(word),
{
    let all = cancelled_states();
    assert(all[0] == "cancelled"@);
    assert(all[1] == "canceled"@);
    assert(all[2] == "cancelling"@);
    assert(all[3] == "canceling"@);
    if all.contains(word) {
        let i = choose|i: int| 0 <= i < all.len() && all[i] == word;
        assert(all[i] == word);
    }
}

proof fn waiting_is_listed(word: Seq<char>)
    ensures
        is_waiting_word(word) == waiting_states().contains(word),
{
    let all = waiting_states();
    assert(all[0] == "queued"@);
    assert(all[1] == "pending"@);
    assert(all[2] == "waiting"@);
    assert(all[3] == "blocked"@);
    assert(all[4] == "waiting_for_input"@);
    assert(all[5] == "waiting_for_user"@);
    assert(all[6] == "input_required"@);
    assert(all[7] == "user_input_required"@);
    assert(all[8] == "requires_action"@);
    if all.contains(word) {
        let i = choose|i: int| 0 <= i < all.len() && all[i] == word;
        assert(all[i] == word);
    }
}

proof fn busy_is_listed(word: Seq<char>)
    ensures
        is_busy_word(word) == busy_states().contains(word),
{
    let all = busy_states();
    assert(all[0] == "in_progress"@);
    assert(all[1] == "running"@);
    assert(all[2] == "busy"@);
    assert(all[3] == "started"@);
    if all.contains(word) {
        let i = choose|i: int| 0 <= i < all.len() && all[i] == word;
        assert(all[i] == word);
    }
}

/// A task is listed for a project where it has an id and belongs to the repository of the project. It
/// keeps its id, its state and when it was changed, stands in the directory of the project, and is
/// called by its name, cut to 48 characters. Its address lies under that of its pull request.
pub proof fn task_is_listed_for_its_repository(
    task: JsonView,
    dir: Seq<char>,
    repo: Option<Seq<char>>,
)
    ensures
        listed_task(task, dir, repo) is Some <==> repo is Some && task_repo(task) == repo
            && task.text_at("id"@) is Some,
        match listed_task(task, dir, repo) {
            Some(session) => {
                let state = match task.text_at("state"@) {
                    Some(state) => state,
                    None => "unknown"@,
                };
                let name = match task.text_at("name"@) {
                    Some(name) => name,
                    None => "Remote Copilot session"@,
                };
                let pr = task.text_at("pullRequestUrl"@);
                &&& Some(session.id) == task.text_at("id"@)
                &&& session.project_dir == dir
                &&& session.repository == repo
                &&& session.state == state
                &&& session.status == state_status(state)
                &&& session.updated_at == task.text_at("updatedAt"@)
                &&& name.len() <= 48 ==> session.display_name == name
                &&& name.len() > 48 ==> session.display_name == name.take(47).push('~')
                &&& session.pr_url is Some <==> pr is Some && pr->0.len() > 0
                &&& session.pr_url is Some ==> session.pr_url == pr && session.url == Some(
                    trim_char_end(pr->0, '/') + "/agent-sessions/"@ + session.id,
                )
                &&& session.pr_url is None ==> session.url is None
            },
            None => true,
        },
{
}

/// The repository of a task is told by its name, or by the first of the entries `nameWithOwner`,
/// `fullName` and `name` that an object has, where it is a text.
pub proof fn repository_of_a_task_is_read(task: JsonView)
    ensures
        match task.get("repository"@) {
            Some(value) => {
                let (a, b, c) = (
                    value.get("nameWithOwner"@),
                    value.get("fullName"@),
                    value.get("name"@),
                );
                &&& value is Text ==> task_repo(task) == Some(value->Text_0)
                &&& value is Object && a is Some ==> task_repo(task) == a->0.as_text()
                &&& value is Object && a is None && b is Some ==> task_repo(task) == b->0.as_text()
                &&& value is Object && a is None && b is None && c is Some ==> task_repo(task)
                    == c->0.as_text()
                &&& value is Object && a is None && b is None && c is None ==> task_repo(
                    task,
                ) is None
                &&& !(value is Text) && !(value is Object) ==> task_repo(task) is None
            },
            None => task_repo(task) is None,
        },
{
}

/// Of a list of tasks those are taken that are listed for the project, each once, in order.
pub proof fn every_task_of_the_repository_is_taken(
    tasks: Seq<JsonView>,
    dir: Seq<char>,
    repo: Option<Seq<char>>,
)
    ensures
        listed_tasks(tasks, dir, repo) == tasks.filter(
            |task: JsonView|
                repo is Some && task_repo(task) == repo && task.text_at("id"@) is Some,
        ).map_values(|task: JsonView| listed_task(task, dir, repo)->0),
    decreases tasks.len(),
{
    reveal(Seq::filter);
    let pick = |task: JsonView|
        repo is Some && task_repo(task) == repo && task.text_at("id"@) is Some;
    let read = |task: JsonView| listed_task(task, dir, repo)->0;
    if tasks.len() == 0 {
        assert(tasks.filter(pick).map_values(read) == Seq::<RemoteSession<Seq<char>>>::empty());
    } else {
        every_task_of_the_repository_is_taken(tasks.drop_last(), dir, repo);
        let rest = tasks.drop_last().filter(pick);
        if pick(tasks.last()) {
            assert(rest.push(tasks.last()).map_values(read) == rest.map_values(read).push(
                read(tasks.last()),
            ));
        }
    }
}

/// The task at a place in the list of a project.
pub open spec fn is_listed_at(
    lists: Seq<Result<Seq<RemoteSession<Seq<char>>>, Seq<char>>>,
    project: int,
    place: int,
    task: RemoteSession<Seq<char>>,
) -> bool {
    0 <= project < lists.len() && lists[project] is Ok && 0 <= place < lists[project]->Ok_0.len()
        && lists[project]->Ok_0[place] == task
}

/// The tasks of all projects are such as a project listed, unchanged.
pub proof fn gathered_come_from_the_lists(
    lists: Seq<Result<Seq<RemoteSession<Seq<char>>>, Seq<char>>>,
    i: int,
)
    requires
        0 <= i < gathered(lists).len(),
    ensures
        exists|project: int, place: int|
            #[trigger] is_listed_at(lists, project, place, gathered(lists)[i]),
    decreases lists.len(),
{
    let rest = lists.drop_last();
    let all = gathered(lists);
    let before = gathered(rest);
    let n = lists.len() - 1;
    match lists.last() {
        Ok(sessions) => {
            new_come_from(before, sessions, i);
            if i < before.len() {
                gathered_come_from_the_lists(rest, i);
                let (p, t) = choose|project: int, place: int|
                    #[trigger] is_listed_at(rest, project, place, before[i]);
                assert(is_listed_at(lists, p, t, all[i]));
            } else {
                let t = choose|t: int| 0 <= t < sessions.len() && sessions[t] == all[i];
                assert(is_listed_at(lists, n, t, all[i]));
            }
        },
        Err(_) => {
            gathered_come_from_the_lists(rest, i);
            let (p, t) = choose|project: int, place: int|
                #[trigger] is_listed_at(rest, project, place, before[i]);
            assert(is_listed_at(lists, p, t, all[i]));
        },
    }
}

proof fn new_come_from(
    sessions: Seq<RemoteSession<Seq<char>>>,
    more: Seq<RemoteSession<Seq<char>>>,
    i: int,
)
    requires
        0 <= i < with_new(sessions, more).len(),
    ensures
        sessions.len() <= with_new(sessions, more).len(),
        i < sessions.len() ==> with_new(sessions, more)[i] == sessions[i],
        i >= sessions.len() ==> more.contains(with_new(sessions, more)[i]),
    decreases more.len(),
{
    if more.len() > 0 {
        let rest = more.drop_last();
        let before = with_new(sessions, rest);
        let all = with_new(sessions, more);
        if before.len() > 0 {
            new_come_from(sessions, rest, if i < before.len() { i } else { 0 });
        } else {
            new_is_no_shorter(sessions, rest);
        }
        if i < before.len() {
            assert(all[i] == before[i]);
            if i >= sessions.len() {
                let k = choose|k: int| 0 <= k < rest.len() && rest[k] == before[i];
                assert(more[k] == before[i]);
            }
        } else {
            assert(more[more.len() - 1] == all[i]);
        }
    }
}

proof fn new_is_no_shorter(
    sessions: Seq<RemoteSession<Seq<char>>>,
    more: Seq<RemoteSession<Seq<char>>>,
)
    ensures
        sessions.len() <= with_new(sessions, more).len(),
    decreases more.len(),
{
    if more.len() > 0 {
        new_is_no_shorter(sessions, more.drop_last());
    }
}

/// What went wrong is told of every project that could not be listed, in order.
pub proof fn every_error_is_told(lists: Seq<Result<Seq<RemoteSession<Seq<char>>>, Seq<char>>>)
    ensures
        list_errors(lists) == lists.filter(
            |list: Result<Seq<RemoteSession<Seq<char>>>, Seq<char>>| list is Err,
        ).map_values(|list: Result<Seq<RemoteSession<Seq<char>>>, Seq<char>>| list->Err_0),
    decreases lists.len(),
{
    reveal(Seq::filter);
    let failed = |list: Result<Seq<RemoteSession<Seq<char>>>, Seq<char>>| list is Err;
    let told = |list: Result<Seq<RemoteSession<Seq<char>>>, Seq<char>>| list->Err_0;
    if lists.len() == 0 {
        assert(lists.filter(failed).map_values(told) == Seq::<Seq<char>>::empty());
    } else {
        every_error_is_told(lists.drop_last());
        let rest = lists.drop_last().filter(failed);
        if failed(lists.last()) {
            assert(rest.push(lists.last()).map_values(told) == rest.map_values(told).push(
                told(lists.last()),
            ));
        }
    }
}

/// A month starts where the one before it ends, and a year where its December does; a day later is a
/// day more, and an hour, a minute and a second are as long as they are.
pub proof fn time_runs_on(t: CivilTime)
    requires
        1 <= t.month <= 12,
        t.day < i64::MAX && t.hour < i64::MAX && t.minute < i64::MAX && t.second < i64::MAX,
    ensures
        ({
            let year = t.year as int;
            let month = t.month as int;
            let length = if month == 2 {
                if is_leap(year) {
                    29int
                } else {
                    28
                }
            } else if month == 4 || month == 6 || month == 9 || month == 11 {
                30
            } else {
                31
            };
            &&& month < 12 ==> day_number(year, month + 1, 1) == day_number(year, month, 1) + length
            &&& month == 12 ==> day_number(year + 1, 1, 1) == day_number(year, month, 1) + length
            &&& epoch_seconds(CivilTime { day: (t.day + 1) as i64, ..t }) == epoch_seconds(t)
                + 86_400
            &&& epoch_seconds(CivilTime { hour: (t.hour + 1) as i64, ..t }) == epoch_seconds(t)
                + 3_600
            &&& epoch_seconds(CivilTime { minute: (t.minute + 1) as i64, ..t }) == epoch_seconds(t)
                + 60
            &&& epoch_seconds(CivilTime { second: (t.second + 1) as i64, ..t }) == epoch_seconds(t)
                + 1
            &&& day_number(1970, 1, 1) == 0
        }),
{
    years_follow(t.year as int);
}

/// The tasks of the projects that were listed first stand first, and a task that is listed again for
/// a later project is left out there.
pub proof fn tasks_of_earlier_projects_stay_first(
    lists: Seq<Result<Seq<RemoteSession<Seq<char>>>, Seq<char>>>,
    more: Seq<RemoteSession<Seq<char>>>,
    error: Seq<char>,
    i: int,
)
    requires
        0 <= i < gathered(lists).len(),
    ensures
        gathered(lists.push(Ok(more))).len() >= gathered(lists).len(),
        gathered(lists.push(Ok(more)))[i] == gathered(lists)[i],
        gathered(lists.push(Err(error))) == gathered(lists),
{
    let good = lists.push(Ok(more));
    let bad = lists.push(Err(error));
    assert(good.drop_last() == lists);
    assert(bad.drop_last() == lists);
    new_is_no_shorter(gathered(lists), more);
    new_come_from(gathered(lists), more, i);
}

/// Of a list of tasks those of the repository are taken; what is no list holds none.
pub proof fn only_lists_hold_tasks(
    items: Seq<JsonView>,
    other: JsonView,
    dir: Seq<char>,
    repo: Option<Seq<char>>,
)
    ensures
        task_sessions(JsonView::Array(items), dir, repo) == items.filter(
            |task: JsonView|
                repo is Some && task_repo(task) == repo && task.text_at("id"@) is Some,
        ).map_values(|task: JsonView| listed_task(task, dir, repo)->0),
        !(other is Array) ==> task_sessions(other, dir, repo).len() == 0,
{
    every_task_of_the_repository_is_taken(items, dir, repo);
}

proof fn digits_are_bare(s: Seq<char>, c: char)
    requires
        is_number(s),
        !is_digit(c),
        number_value(s) <= i64::MAX,
    ensures
        !s.contains(c),
        split(s, c) == seq![s],
        parsed_i64(s) == Some(number_value(s) as i64),
{
    position_is_first(s, c);
    assert(is_digit(s[0]));
    if s.contains(c) {
        let i = choose|i: int| 0 <= i < s.len() && s[i] == c;
        assert(is_digit(s[i]));
    }
    number_value_grows(s, 0);
}

proof fn three_parts_are_read(a: Seq<char>, b: Seq<char>, d: Seq<char>, c: char)
    requires
        is_number(a) && is_number(b) && is_number(d),
        number_value(a) <= i64::MAX && number_value(b) <= i64::MAX && number_value(d) <= i64::MAX,
        !is_digit(c),
    ensures
        three_numbers(a + seq![c] + b + seq![c] + d, c) == Some(
            (number_value(a) as i64, number_value(b) as i64, number_value(d) as i64),
        ),
{
    digits_are_bare(a, c);
    digits_are_bare(b, c);
    digits_are_bare(d, c);
    let all = a + seq![c] + b + seq![c] + d;
    split_of_two(a, b, c);
    split_of_two(a + seq![c] + b, d, c);
    assert(split(all, c) == seq![a, b, d]);
}

/// The time that a text in the form `2026-05-13T03:48:44Z` names, its numbers in that order, with a
/// fraction of a second or without, is its count of seconds since 1970, in milliseconds. A text
/// that does not end in `Z`, or whose numbers are no date and no time of day, names none.
pub proof fn time_is_read_from_its_numbers(
    date: (Seq<char>, Seq<char>, Seq<char>),
    time: (Seq<char>, Seq<char>, Seq<char>),
    fraction: Seq<char>,
)
    requires
        is_number(date.0) && is_number(date.1) && is_number(date.2),
        is_number(time.0) && is_number(time.1) && is_number(time.2),
        number_value(date.0) <= i64::MAX && number_value(date.1) <= i64::MAX,
        number_value(date.2) <= i64::MAX && number_value(time.0) <= i64::MAX,
        number_value(time.1) <= i64::MAX && number_value(time.2) <= i64::MAX,
        fraction.len() > 0 ==> fraction[0] == '.',
    ensures
        ({
            let stamp = (date.0 + seq!['-'] + date.1 + seq!['-'] + date.2) + seq!['T'] + (time.0
                + seq![':'] + time.1 + seq![':'] + time.2);
            let t = CivilTime {
                year: number_value(date.0) as i64,
                month: number_value(date.1) as i64,
                day: number_value(date.2) as i64,
                hour: number_value(time.0) as i64,
                minute: number_value(time.1) as i64,
                second: number_value(time.2) as i64,
            };
            let sound = 1 <= t.month <= 12 && 1 <= t.day <= 31 && 0 <= t.hour <= 23 && 0 <= t.minute
                <= 59 && 0 <= t.second <= 60;
            &&& sound && 0 <= epoch_seconds(t) <= i64::MAX ==> named_millis(
                stamp + fraction + seq!['Z'],
            ) is Some && named_millis(stamp + fraction + seq!['Z'])->0 == epoch_seconds(t) * 1_000
            &&& !sound || epoch_seconds(t) < 0 ==> named_millis(
                stamp + fraction + seq!['Z'],
            ) is None
            &&& named_millis(stamp) is None
        }),
{
    let day = date.0 + seq!['-'] + date.1 + seq!['-'] + date.2;
    let hour = time.0 + seq![':'] + time.1 + seq![':'] + time.2;
    let stamp = day + seq!['T'] + hour;
    three_parts_are_read(date.0, date.1, date.2, '-');
    three_parts_are_read(time.0, time.1, time.2, ':');
    bare_of(date.0, date.1, date.2, '-', 'T');
    bare_of(date.0, date.1, date.2, '-', '.');
    bare_of(time.0, time.1, time.2, ':', '.');
    stamp_is_taken_apart(day, hour, fraction);
    last_digit_is_last(day + seq!['T'] + time.0 + seq![':'] + time.1 + seq![':'], time.2);
    assert(stamp == day + seq!['T'] + time.0 + seq![':'] + time.1 + seq![':'] + time.2);
}

proof fn last_digit_is_last(before: Seq<char>, digits: Seq<char>)
    requires
        is_number(digits),
    ensures
        (before + digits).last() != 'Z',
{
    assert(is_digit(digits[digits.len() - 1]));
}

proof fn stamp_is_taken_apart(day: Seq<char>, hour: Seq<char>, fraction: Seq<char>)
    requires
        !day.contains('T'),
        !day.contains('.'),
        !hour.contains('.'),
        fraction.len() > 0 ==> fraction[0] == '.',
    ensures
        ({
            let stamp = day + seq!['T'] + hour;
            let input = stamp + fraction + seq!['Z'];
            &&& input.last() == 'Z'
            &&& head(input.drop_last(), '.') == stamp
            &&& stamp.contains('T')
            &&& stamp.take(position(stamp, 'T')) == day
            &&& stamp.skip(position(stamp, 'T') + 1) == hour
        }),
{
    let stamp = day + seq!['T'] + hour;
    let input = stamp + fraction + seq!['Z'];
    let whole = input.drop_last();
    assert(whole == stamp + fraction);
    assert(!stamp.contains('.')) by {
        if stamp.contains('.') {
            let i = choose|i: int| 0 <= i < stamp.len() && stamp[i] == '.';
            if i < day.len() {
                assert(day[i] == '.');
            } else if i > day.len() {
                assert(hour[i - day.len() - 1] == '.');
            }
        }
    }
    position_is_first(whole, '.');
    if fraction.len() > 0 {
        assert(whole[stamp.len() as int] == '.');
        assert(whole.contains('.'));
        let p = position(whole, '.');
        if p < stamp.len() {
            assert(stamp[p] == '.');
        }
        assert(whole.take(p) == stamp);
    } else {
        assert(whole == stamp);
    }
    position_is_first(stamp, 'T');
    assert(stamp[day.len() as int] == 'T');
    assert(stamp.contains('T'));
    let m = position(stamp, 'T');
    if m < day.len() {
        assert(day[m] == 'T');
    }
    assert(stamp.take(m) == day);
    assert(stamp.skip(m + 1) == hour);
}

proof fn bare_of(a: Seq<char>, b: Seq<char>, d: Seq<char>, c: char, other: char)
    requires
        is_number(a) && is_number(b) && is_number(d),
        number_value(a) <= i64::MAX && number_value(b) <= i64::MAX && number_value(d) <= i64::MAX,
        !is_digit(other),
        other != c,
    ensures
        !(a + seq![c] + b + seq![c] + d).contains(other),
{
    digits_are_bare(a, other);
    digits_are_bare(b, other);
    digits_are_bare(d, other);
    let all = a + seq![c] + b + seq![c] + d;
    if all.contains(other) {
        let i = choose|i: int| 0 <= i < all.len() && all[i] == other;
        let n = a.len() as int;
        let m = n + 1 + b.len();
        if i < n {
            assert(a[i] == other);
        } else if n < i < m {
            assert(b[i - n - 1] == other);
        } else if m < i {
            assert(d[i - m - 1] == other);
        }
    }
}

} // verus!
