//! The registry of managed sessions.
use crate::paths::{join_path, joined_path};
use crate::tables::{place_is_first, place_of};
use crate::text::{
    chars_of, lowered, lowered_of, opt_str, same_chars, same_text, starts, starts_with, views,
};
use vstd::prelude::*;

verus! {

/// What a managed session is doing.
#[derive(Debug, Clone, Copy, PartialEq, Eq, Structural)]
pub enum Status {
    Running,
    Waiting,
    Idle,
    Error,
}

/// A managed session.
#[derive(Debug, PartialEq, Eq)]
pub struct Session<T = String> {
    pub id: T,
    pub title: T,
    pub directory: T,
    pub command: T,
    pub status: Status,
}

impl View for Session<String> {
    type V = Session<Seq<char>>;

    open spec fn view(&self) -> Session<Seq<char>> {
        Session {
            id: self.id@,
            title: self.title@,
            directory: self.directory@,
            command: self.command@,
            status: self.status,
        }
    }
}

impl Session<String> {
    /// A session that has done nothing yet.
    pub fn new(id: String, title: String, directory: String, command: String) -> (out: Session)
        ensures
            out@ == (Session {
                id: id@,
                title: title@,
                directory: directory@,
                command: command@,
                status: Status::Idle,
            }),
    {
        Session { id, title, directory, command, status: Status::Idle }
    }
}

/// The registry of managed sessions, and the file that it is kept in.
#[derive(Debug, PartialEq, Eq)]
pub struct Registry {
    pub path: String,
    pub sessions: Vec<Session>,
}

impl View for Registry {
    type V = Seq<Session<Seq<char>>>;

    open spec fn view(&self) -> Seq<Session<Seq<char>>> {
        views(self.sessions@)
    }
}

/// The ids of sessions.
pub open spec fn ids(sessions: Seq<Session<Seq<char>>>) -> Seq<Seq<char>> {
    sessions.map_values(|session: Session<Seq<char>>| session.id)
}

/// The titles of sessions, in small letters.
pub open spec fn small_titles(sessions: Seq<Session<Seq<char>>>) -> Seq<Seq<char>> {
    sessions.map_values(|session: Session<Seq<char>>| lowered(session.title))
}

/// The place of the first session with the id, or the number of sessions where there is none.
pub open spec fn id_place(sessions: Seq<Session<Seq<char>>>, id: Seq<char>) -> int {
    place_of(ids(sessions), id)
}

/// The session at the place, and no other one, has an id that starts with the query.
pub open spec fn is_only_match(
    sessions: Seq<Session<Seq<char>>>,
    query: Seq<char>,
    place: int,
) -> bool {
    0 <= place < sessions.len() && starts(sessions[place].id, query) && forall|i: int|
        0 <= i < sessions.len() && i != place ==> !starts((#[trigger] sessions[i]).id, query)
}

/// The place of the session that a query means: by its whole id; else, with four characters or
/// more, by the start of its id, where just one session has it; else by its title, in small or
/// capital letters. The number of sessions where it means none.
pub open spec fn query_place(sessions: Seq<Session<Seq<char>>>, query: Seq<char>) -> int {
    if id_place(sessions, query) < sessions.len() {
        id_place(sessions, query)
    } else if query.len() >= 4 && exists|i: int| is_only_match(sessions, query, i) {
        choose|i: int| is_only_match(sessions, query, i)
    } else {
        place_of(small_titles(sessions), lowered(query))
    }
}

/// The place of the session that is changed for a query: that of the first session with the id of
/// the session that the query means.
pub open spec fn meant_place(sessions: Seq<Session<Seq<char>>>, query: Seq<char>) -> int {
    id_place(sessions, sessions[query_place(sessions, query)].id)
}

fn find_id(sessions: &Vec<Session>, id: &str) -> (place: usize)
    ensures
        place == id_place(views(sessions@), id@),
        place <= sessions@.len(),
        place < sessions@.len() ==> sessions@[place as int].id@ == id@,
{
    let ghost all = ids(views(sessions@));
    let mut i: usize = 0;
    assert(all.skip(0) == all);
    while i < sessions.len()
        invariant
            i <= sessions.len(),
            all == ids(views(sessions@)),
            place_of(all, id@) == i + place_of(all.skip(i as int), id@),
        decreases sessions.len() - i,
    {
        assert(all[i as int] == sessions@[i as int].id@);
        assert(all.skip(i as int)[0] == all[i as int]);
        assert(all.skip(i as int).skip(1) == all.skip(i + 1));
        if same_text(&sessions[i].id, id) {
            return i;
        }
        i += 1;
    }
    i
}

fn find_title(sessions: &Vec<Session>, title: &str) -> (place: usize)
    ensures
        place == place_of(small_titles(views(sessions@)), lowered(title@)),
        place <= sessions@.len(),
{
    let ghost all = small_titles(views(sessions@));
    let wanted = lowered_of(&chars_of(title));
    let mut i: usize = 0;
    assert(all.skip(0) == all);
    while i < sessions.len()
        invariant
            i <= sessions.len(),
            wanted@ == lowered(title@),
            all == small_titles(views(sessions@)),
            place_of(all, wanted@) == i + place_of(all.skip(i as int), wanted@),
        decreases sessions.len() - i,
    {
        assert(all[i as int] == lowered(sessions@[i as int].title@));
        assert(all.skip(i as int)[0] == all[i as int]);
        assert(all.skip(i as int).skip(1) == all.skip(i + 1));
        if same_chars(&lowered_of(&chars_of(&sessions[i].title)), &wanted) {
            return i;
        }
        i += 1;
    }
    i
}

fn find_start(sessions: &Vec<Session>, query: &str) -> (place: Option<usize>)
    ensures
        match place {
            Some(i) => is_only_match(views(sessions@), query@, i as int),
            None => forall|i: int| !is_only_match(views(sessions@), query@, i),
        },
{
    let ghost all = views(sessions@);
    let mut found: Option<usize> = None;
    let mut i: usize = 0;
    while i < sessions.len()
        invariant
            i <= sessions.len(),
            all == views(sessions@),
            match found {
                Some(k) => k < i && starts(all[k as int].id, query@) && forall|j: int|
                    0 <= j < i && j != k ==> !starts((#[trigger] all[j]).id, query@),
                None => forall|j: int| 0 <= j < i ==> !starts((#[trigger] all[j]).id, query@),
            },
        decreases sessions.len() - i,
    {
        assert(all[i as int].id == sessions@[i as int].id@);
        if starts_with(&chars_of(&sessions[i].id), query) {
            match found {
                Some(k) => {
                    proof {
                        assert(starts(all[k as int].id, query@));
                        assert(starts(all[i as int].id, query@));
                    }
                    return None;
                },
                None => {
                    found = Some(i);
                },
            }
        }
        i += 1;
    }
    found
}

fn find_query(sessions: &Vec<Session>, query: &str) -> (place: usize)
    ensures
        place == query_place(views(sessions@), query@),
        place <= sessions@.len(),
{
    let exact = find_id(sessions, query);
    if exact < sessions.len() {
        return exact;
    }
    if chars_of(query).len() >= 4 {
        match find_start(sessions, query) {
            Some(place) => {
                proof {
                    only_match_is_one(views(sessions@), query@, place as int);
                }
                return place;
            },
            None => {},
        }
    }
    find_title(sessions, query)
}

proof fn only_match_is_one(sessions: Seq<Session<Seq<char>>>, query: Seq<char>, place: int)
    requires
        is_only_match(sessions, query, place),
    ensures
        place == choose|i: int| is_only_match(sessions, query, i),
{
    let other = choose|i: int| is_only_match(sessions, query, i);
    if other != place {
        assert(!starts(sessions[place].id, query));
    }
}

/// The session at a place, where there is one.
pub open spec fn at(sessions: Seq<Session<Seq<char>>>, place: int) -> Option<Session<Seq<char>>> {
    if 0 <= place < sessions.len() {
        Some(sessions[place])
    } else {
        None
    }
}

/// A session that may not be there, as contracts speak of it.
pub open spec fn opt_session(session: Option<&Session>) -> Option<Session<Seq<char>>> {
    match session {
        Some(session) => Some(session@),
        None => None,
    }
}

impl Registry {
    /// A registry of the sessions, kept in the file.
    pub fn new(path: String, sessions: Vec<Session>) -> (out: Registry)
        ensures
            out.path == path,
            out@ == views(sessions@),
    {
        Registry { path, sessions }
    }

    /// Puts a session behind the others.
    pub fn add(&mut self, session: Session)
        ensures
            final(self)@ == old(self)@.push(session@),
            final(self).path == old(self).path,
    {
        let ghost before = self.sessions@;
        self.sessions.push(session);
        assert(views(self.sessions@) == views(before).push(session@));
    }

    /// Takes out the first session with the id, and returns it.
    pub fn remove(&mut self, id: &str) -> (out: Option<Session>)
        ensures
            match out {
                Some(session) => {
                    let place = id_place(old(self)@, id@);
                    at(old(self)@, place) == Some(session@) && final(self)@ == old(self)@.remove(
                        place,
                    )
                },
                None => at(old(self)@, id_place(old(self)@, id@)) is None && final(self)@ == old(
                    self,
                )@,
            },
            final(self).path == old(self).path,
    {
        let place = find_id(&self.sessions, id);
        if place < self.sessions.len() {
            let ghost before = self.sessions@;
            let session = self.sessions.remove(place);
            assert(views(self.sessions@) == views(before).remove(place as int));
            Some(session)
        } else {
            None
        }
    }

    /// The first session with the id.
    pub fn get(&self, id: &str) -> (out: Option<&Session>)
        ensures
            opt_session(out) == at(self@, id_place(self@, id@)),
    {
        let place = find_id(&self.sessions, id);
        if place < self.sessions.len() {
            Some(&self.sessions[place])
        } else {
            None
        }
    }

    /// The first session with the id, to be changed.
    pub fn get_mut(&mut self, id: &str) -> (out: Option<&mut Session>)
        ensures
            match out {
                Some(session) => {
                    let place = id_place(old(self)@, id@);
                    at(old(self)@, place) == Some(session@) && final(self)@ == old(self)@.update(
                        place,
                        final(session)@,
                    )
                },
                None => at(old(self)@, id_place(old(self)@, id@)) is None && final(self)@ == old(
                    self,
                )@,
            },
            final(self).path == old(self).path,
    {
        let place = find_id(&self.sessions, id);
        if place < self.sessions.len() {
            Some(&mut self.sessions[place])
        } else {
            None
        }
    }

    /// The session that a query means: one with that id, the one whose id starts with it, or one
    /// with that title.
    pub fn find(&self, query: &str) -> (out: Option<&Session>)
        ensures
            opt_session(out) == at(self@, query_place(self@, query@)),
    {
        let place = find_query(&self.sessions, query);
        if place < self.sessions.len() {
            Some(&self.sessions[place])
        } else {
            None
        }
    }

    /// The session that a query means, to be changed: the first one with the id of the session that
    /// is found.
    pub fn find_mut(&mut self, query: &str) -> (out: Option<&mut Session>)
        ensures
            match out {
                Some(session) => {
                    let place = meant_place(old(self)@, query@);
                    at(old(self)@, query_place(old(self)@, query@)) is Some && at(
                        old(self)@,
                        place,
                    ) == Some(session@) && final(self)@ == old(self)@.update(
                        place,
                        final(session)@,
                    )
                },
                None => at(old(self)@, query_place(old(self)@, query@)) is None && final(self)@
                    == old(self)@,
            },
            final(self).path == old(self).path,
    {
        let found = find_query(&self.sessions, query);
        if found >= self.sessions.len() {
            return None;
        }
        let id = self.sessions[found].id.clone();
        proof {
            place_is_first(ids(self@), id@);
            assert(ids(self@)[found as int] == id@);
        }
        self.get_mut(&id)
    }

    /// The sessions.
    pub fn sessions(&self) -> (out: &[Session])
        ensures
            views(out@) == self@,
    {
        self.sessions.as_slice()
    }
}

/// The file of the registry, under the home directory.
pub fn registry_path(home: Option<&str>) -> (out: Result<String, String>)
    ensures
        match opt_str(home) {
            Some(home) => out is Ok && out->Ok_0@ == joined_path(
                joined_path(home, ".gh-mission-control"@),
                "sessions.json"@,
            ),
            None => out is Err && out->Err_0@ == "Could not determine home directory"@,
        },
{
    match home {
        Some(home) => Ok(join_path(&join_path(home, ".gh-mission-control"), "sessions.json")),
        None => Err("Could not determine home directory".to_owned()),
    }
}

// ---------------------------------------------------------------------------
// Laws
// ---------------------------------------------------------------------------
/// A session that was added is found by its id, unless one with that id was there before, which is
/// then found.
pub proof fn added_session_is_found(
    sessions: Seq<Session<Seq<char>>>,
    session: Session<Seq<char>>,
)
    ensures
        at(
            sessions.push(session),
            query_place(sessions.push(session), session.id),
        ) == if id_place(sessions, session.id) < sessions.len() {
            at(sessions, id_place(sessions, session.id))
        } else {
            Some(session)
        },
{
    let all = sessions.push(session);
    place_is_first(ids(sessions), session.id);
    place_is_first(ids(all), session.id);
    assert(ids(all)[sessions.len() as int] == session.id);
    assert forall|i: int| 0 <= i < sessions.len() implies ids(all)[i] == ids(sessions)[i] by {}
    let place = id_place(all, session.id);
    if place < sessions.len() {
        assert(ids(sessions)[place] == session.id);
    }
}

/// To take out a session that was just added undoes that it was added, where no session had its id.
pub proof fn removing_undoes_adding(sessions: Seq<Session<Seq<char>>>, session: Session<Seq<char>>)
    requires
        id_place(sessions, session.id) >= sessions.len(),
    ensures
        id_place(sessions.push(session), session.id) == sessions.len(),
        sessions.push(session).remove(sessions.len() as int) == sessions,
{
    let all = sessions.push(session);
    place_is_first(ids(sessions), session.id);
    place_is_first(ids(all), session.id);
    assert(ids(all)[sessions.len() as int] == session.id);
    let place = id_place(all, session.id);
    if place < sessions.len() {
        assert(ids(sessions)[place] == ids(all)[place]);
    }
}

/// Once a session is taken out, its id is gone, where no two sessions have the same id.
pub proof fn removed_session_is_gone(sessions: Seq<Session<Seq<char>>>, id: Seq<char>)
    requires
        forall|i: int, j: int|
            0 <= i < j < sessions.len() ==> (#[trigger] sessions[i]).id != (
            #[trigger] sessions[j]).id,
        id_place(sessions, id) < sessions.len(),
    ensures
        id_place(sessions.remove(id_place(sessions, id)), id) >= sessions.len() - 1,
{
    let place = id_place(sessions, id);
    let rest = sessions.remove(place);
    place_is_first(ids(sessions), id);
    assert(ids(sessions)[place] == sessions[place].id);
    place_is_first(ids(rest), id);
    let found = id_place(rest, id);
    if found < rest.len() {
        assert(ids(rest)[found] == rest[found].id);
        if found < place {
            assert(rest[found] == sessions[found]);
        } else {
            assert(rest[found] == sessions[found + 1]);
        }
    }
}

/// The session that is found for a query is the one that is changed for it, where no two sessions
/// have the same id.
pub proof fn found_session_is_the_changed_one(sessions: Seq<Session<Seq<char>>>, query: Seq<char>)
    requires
        forall|i: int, j: int|
            0 <= i < j < sessions.len() ==> (#[trigger] sessions[i]).id != (
            #[trigger] sessions[j]).id,
        at(sessions, query_place(sessions, query)) is Some,
    ensures
        meant_place(sessions, query) == query_place(sessions, query),
        forall|i: int, session: Session<Seq<char>>|
            0 <= i < sessions.len() && i != query_place(sessions, query)
                ==> #[trigger] sessions.update(meant_place(sessions, query), session)[i]
                == sessions[i],
{
    let found = query_place(sessions, query);
    let id = sessions[found].id;
    let place = id_place(sessions, id);
    place_is_first(ids(sessions), id);
    assert(ids(sessions)[found] == id);
    assert(ids(sessions).contains(id));
    assert(ids(sessions)[place] == sessions[place].id);
    if place < found {
        assert(sessions[place].id != sessions[found].id);
    } else if found < place {
        assert(sessions[found].id != sessions[place].id);
    }
}

/// The start of the ids of two sessions means neither of them by its id.
pub proof fn shared_start_means_none(
    sessions: Seq<Session<Seq<char>>>,
    query: Seq<char>,
    i: int,
    j: int,
)
    requires
        0 <= i < j < sessions.len(),
        starts(sessions[i].id, query),
        starts(sessions[j].id, query),
        id_place(sessions, query) >= sessions.len(),
    ensures
        query_place(sessions, query) == place_of(small_titles(sessions), lowered(query)),
{
    assert forall|k: int| !is_only_match(sessions, query, k) by {
        if is_only_match(sessions, query, k) {
            assert(!starts(sessions[i].id, query) || i == k);
            assert(!starts(sessions[j].id, query) || j == k);
        }
    }
}

/// A query means the first session with that id. Where no session has it, a query of four characters
/// or more means the only session whose id starts with it. Where there is no such session either, it
/// means the first session with that title, in small or capital letters.
pub proof fn query_means_a_session(
    sessions: Seq<Session<Seq<char>>>,
    query: Seq<char>,
    i: int,
)
    requires
        0 <= i < sessions.len(),
    ensures
        ({
            let n = query.len() as int;
            let is_id = sessions[i].id == query && forall|k: int|
                0 <= k < i ==> (#[trigger] sessions[k]).id != query;
            let no_id = forall|k: int| 0 <= k < sessions.len() ==> (#[trigger] sessions[k]).id != query;
            let is_only = n >= 4 && sessions[i].id.len() >= n && sessions[i].id.take(n) == query
                && forall|k: int|
                0 <= k < sessions.len() && k != i ==> (#[trigger] sessions[k]).id.len() < n
                    || sessions[k].id.take(n) != query;
            let none_or_two = n < 4 || (forall|k: int|
                0 <= k < sessions.len() ==> (#[trigger] sessions[k]).id.len() < n
                    || sessions[k].id.take(n) != query) || (exists|k: int, l: int|
                0 <= k < l < sessions.len() && (#[trigger] sessions[k]).id.len() >= n && (
                #[trigger] sessions[l]).id.len() >= n && sessions[k].id.take(n) == query
                    && sessions[l].id.take(n) == query);
            let is_title = lowered(sessions[i].title) == lowered(query) && forall|k: int|
                0 <= k < i ==> lowered((#[trigger] sessions[k]).title) != lowered(query);
            &&& is_id ==> query_place(sessions, query) == i
            &&& no_id && is_only ==> query_place(sessions, query) == i
            &&& no_id && none_or_two && is_title ==> query_place(sessions, query) == i
            &&& query_place(sessions, query) == i ==> is_id || is_only || is_title
        }),
{
    let n = query.len() as int;
    let names = ids(sessions);
    let titles = small_titles(sessions);
    place_is_first(names, query);
    place_is_first(titles, lowered(query));
    assert forall|k: int| 0 <= k < sessions.len() implies #[trigger] starts(sessions[k].id, query)
        == (sessions[k].id.len() >= n && sessions[k].id.take(n) == query) by {
        if sessions[k].id.len() >= n {
            assert(sessions[k].id.subrange(0, n) == sessions[k].id.take(n));
        }
    }
    assert forall|k: int| 0 <= k < sessions.len() implies names[k] == (#[trigger] sessions[k]).id
        && titles[k] == lowered(sessions[k].title) by {}
    let p = id_place(sessions, query);
    if p < sessions.len() {
        assert(names[p] == sessions[p].id);
        if p < i {
            assert(sessions[p].id == query);
        } else if i < p {
            assert(names[i] == sessions[i].id);
        }
        if p == i {
            assert forall|k: int| 0 <= k < i implies (#[trigger] sessions[k]).id != query by {
                assert(names[k] != query);
            }
        }
    } else {
        assert(!names.contains(query));
        assert(names[i] != query);
        let q = place_of(titles, lowered(query));
        if n >= 4 && exists|k: int| is_only_match(sessions, query, k) {
            let k = choose|k: int| is_only_match(sessions, query, k);
            assert(starts(sessions[k].id, query));
            if k != i {
                assert(!starts(sessions[i].id, query));
            }
            if exists|a: int, b: int|
                0 <= a < b < sessions.len() && (#[trigger] sessions[a]).id.len() >= n && (
                #[trigger] sessions[b]).id.len() >= n && sessions[a].id.take(n) == query
                    && sessions[b].id.take(n) == query {
                let (a, b) = choose|a: int, b: int|
                    0 <= a < b < sessions.len() && (#[trigger] sessions[a]).id.len() >= n && (
                    #[trigger] sessions[b]).id.len() >= n && sessions[a].id.take(n) == query
                        && sessions[b].id.take(n) == query;
                assert(starts(sessions[a].id, query));
                assert(starts(sessions[b].id, query));
                assert(false);
            }
            if k == i {
                assert forall|l: int| 0 <= l < sessions.len() && l != i implies (
                #[trigger] sessions[l]).id.len() < n || sessions[l].id.take(n) != query by {
                    assert(!starts(sessions[l].id, query));
                }
            }
        } else {
            if n >= 4 && starts(sessions[i].id, query) && forall|k: int|
                0 <= k < sessions.len() && k != i ==> (#[trigger] sessions[k]).id.len() < n
                    || sessions[k].id.take(n) != query {
                assert(is_only_match(sessions, query, i));
            }
            if q < sessions.len() {
                assert(titles[q] == lowered(sessions[q].title));
            }
            assert(titles[i] == lowered(sessions[i].title));
            if q == i {
                assert forall|k: int| 0 <= k < i implies lowered((#[trigger] sessions[k]).title)
                    != lowered(query) by {
                    assert(titles[k] != lowered(query));
                }
            }
        }
    }
}

} // verus!
