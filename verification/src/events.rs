//! What a session is doing, by the record of what happened in it.
use crate::foreign::json_of_text;
use crate::json::{opt_json, parse_json, Json, JsonView};
use crate::session::SessionStatus;
use crate::tables::TextSet;
use crate::text::{
    chars_of, ends, ends_with, lines, lines_of, opt_str, opt_view, same_text, string_of, views,
};
use vstd::prelude::*;

verus! {

/// What is known of a session from the events so far.
pub struct Progress<T, S> {
    /// There was an event.
    pub saw_event: bool,
    /// The exchange that is under way.
    pub active_turn: Option<T>,
    /// The permissions that were asked for and not answered yet.
    pub pending: S,
    /// Something failed in this exchange.
    pub saw_error: bool,
}

/// What is known of a session, as contracts speak of it.
pub type ProgressView = Progress<Seq<char>, Set<Seq<char>>>;

/// The record of a session, event by event.
pub type EventLog = Progress<String, TextSet>;

impl View for Progress<String, TextSet> {
    type V = ProgressView;

    open spec fn view(&self) -> ProgressView {
        Progress {
            saw_event: self.saw_event,
            active_turn: opt_view(self.active_turn),
            pending: self.pending@,
            saw_error: self.saw_error,
        }
    }
}

/// Nothing is known before the first event.
pub open spec fn no_events() -> ProgressView {
    Progress { saw_event: false, active_turn: None, pending: Set::empty(), saw_error: false }
}

/// The text under a key in the data of an event.
pub open spec fn data_text(event: JsonView, key: Seq<char>) -> Option<Seq<char>> {
    match event.get("data"@) {
        Some(data) => data.text_at(key),
        None => None,
    }
}

/// The event says that something did not succeed.
pub open spec fn says_failure(event: JsonView) -> bool {
    match event.get("data"@) {
        Some(data) => match data.get("success"@) {
            Some(value) => value.as_bool() == Some(false),
            None => false,
        },
        None => false,
    }
}

/// What is known after an event. An event without a type says nothing.
pub open spec fn after_event(known: ProgressView, event: JsonView) -> ProgressView {
    match event.text_at("type"@) {
        None => known,
        Some(kind) => {
            let known = Progress { saw_event: true, ..known };
            if kind == "assistant.turn_start"@ {
                Progress {
                    active_turn: data_text(event, "turnId"@),
                    pending: Set::empty(),
                    saw_error: false,
                    ..known
                }
            } else if kind == "assistant.turn_end"@ {
                if known.active_turn == data_text(event, "turnId"@) {
                    Progress { active_turn: None, pending: Set::empty(), ..known }
                } else {
                    known
                }
            } else if kind == "permission.requested"@ {
                match data_text(event, "requestId"@) {
                    Some(id) => Progress { pending: known.pending.insert(id), ..known },
                    None => known,
                }
            } else if kind == "permission.completed"@ {
                match data_text(event, "requestId"@) {
                    Some(id) => Progress { pending: known.pending.remove(id), ..known },
                    None => known,
                }
            } else if kind == "tool.execution_complete"@ {
                Progress { saw_error: known.saw_error || says_failure(event), ..known }
            } else {
                Progress { saw_error: known.saw_error || ends(kind, ".error"@), ..known }
            }
        },
    }
}

/// What is known after the lines of a record; a line that is no event says nothing.
pub open spec fn after_lines(all: Seq<Seq<char>>) -> ProgressView
    decreases all.len(),
{
    if all.len() == 0 {
        no_events()
    } else {
        let known = after_lines(all.drop_last());
        match json_of_text(all.last()) {
            Some(event) => after_event(known, event),
            None => known,
        }
    }
}

impl Progress<Seq<char>, Set<Seq<char>>> {
    /// What the session is doing, by what is known: an error outweighs a question, and a question
    /// the exchange that waits for it.
    pub open spec fn status(self) -> Option<SessionStatus> {
        if !self.saw_event {
            None
        } else if self.saw_error {
            Some(SessionStatus::Error)
        } else if self.pending != Set::<Seq<char>>::empty() {
            Some(SessionStatus::Waiting)
        } else if self.active_turn is Some {
            Some(SessionStatus::Running)
        } else {
            Some(SessionStatus::Waiting)
        }
    }
}

fn text_in_data<'a>(data: Option<&'a Json>, key: &str) -> (out: Option<&'a str>)
    ensures
        opt_str(out) == (match opt_json(data) {
            Some(data) => data.text_at(key@),
            None => None,
        }),
{
    match data {
        Some(data) => data.str_at(key),
        None => None,
    }
}

fn same_opt(a: &Option<String>, b: Option<&str>) -> (yes: bool)
    ensures
        yes == (opt_view(*a) == opt_str(b)),
{
    match (a, b) {
        (Some(a), Some(b)) => same_text(a, b),
        (None, None) => true,
        _ => false,
    }
}

impl Progress<String, TextSet> {
    /// Nothing is known yet.
    pub fn new() -> (out: EventLog)
        ensures
            out@ == no_events(),
    {
        Progress { saw_event: false, active_turn: None, pending: TextSet::new(), saw_error: false }
    }

    /// Takes in an event.
    pub fn record(&mut self, event: &Json)
        ensures
            final(self)@ == after_event(old(self)@, event@),
    {
        let kind = match event.str_at("type") {
            Some(kind) => kind,
            None => {
                return;
            },
        };
        self.saw_event = true;
        let data = event.get("data");
        if same_text(kind, "assistant.turn_start") {
            self.active_turn = match text_in_data(data, "turnId") {
                Some(id) => Some(id.to_owned()),
                None => None,
            };
            self.pending.clear();
            self.saw_error = false;
        } else if same_text(kind, "assistant.turn_end") {
            if same_opt(&self.active_turn, text_in_data(data, "turnId")) {
                self.active_turn = None;
                self.pending.clear();
            }
        } else if same_text(kind, "permission.requested") {
            match text_in_data(data, "requestId") {
                Some(id) => {
                    let _ = self.pending.insert(id);
                },
                None => {},
            }
        } else if same_text(kind, "permission.completed") {
            match text_in_data(data, "requestId") {
                Some(id) => {
                    let _ = self.pending.remove(id);
                },
                None => {},
            }
        } else if same_text(kind, "tool.execution_complete") {
            let success = match data {
                Some(data) => match data.get("success") {
                    Some(value) => value.as_bool(),
                    None => None,
                },
                None => None,
            };
            match success {
                Some(success) => {
                    if !success {
                        self.saw_error = true;
                    }
                },
                None => {},
            }
        } else if ends_with(&chars_of(kind), ".error") {
            self.saw_error = true;
        }
    }

    /// What the session is doing, by what is known; nothing where there was no event.
    pub fn status(&self) -> (out: Option<SessionStatus>)
        ensures
            out == self@.status(),
    {
        if !self.saw_event {
            None
        } else if self.saw_error {
            Some(SessionStatus::Error)
        } else if !self.pending.is_empty() {
            Some(SessionStatus::Waiting)
        } else if self.active_turn.is_some() {
            Some(SessionStatus::Running)
        } else {
            Some(SessionStatus::Waiting)
        }
    }
}

/// What a session is doing, by the lines of its record; nothing where none of them is an event.
pub fn detect_session_status_from_event_content(content: &str) -> (out: Option<SessionStatus>)
    ensures
        out == after_lines(lines(content@)).status(),
{
    let all = lines_of(&chars_of(content));
    let ghost text = lines(content@);
    let mut known = EventLog::new();
    let mut i: usize = 0;
    assert(after_lines(text.take(0)) == no_events());
    while i < all.len()
        invariant
            i <= all.len(),
            text == lines(content@),
            views(all@) == text,
            known@ == after_lines(text.take(i as int)),
        decreases all.len() - i,
    {
        assert(text.take(i + 1).drop_last() == text.take(i as int));
        assert(text.take(i + 1).last() == all@[i as int]@);
        match parse_json(&string_of(&all[i])) {
            Some(event) => {
                known.record(&event);
            },
            None => {},
        }
        i += 1;
    }
    assert(text.take(all@.len() as int) == text);
    known.status()
}

/// A session in which an exchange has just started is running.
pub proof fn started_turn_runs(known: ProgressView, event: JsonView)
    requires
        event.text_at("type"@) == Some("assistant.turn_start"@),
        data_text(event, "turnId"@) is Some,
    ensures
        after_event(known, event).status() == Some(SessionStatus::Running),
{
    assert(after_event(known, event).pending == Set::<Seq<char>>::empty());
}

/// An exchange that has started and ended leaves the session waiting.
pub proof fn ended_turn_waits(known: ProgressView, start: JsonView, end: JsonView)
    requires
        start.text_at("type"@) == Some("assistant.turn_start"@),
        end.text_at("type"@) == Some("assistant.turn_end"@),
        data_text(end, "turnId"@) == data_text(start, "turnId"@),
    ensures
        after_event(after_event(known, start), end).status() == Some(SessionStatus::Waiting),
{
    kinds_differ();
}

/// A permission that was asked for keeps the session waiting, unless something failed.
pub proof fn asked_permission_waits(known: ProgressView, event: JsonView)
    requires
        event.text_at("type"@) == Some("permission.requested"@),
        data_text(event, "requestId"@) is Some,
        !known.saw_error,
    ensures
        after_event(known, event).status() == Some(SessionStatus::Waiting),
{
    kinds_differ();
    let id = data_text(event, "requestId"@)->0;
    assert(after_event(known, event).pending.contains(id));
}

/// A permission that is given undoes that it was asked for.
pub proof fn given_permission_undoes_the_question(
    known: ProgressView,
    asked: JsonView,
    given: JsonView,
)
    requires
        known.saw_event,
        asked.text_at("type"@) == Some("permission.requested"@),
        given.text_at("type"@) == Some("permission.completed"@),
        data_text(asked, "requestId"@) == data_text(given, "requestId"@),
        match data_text(asked, "requestId"@) {
            Some(id) => !known.pending.contains(id),
            None => true,
        },
    ensures
        after_event(after_event(known, asked), given) == known,
{
    kinds_differ();
    match data_text(asked, "requestId"@) {
        Some(id) => {
            assert(known.pending.insert(id).remove(id) == known.pending);
        },
        None => {},
    }
}

/// An error stays until the next exchange starts.
pub proof fn error_stays(known: ProgressView, event: JsonView)
    requires
        known.saw_error,
        event.text_at("type"@) != Some("assistant.turn_start"@),
    ensures
        after_event(known, event).saw_error,
{
}

proof fn kinds_differ()
    ensures
        "assistant.turn_start"@ != "assistant.turn_end"@,
        "assistant.turn_start"@ != "permission.requested"@,
        "assistant.turn_start"@ != "permission.completed"@,
        "assistant.turn_end"@ != "permission.requested"@,
        "assistant.turn_end"@ != "permission.completed"@,
        "permission.requested"@ != "permission.completed"@,
{
    reveal_strlit("assistant.turn_start");
    reveal_strlit("assistant.turn_end");
    reveal_strlit("permission.requested");
    reveal_strlit("permission.completed");
    assert("assistant.turn_start"@[0] == 'a');
    assert("assistant.turn_start"@.len() == 20);
    assert("assistant.turn_end"@[0] == 'a');
    assert("assistant.turn_end"@.len() == 18);
    assert("permission.requested"@[11] == 'r');
    assert("permission.completed"@[11] == 'c');
}

/// The state of a session follows from what is known, an error first, then an open question, then
/// the exchange under way. Where nothing happened nothing is known.
pub proof fn status_tells_what_is_known(known: ProgressView, id: Seq<char>)
    ensures
        known.status() is None <==> !known.saw_event,
        known.saw_event ==> {
            &&& known.status() == Some(SessionStatus::Error) <==> known.saw_error
            &&& !known.saw_error && known.pending.contains(id) ==> known.status() == Some(
                SessionStatus::Waiting,
            )
            &&& known.status() == Some(SessionStatus::Running) <==> !known.saw_error
                && known.active_turn is Some && forall|other: Seq<char>|
                !known.pending.contains(other)
            &&& known.status() != Some(SessionStatus::Idle)
        },
{
    if forall|other: Seq<char>| !known.pending.contains(other) {
        assert(known.pending =~= Set::<Seq<char>>::empty());
    }
}

/// An event without a type changes nothing, and one with a type is an event.
pub proof fn typed_events_count(known: ProgressView, event: JsonView)
    ensures
        event.text_at("type"@) is None ==> after_event(known, event) == known,
        event.text_at("type"@) is Some ==> after_event(known, event).saw_event,
{
}

/// An exchange that starts is under way, whatever was before. It ends with the event that names it,
/// and no other event changes which exchange is under way.
pub proof fn exchange_lasts_until_its_end(known: ProgressView, event: JsonView, kind: Seq<char>)
    requires
        event.text_at("type"@) == Some(kind),
    ensures
        ({
            let turn = data_text(event, "turnId"@);
            let after = after_event(known, event).active_turn;
            &&& kind == "assistant.turn_start"@ ==> after == turn
            &&& kind == "assistant.turn_end"@ && known.active_turn == turn ==> after is None
            &&& kind == "assistant.turn_end"@ && known.active_turn != turn ==> after
                == known.active_turn
            &&& kind != "assistant.turn_start"@ && kind != "assistant.turn_end"@ ==> after
                == known.active_turn
        }),
{
    kinds_differ();
}

/// A permission is open once it was asked for, until it is given or its exchange starts anew or
/// ends. No other event opens or closes one.
pub proof fn permission_is_open_until_given(
    known: ProgressView,
    event: JsonView,
    kind: Seq<char>,
    id: Seq<char>,
)
    requires
        event.text_at("type"@) == Some(kind),
    ensures
        ({
            let named = data_text(event, "requestId"@) == Some(id);
            let before = known.pending.contains(id);
            let after = after_event(known, event).pending.contains(id);
            let ended = kind == "assistant.turn_end"@ && known.active_turn == data_text(
                event,
                "turnId"@,
            );
            &&& kind == "permission.requested"@ ==> (after <==> before || named)
            &&& kind == "permission.completed"@ ==> (after <==> before && !named)
            &&& kind == "assistant.turn_start"@ || ended ==> !after
            &&& kind != "permission.requested"@ && kind != "permission.completed"@ && kind
                != "assistant.turn_start"@ && !ended ==> (after <==> before)
        }),
{
    kinds_differ();
}

/// Something failed in an exchange once a tool says that it did not succeed, or an event is an
/// error; an exchange that starts has not failed.
pub proof fn failures_are_noted(known: ProgressView, event: JsonView, kind: Seq<char>)
    requires
        event.text_at("type"@) == Some(kind),
    ensures
        ({
            let refused = match event.get("data"@) {
                Some(data) => data.get("success"@) == Some(JsonView::Bool(false)),
                None => false,
            };
            let is_error = kind.len() >= 6 && kind.skip(kind.len() - 6) == ".error"@;
            let after = after_event(known, event).saw_error;
            &&& kind == "assistant.turn_start"@ ==> !after
            &&& kind != "assistant.turn_start"@ ==> (after <==> known.saw_error || is_error || (kind
                == "tool.execution_complete"@ && refused))
        }),
{
    kinds_differ();
    reveal_strlit("assistant.turn_start");
    reveal_strlit("assistant.turn_end");
    reveal_strlit("permission.requested");
    reveal_strlit("permission.completed");
    reveal_strlit("tool.execution_complete");
    reveal_strlit(".error");
    assert("assistant.turn_end"@[17] == 'd');
    assert("permission.requested"@[19] == 'd');
    assert("permission.completed"@[19] == 'd');
    assert("tool.execution_complete"@[22] == 'e');
    assert(".error"@[5] == 'r');
    if kind.len() >= 6 {
        let tail = kind.skip(kind.len() - 6);
        assert(tail[5] == kind[kind.len() - 1]);
        assert(kind.subrange(kind.len() - 6, kind.len() as int) == tail);
    }
    match event.get("data"@) {
        Some(data) => match data.get("success"@) {
            Some(value) => {
                assert(value.as_bool() == Some(false) <==> value == JsonView::Bool(false));
            },
            None => {},
        },
        None => {},
    }
}

/// A record is read line by line; a line that is no event is passed over.
pub proof fn record_is_read_line_by_line(all: Seq<Seq<char>>, line: Seq<char>)
    ensures
        json_of_text(line) is None ==> after_lines(all.push(line)) == after_lines(all),
        json_of_text(line) is Some ==> after_lines(all.push(line)) == after_event(
            after_lines(all),
            json_of_text(line)->0,
        ),
        after_lines(Seq::empty()).status() is None,
{
    assert(all.push(line).drop_last() == all);
}

} // verus!
