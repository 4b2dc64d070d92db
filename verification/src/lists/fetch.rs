//! One fetch of a list, step by step: what was done last comes in, what to do
//! next comes out.
use vstd::prelude::*;

use crate::filter::parse::list_result;
use crate::lists::{after_store, judge_body, judge_status, judge_stored, refusal, EtagStep};
use crate::lists::StatusStep;
use crate::text::opt_text;

verus! {

/// How far a fetch got.
#[derive(Debug, PartialEq, Eq)]
pub enum FetchState {
    /// The request was sent.
    Asked,
    /// The stored copy is current.
    Current,
    /// A body is on its way, with this `ETag`.
    Fetching { etag: Option<String> },
    /// The body is being stored.
    Storing { body: String, etag: Option<String> },
    /// The `ETag` is being seen to.
    Tagging { body: String },
    /// The fetch is over.
    Over,
}

/// What came of the last action.
#[derive(Debug, PartialEq, Eq)]
pub enum FetchEvent {
    /// The request, or reading the body, failed.
    Failed(String),
    /// The server replied; `words` is the status as the client writes it.
    Replied { status: u16, words: String, etag: Option<String> },
    /// The stored copy was read, or could not be.
    Stored(Result<String, String>),
    /// The body was read.
    Body(String),
    /// The body was stored, or could not be.
    Written(bool),
    /// The `ETag` file was seen to.
    Tagged,
}

/// What to do next.
#[derive(Debug, PartialEq, Eq)]
pub enum FetchAction {
    /// Read the stored copy.
    ReadStored,
    /// Read the body.
    ReadBody,
    /// Store this body in place of the stored copy.
    Store(String),
    /// Store this `ETag`.
    WriteEtag(String),
    /// Remove the stored `ETag`.
    RemoveEtag,
    /// The list's text, or why there is none.
    Finish(Result<String, String>),
}

/// The fetch ends with this text.
pub open spec fn ends_with_text(t: FetchState, a: FetchAction, text: Seq<char>) -> bool {
    &&& t is Over
    &&& a matches FetchAction::Finish(Ok(x))
    &&& x@ == text
}

/// The fetch ends for this reason.
pub open spec fn ends_failing(t: FetchState, a: FetchAction, why: Seq<char>) -> bool {
    &&& t is Over
    &&& a matches FetchAction::Finish(Err(x))
    &&& x@ == why
}

/// What an event makes of a fetch: the next state and the next action.
pub open spec fn stepped(s: FetchState, e: FetchEvent, t: FetchState, a: FetchAction) -> bool {
    match (s, e) {
        (FetchState::Asked, FetchEvent::Failed(why)) => ends_failing(t, a, why@),
        (FetchState::Asked, FetchEvent::Replied { status, words, etag }) => {
            if status == 304 {
                t is Current && a is ReadStored
            } else if 200 <= status < 300 {
                t matches FetchState::Fetching { etag: x } && opt_text(x) == opt_text(etag)
                    && a is ReadBody
            } else {
                ends_failing(t, a, "HTTP "@ + words@)
            }
        },
        (FetchState::Current, FetchEvent::Stored(Ok(text))) => ends_with_text(t, a, text@),
        (FetchState::Current, FetchEvent::Stored(Err(why))) => ends_failing(
            t,
            a,
            "304 but stored copy unreadable: "@ + why@,
        ),
        (FetchState::Fetching { .. }, FetchEvent::Failed(why)) => ends_failing(t, a, why@),
        (FetchState::Fetching { etag }, FetchEvent::Body(body)) => {
            if list_result(body@).rules.len() > 0 {
                &&& t matches FetchState::Storing { body: b, etag: x }
                &&& b@ == body@
                &&& opt_text(x) == opt_text(etag)
                &&& a matches FetchAction::Store(c)
                &&& c@ == body@
            } else {
                ends_failing(t, a, refusal(body@))
            }
        },
        (FetchState::Storing { body, etag }, FetchEvent::Written(stored)) => {
            match (stored, etag) {
                (false, _) => {
                    &&& t matches FetchState::Tagging { body: b }
                    &&& b@ == body@
                    &&& a is RemoveEtag
                },
                (true, Some(x)) => {
                    &&& t matches FetchState::Tagging { body: b }
                    &&& b@ == body@
                    &&& a matches FetchAction::WriteEtag(y)
                    &&& y@ == x@
                },
                (true, None) => ends_with_text(t, a, body@),
            }
        },
        (FetchState::Tagging { body }, FetchEvent::Tagged) => ends_with_text(t, a, body@),
        _ => ends_failing(t, a, "out of step"@),
    }
}

fn failing(why: String) -> (r: (FetchState, FetchAction))
    ensures
        ends_failing(r.0, r.1, why@),
{
    (FetchState::Over, FetchAction::Finish(Err(why)))
}

fn ending(text: String) -> (r: (FetchState, FetchAction))
    ensures
        ends_with_text(r.0, r.1, text@),
{
    (FetchState::Over, FetchAction::Finish(Ok(text)))
}

/// Take in what came of the last action. An event that the state does not wait
/// for ends the fetch.
pub fn step(state: FetchState, event: FetchEvent) -> (r: (FetchState, FetchAction))
    ensures
        stepped(state, event, r.0, r.1),
{
    match (state, event) {
        (FetchState::Asked, FetchEvent::Failed(why)) => failing(why),
        (FetchState::Asked, FetchEvent::Replied { status, words, etag }) => {
            match judge_status(status, words.as_str()) {
                StatusStep::UseStored => (FetchState::Current, FetchAction::ReadStored),
                StatusStep::ReadBody => (FetchState::Fetching { etag }, FetchAction::ReadBody),
                StatusStep::Refuse(why) => failing(why),
            }
        },
        (FetchState::Current, FetchEvent::Stored(read)) => {
            match judge_stored(read) {
                Ok(text) => ending(text),
                Err(why) => failing(why),
            }
        },
        (FetchState::Fetching { .. }, FetchEvent::Failed(why)) => failing(why),
        (FetchState::Fetching { etag }, FetchEvent::Body(body)) => {
            match judge_body(body.as_str()) {
                Ok(_) => {
                    let kept = body.clone();
                    (FetchState::Storing { body: kept, etag }, FetchAction::Store(body))
                },
                Err(why) => failing(why),
            }
        },
        (FetchState::Storing { body, etag }, FetchEvent::Written(stored)) => {
            match after_store(stored, etag) {
                EtagStep::Write(etag) => (
                    FetchState::Tagging { body },
                    FetchAction::WriteEtag(etag),
                ),
                EtagStep::Remove => (FetchState::Tagging { body }, FetchAction::RemoveEtag),
                EtagStep::Keep => ending(body),
            }
        },
        (FetchState::Tagging { body }, FetchEvent::Tagged) => ending(body),
        _ => failing("out of step".to_string()),
    }
}

/// A fetch as it went: `events[i]` took it from `states[i]` to `states[i + 1]`,
/// with `actions[i]` to do.
pub open spec fn fetched(
    states: Seq<FetchState>,
    events: Seq<FetchEvent>,
    actions: Seq<FetchAction>,
) -> bool {
    &&& states.len() == events.len() + 1
    &&& actions.len() == events.len()
    &&& states[0] is Asked
    &&& forall|i: int|
        #![trigger events[i]]
        0 <= i < events.len() ==> stepped(states[i], events[i], states[i + 1], actions[i])
}

/// A body in which no rule was found.
pub open spec fn refused(e: FetchEvent) -> bool {
    e matches FetchEvent::Body(body) && list_result(body@).rules.len() == 0
}

/// How far a state is.
spec fn progress(s: FetchState) -> int {
    match s {
        FetchState::Asked => 0,
        FetchState::Current => 1,
        FetchState::Fetching { .. } => 1,
        FetchState::Storing { .. } => 2,
        FetchState::Tagging { .. } => 3,
        FetchState::Over => 4,
    }
}

proof fn lemma_progress(
    states: Seq<FetchState>,
    events: Seq<FetchEvent>,
    actions: Seq<FetchAction>,
    i: int,
    j: int,
)
    requires
        fetched(states, events, actions),
        0 <= i <= j < states.len(),
    ensures
        progress(states[i]) <= progress(states[j]),
    decreases j - i,
{
    if i < j {
        lemma_progress(states, events, actions, i, j - 1);
        let e = events[j - 1];
        assert(stepped(states[j - 1], e, states[j], actions[j - 1]));
    }
}

/// The stored copy is only ever replaced by a body that holds rules, and by
/// the body that was read.
pub proof fn law_only_rules_are_stored(
    s: FetchState,
    e: FetchEvent,
    t: FetchState,
    a: FetchAction,
)
    requires
        stepped(s, e, t, a),
        a is Store,
    ensures
        list_result(a->Store_0@).rules.len() > 0,
        e matches FetchEvent::Body(body) && body@ == a->Store_0@,
{
}

/// A refused body leaves the stored copy and its `ETag` alone: a fetch in which
/// one was read stores nothing, before or after.
pub proof fn law_refused_body_changes_nothing(
    states: Seq<FetchState>,
    events: Seq<FetchEvent>,
    actions: Seq<FetchAction>,
    k: int,
    i: int,
)
    requires
        fetched(states, events, actions),
        0 <= k < events.len(),
        states[k] is Fetching,
        refused(events[k]),
        0 <= i < events.len(),
    ensures
        !(actions[i] is Store),
        !(actions[i] is WriteEtag),
        !(actions[i] is RemoveEtag),
        actions[k] is Finish && actions[k]->Finish_0 is Err,
{
    let (x, y) = (events[i], events[k]);
    assert(stepped(states[i], x, states[i + 1], actions[i]));
    assert(stepped(states[k], y, states[k + 1], actions[k]));
    if i < k {
        lemma_progress(states, events, actions, i + 1, k);
    } else if i > k {
        lemma_progress(states, events, actions, k + 1, i);
    }
}

/// An `ETag` is only stored behind its body.
pub proof fn law_etag_behind_body(s: FetchState, e: FetchEvent, t: FetchState, a: FetchAction)
    requires
        stepped(s, e, t, a),
        a is WriteEtag,
    ensures
        s is Storing && e == FetchEvent::Written(true),
{
}

/// A reply with a new body: the body is read; where it holds rules it is
/// stored and becomes the list's text, whether or not storing worked. Its
/// `ETag` is stored behind it, and removed where the body could not be.
pub proof fn law_new_body(
    s: Seq<FetchState>,
    a: Seq<FetchAction>,
    status: u16,
    words: String,
    etag: Option<String>,
    body: String,
    stored: bool,
)
    requires
        s.len() == 5 && a.len() == 4,
        s[0] is Asked,
        200 <= status < 300,
        list_result(body@).rules.len() > 0,
        stepped(s[0], FetchEvent::Replied { status, words, etag }, s[1], a[0]),
        stepped(s[1], FetchEvent::Body(body), s[2], a[1]),
        stepped(s[2], FetchEvent::Written(stored), s[3], a[2]),
        !(s[3] is Over) ==> stepped(s[3], FetchEvent::Tagged, s[4], a[3]),
    ensures
        a[0] is ReadBody,
        a[1] is Store && a[1]->Store_0@ == body@,
        !stored ==> a[2] is RemoveEtag,
        stored && etag is Some ==> a[2] is WriteEtag && a[2]->WriteEtag_0@ == etag->0@,
        ({
            let last = if stored && etag is None {
                a[2]
            } else {
                a[3]
            };
            last is Finish && last->Finish_0 is Ok && last->Finish_0->Ok_0@ == body@
        }),
{
}

/// A reply that nothing changed: the stored copy is the list's text.
pub proof fn law_not_modified(
    s: Seq<FetchState>,
    a: Seq<FetchAction>,
    words: String,
    etag: Option<String>,
    read: Result<String, String>,
)
    requires
        s.len() == 3 && a.len() == 2,
        s[0] is Asked,
        stepped(s[0], FetchEvent::Replied { status: 304, words, etag }, s[1], a[0]),
        stepped(s[1], FetchEvent::Stored(read), s[2], a[1]),
    ensures
        a[0] is ReadStored,
        a[1] is Finish,
        match read {
            Ok(text) => a[1]->Finish_0 is Ok && a[1]->Finish_0->Ok_0@ == text@,
            Err(why) => a[1]->Finish_0 is Err && a[1]->Finish_0->Err_0@
                == "304 but stored copy unreadable: "@ + why@,
        },
{
}

/// A request that fails, a body that cannot be read and any other status end
/// the fetch, for the reason that was given.
pub proof fn law_fetch_fails(s: FetchState, e: FetchEvent, t: FetchState, a: FetchAction)
    requires
        stepped(s, e, t, a),
        s is Asked || s is Fetching,
    ensures
        e matches FetchEvent::Failed(why) ==> t is Over && a is Finish && a->Finish_0 is Err
            && a->Finish_0->Err_0@ == why@,
        s is Asked && e is Replied && e->status != 304 && !(200 <= e->status < 300) ==> t is Over
            && a is Finish && a->Finish_0 is Err && a->Finish_0->Err_0@ == "HTTP "@ + e->words@,
{
}

} // verus!
