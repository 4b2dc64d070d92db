//! One query: sent over one upstream, and raced over all of them.
use vstd::prelude::*;

use crate::message::{Message, MessageV};
use crate::shadow::code_text;
use crate::text::texts;
use crate::upstream::{acquire_error, acquire_words, after_first_send, after_second_send};
use crate::upstream::{code_words, first_step, second_step, stamp_id, stamped};
use crate::upstream::{Connection, Error, PoolCounters, SendOutcome, SendStep};

verus! {

/// A query on its way over one upstream: to be sent once, and once more where
/// the connection turns out to be dead.
pub struct Sending {
    /// The upstream's URL.
    pub label: String,
    /// What the first send failed with, once there was one.
    pub first_err: Option<String>,
}

/// What a send of the query came to.
#[derive(Debug)]
pub enum Sent {
    /// The response is the upstream's answer.
    Answered,
    /// The upstream failed.
    Failed(String),
    /// The connection is gone; send once more over another.
    Again,
}

/// The response code of a send in words, where a response came.
pub open spec fn outcome_words(o: SendOutcome) -> Seq<char> {
    match o {
        SendOutcome::Answered(c) => code_text(c),
        _ => seq![],
    }
}

/// What the caller hears of a step.
pub open spec fn told(s: SendStep, t: Sent) -> bool {
    match s {
        SendStep::Accept => t is Answered,
        SendStep::Fail { err, .. } => t matches Sent::Failed(e) && e@ == err@,
        SendStep::Retry { .. } => t is Again,
    }
}

impl Sending {
    /// What the next send of this query comes to.
    pub open spec fn comes_to(self, o: SendOutcome, s: SendStep) -> bool {
        match self.first_err {
            None => first_step(self.label@, outcome_words(o), o, s),
            Some(e) => second_step(self.label@, outcome_words(o), e@, o, s),
        }
    }

    /// The query after a step: only a retry leaves a mark.
    pub open spec fn continues(self, before: Sending, s: SendStep) -> bool {
        &&& self.label@ == before.label@
        &&& match s {
            SendStep::Retry { first_err } => self.first_err is Some && self.first_err->0@
                == first_err@,
            _ => self.first_err == before.first_err,
        }
    }

    /// Start a query over an upstream; it counts.
    pub fn start(conn: &mut Connection, label: &str) -> (r: Sending)
        ensures
            r.label@ == label@,
            r.first_err is None,
            *final(conn) == (Connection {
                queries: old(conn).queries.wrapping_add(1),
                ..*old(conn)
            }),
    {
        conn.record_query();
        Sending { label: label.to_string(), first_err: None }
    }

    /// No connection could be had: the query failed.
    pub fn unconnected(&self, conn: &mut Connection, timed_out: bool) -> (r: String)
        ensures
            *final(conn) == old(conn).failed(),
            r@ == acquire_words(
                self.label@,
                match self.first_err {
                    Some(e) => Some(e@),
                    None => None,
                },
                timed_out,
            ),
    {
        conn.record_failure();
        match &self.first_err {
            Some(e) => acquire_error(self.label.as_str(), Some(e.as_str()), timed_out),
            None => acquire_error(self.label.as_str(), None, timed_out),
        }
    }

    /// Take in what a send over the transport of a generation came to. The
    /// second part tells whether the caller must run a repair.
    pub fn sent(
        &mut self,
        conn: &mut Connection,
        generation: u64,
        outcome: SendOutcome,
        now_ts: i64,
    ) -> (r: (Sent, bool))
        requires
            old(conn).wf(),
        ensures
            final(conn).wf(),
            exists|s: SendStep| #[trigger]
                old(self).comes_to(outcome, s) && told(s, r.0) && final(self).continues(
                    *old(self),
                    s,
                ) && *final(conn) == old(conn).settled(generation, s, now_ts),
            r.1 == (!old(conn).repairing && final(conn).repairing),
    {
        let words = match &outcome {
            SendOutcome::Answered(c) => code_words(*c),
            _ => String::new(),
        };
        assert(words@ =~= outcome_words(outcome));
        let step = match &self.first_err {
            None => after_first_send(self.label.as_str(), words.as_str(), outcome),
            Some(e) => after_second_send(
                self.label.as_str(),
                words.as_str(),
                e.as_str(),
                outcome,
            ),
        };
        assert(old(self).comes_to(outcome, step));
        let repair = conn.settle(generation, &step, now_ts);
        let told = match &step {
            SendStep::Accept => Sent::Answered,
            SendStep::Fail { err, .. } => Sent::Failed(err.clone()),
            SendStep::Retry { first_err } => {
                self.first_err = Some(first_err.clone());
                Sent::Again
            },
        };
        (told, repair)
    }
}

/// One query raced over all upstreams: the first answer wins.
pub struct Race {
    /// The query's id.
    pub id: u16,
    /// What the upstreams that failed so far said.
    pub errors: Vec<String>,
}

impl Race {
    pub fn start(query: &Message) -> (r: Race)
        ensures
            r.id == query@.metadata.id,
            r.errors@.len() == 0,
    {
        Race { id: query.metadata.id, errors: Vec::new() }
    }

    /// Take in what one upstream came to; the answer, if that is it.
    pub fn take(&mut self, pool: &mut PoolCounters, result: Result<Message, String>) -> (r: Option<
        Message,
    >)
        ensures
            final(self).id == old(self).id,
            match result {
                Ok(m) => {
                    &&& r is Some && r->0@ == stamped(m@, old(self).id)
                    &&& relayed(m@, old(self).id, r->0@)
                    &&& *final(pool) == old(pool).answered()
                    &&& final(self).errors == old(self).errors
                },
                Err(e) => {
                    &&& r is None
                    &&& *final(pool) == *old(pool)
                    &&& texts(final(self).errors@) == texts(old(self).errors@).push(e@)
                },
            },
    {
        match result {
            Ok(m) => {
                pool.record_resolved();
                Some(stamp_id(m, self.id))
            },
            Err(e) => {
                self.errors.push(e);
                assert(texts(self.errors@) =~= texts(old(self).errors@).push(e@));
                None
            },
        }
    }

    /// No upstream answered.
    pub fn lost(self, pool: &mut PoolCounters) -> (r: Error)
        ensures
            r == Error::AllFailed(self.errors),
            *final(pool) == old(pool).unanswered(),
    {
        pool.record_all_failed();
        Error::AllFailed(self.errors)
    }
}

/// How a race ends, given what the upstreams came to in the order of arrival:
/// with an answer, or with what each said.
pub open spec fn raced(
    errors: Seq<Seq<char>>,
    results: Seq<Result<MessageV, Seq<char>>>,
    id: u16,
) -> Result<MessageV, Seq<Seq<char>>>
    decreases results.len(),
{
    if results.len() == 0 {
        Err(errors)
    } else {
        match results[0] {
            Ok(m) => Ok(stamped(m, id)),
            Err(e) => raced(errors.push(e), results.drop_first(), id),
        }
    }
}

/// A response handed on under another id: every section, the OPT record, the
/// signature and the rest of the header are as the upstream sent them.
pub open spec fn relayed(sent: MessageV, id: u16, won: MessageV) -> bool {
    &&& won.metadata.id == id
    &&& won.metadata.message_type == sent.metadata.message_type
    &&& won.metadata.op_code == sent.metadata.op_code
    &&& won.metadata.authoritative == sent.metadata.authoritative
    &&& won.metadata.truncation == sent.metadata.truncation
    &&& won.metadata.recursion_desired == sent.metadata.recursion_desired
    &&& won.metadata.recursion_available == sent.metadata.recursion_available
    &&& won.metadata.authentic_data == sent.metadata.authentic_data
    &&& won.metadata.checking_disabled == sent.metadata.checking_disabled
    &&& won.metadata.response_code == sent.metadata.response_code
    &&& won.queries == sent.queries
    &&& won.answers == sent.answers
    &&& won.authorities == sent.authorities
    &&& won.additionals == sent.additionals
    &&& won.edns == sent.edns
    &&& won.signature == sent.signature
}

/// The first answer wins, whatever failed before it and whatever comes after:
/// what the client gets is what that upstream sent, under the query's id.
pub proof fn law_first_answer_wins(
    errors: Seq<Seq<char>>,
    results: Seq<Result<MessageV, Seq<char>>>,
    id: u16,
    i: int,
)
    requires
        0 <= i < results.len(),
        results[i] is Ok,
        forall|j: int| 0 <= j < i ==> (#[trigger] results[j]) is Err,
    ensures
        raced(errors, results, id) matches Ok(won) && relayed(results[i]->Ok_0, id, won),
        raced(errors, results, id) == Ok::<MessageV, Seq<Seq<char>>>(
            stamped(results[i]->Ok_0, id),
        ),
    decreases i,
{
    if i > 0 {
        let rest = results.drop_first();
        assert(results[0] is Err);
        assert forall|j: int| 0 <= j < i - 1 implies (#[trigger] rest[j]) is Err by {
            assert(rest[j] == results[j + 1]);
        }
        law_first_answer_wins(errors.push(results[0]->Err_0), rest, id, i - 1);
    }
}

/// Only where every upstream failed is there no answer, and then every failure
/// is told.
pub proof fn law_every_failure_told(
    errors: Seq<Seq<char>>,
    results: Seq<Result<MessageV, Seq<char>>>,
    id: u16,
)
    requires
        forall|j: int| 0 <= j < results.len() ==> (#[trigger] results[j]) is Err,
    ensures
        raced(errors, results, id) == Err::<MessageV, Seq<Seq<char>>>(
            errors + results.map_values(|r: Result<MessageV, Seq<char>>| r->Err_0),
        ),
    decreases results.len(),
{
    let told = results.map_values(|r: Result<MessageV, Seq<char>>| r->Err_0);
    if results.len() == 0 {
        assert(errors + told =~= errors);
    } else {
        let rest = results.drop_first();
        assert(results[0] is Err);
        assert forall|j: int| 0 <= j < rest.len() implies (#[trigger] rest[j]) is Err by {
            assert(rest[j] == results[j + 1]);
        }
        law_every_failure_told(errors.push(results[0]->Err_0), rest, id);
        assert(errors.push(results[0]->Err_0) + rest.map_values(
            |r: Result<MessageV, Seq<char>>| r->Err_0,
        ) =~= errors + told);
    }
}

/// What becomes of a query after each send. Any answer but SERVFAIL, NOTIMP and
/// REFUSED is the upstream's answer. A dead connection is tried once more, and
/// what it died of is kept; everything else, and a second death, is the
/// upstream's failure, and both deaths are told.
pub proof fn law_query_sent(
    before: Sending,
    after: Sending,
    o: SendOutcome,
    s: SendStep,
    t: Sent,
)
    requires
        before.comes_to(o, s),
        told(s, t),
        after.continues(before, s),
    ensures
        after.label@ == before.label@,
        match o {
            SendOutcome::Answered(c) => if c == 2 || c == 4 || c == 5 {
                t is Failed
            } else {
                t is Answered
            },
            SendOutcome::Query(e) => t is Failed && (before.first_err is None ==> t->Failed_0@
                == e@),
            SendOutcome::Fatal(e) => if before.first_err is None {
                t is Again && after.first_err is Some && after.first_err->0@ == e@
            } else {
                t is Failed && t->Failed_0@ == before.first_err->0@ + "; after reconnect: "@ + e@
            },
            SendOutcome::TimedOut => t is Failed && (before.first_err is None ==> t->Failed_0@
                == before.label@ + ": timed out"@),
        },
        !(t is Again) ==> after.first_err == before.first_err,
{
}

} // verus!
