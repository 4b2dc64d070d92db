//! Shadow mode: hold our answers against a reference resolver's.
//!
//! What is compared is verdict and response shape, not bytes: upstream
//! rotation legitimately changes answer records. That we block with NXDOMAIN
//! where the reference answers `0.0.0.0` is an expected difference.
use vstd::prelude::*;

use crate::db::{DivergenceRow, LogEvent};
use crate::message::{Message, MessageV, RecordV, NO_ERROR, NX_DOMAIN, TYPE_A, TYPE_AAAA};

verus! {

/// Divergence classes.
pub const CLASS_EXPECTED: &'static str = "expected";

pub const CLASS_WE_BLOCK: &'static str = "we-block-they-answer";

pub const CLASS_THEY_BLOCK: &'static str = "they-block-we-answer";

pub const CLASS_RCODE: &'static str = "rcode-mismatch";

/// Comparisons in flight at once; beyond it queries are sampled out.
pub const MAX_INFLIGHT: usize = 64;

/// Whether another comparison may start.
pub fn admits(in_flight: usize) -> (r: bool)
    ensures
        r == (in_flight < MAX_INFLIGHT),
{
    in_flight < MAX_INFLIGHT
}

/// An A or AAAA record with an address in it.
pub open spec fn address_record(r: RecordV) -> bool {
    (r.record_type == TYPE_A && r.data.len() == 4) || (r.record_type == TYPE_AAAA && r.data.len()
        == 16)
}

pub open spec fn all_zero(b: Seq<u8>) -> bool {
    forall|i: int| 0 <= i < b.len() ==> #[trigger] b[i] == 0
}

/// There is an address, and every address is unspecified.
pub open spec fn only_unspecified(s: Seq<RecordV>) -> bool {
    &&& exists|i: int| 0 <= i < s.len() && address_record(#[trigger] s[i])
    &&& forall|i: int| 0 <= i < s.len() && address_record(#[trigger] s[i]) ==> all_zero(s[i].data)
}

/// NXDOMAIN, or NOERROR whose addresses are all unspecified.
pub open spec fn blocky(m: MessageV) -> bool {
    m.metadata.response_code == NX_DOMAIN || (m.metadata.response_code == NO_ERROR
        && only_unspecified(m.answers))
}

fn zeros(b: &Vec<u8>) -> (r: bool)
    ensures
        r == all_zero(b@),
{
    let n: usize = b.len();
    for i in 0..n
        invariant
            n == b@.len(),
            forall|j: int| 0 <= j < i ==> #[trigger] b@[j] == 0,
    {
        if b[i] != 0 {
            return false;
        }
    }
    true
}

/// Does this response look like a block?
#[must_use]
pub fn looks_blocked(resp: &Message) -> (r: bool)
    ensures
        r == blocky(resp@),
{
    let code: u16 = resp.metadata.response_code;
    if code == NX_DOMAIN {
        return true;
    }
    if code != NO_ERROR {
        return false;
    }
    let mut saw_addr = false;
    let n: usize = resp.answers.len();
    let ghost s = resp@.answers;
    for i in 0..n
        invariant
            n == resp.answers@.len(),
            s == resp@.answers,
            code == resp.metadata.response_code,
            code == NO_ERROR,
            saw_addr == exists|j: int| 0 <= j < i && address_record(#[trigger] s[j]),
            forall|j: int| 0 <= j < i && address_record(#[trigger] s[j]) ==> all_zero(s[j].data),
    {
        let r = &resp.answers[i];
        assert(s[i as int] == r@);
        let len: usize = r.data.len();
        if (r.record_type == TYPE_A && len == 4) || (r.record_type == TYPE_AAAA && len == 16) {
            assert(address_record(s[i as int]));
            saw_addr = true;
            if !zeros(&r.data) {
                return false;
            }
        }
    }
    saw_addr
}

/// How the outcomes diverge; `None` where they agree. `ours_blocked` is the
/// filter's verdict.
pub open spec fn divergence(ours: MessageV, ours_blocked: bool, theirs: MessageV) -> Option<
    Seq<char>,
> {
    let same = ours.metadata.response_code == theirs.metadata.response_code;
    if ours_blocked {
        if blocky(theirs) {
            if same {
                None
            } else {
                Some(CLASS_EXPECTED@)
            }
        } else if theirs.metadata.response_code == NO_ERROR && theirs.answers.len() == 0 {
            Some(CLASS_EXPECTED@)
        } else {
            Some(CLASS_WE_BLOCK@)
        }
    } else if blocky(theirs) {
        if blocky(ours) {
            None
        } else {
            Some(CLASS_THEY_BLOCK@)
        }
    } else if same {
        None
    } else {
        Some(CLASS_RCODE@)
    }
}

/// The class of a divergence.
pub fn divergence_class(ours: &Message, ours_blocked: bool, theirs: &Message) -> (r: Option<
    &'static str,
>)
    ensures
        match r {
            Some(c) => divergence(ours@, ours_blocked, theirs@) == Some(c@),
            None => divergence(ours@, ours_blocked, theirs@) is None,
        },
{
    let same = ours.metadata.response_code == theirs.metadata.response_code;
    let theirs_blocked = looks_blocked(theirs);
    match (ours_blocked, theirs_blocked) {
        (true, true) => if same {
            None
        } else {
            Some(CLASS_EXPECTED)
        },
        (true, false) => if theirs.metadata.response_code == NO_ERROR && theirs.answers.len() == 0 {
            Some(CLASS_EXPECTED)
        } else {
            Some(CLASS_WE_BLOCK)
        },
        (false, true) => if looks_blocked(ours) {
            None
        } else {
            Some(CLASS_THEY_BLOCK)
        },
        (false, false) => if same {
            None
        } else {
            Some(CLASS_RCODE)
        },
    }
}

/// A response code in words, as hickory displays it.
pub uninterp spec fn code_text(code: u16) -> Seq<char>;

/// `Display` of hickory's `ResponseCode` with this number. The result is a
/// function of the number.
#[verifier::external_body]
pub(crate) fn text_of_code(code: u16) -> (r: String)
    ensures
        r@ == code_text(code),
{
    let known: hickory_proto::op::ResponseCode = code.into();
    known.to_string()
}

/// A response in words: how it blocks, and its response code.
pub open spec fn described(m: MessageV, blocked_verdict: bool, code: Seq<char>) -> Seq<char> {
    (if blocked_verdict {
        "blocked/"@
    } else if blocky(m) {
        "blocky/"@
    } else {
        ""@
    }) + code
}

/// Describe a response whose code in words is given.
pub fn describe(resp: &Message, blocked_verdict: bool, code: &str) -> (r: String)
    ensures
        r@ == described(resp@, blocked_verdict, code@),
{
    let mut out = if blocked_verdict {
        "blocked/".to_string()
    } else if looks_blocked(resp) {
        "blocky/".to_string()
    } else {
        "".to_string()
    };
    out.push_str(code);
    out
}

/// Compare our answer against the reference's. `ours_blocked` is the filter
/// verdict (we know why we answered NXDOMAIN; we infer why they did). Gives
/// our answer and theirs in words, and the class, when the outcomes diverge.
#[must_use]
pub fn classify(ours: &Message, ours_blocked: bool, theirs: &Message) -> (r: Option<
    (String, String, String),
>)
    ensures
        match r {
            Some((o, t, class)) => {
                &&& divergence(ours@, ours_blocked, theirs@) == Some(class@)
                &&& o@ == described(
                    ours@,
                    ours_blocked,
                    code_text(ours@.metadata.response_code),
                )
                &&& t@ == described(theirs@, false, code_text(theirs@.metadata.response_code))
            },
            None => divergence(ours@, ours_blocked, theirs@) is None,
        },
{
    match divergence_class(ours, ours_blocked, theirs) {
        Some(class) => {
            let o = text_of_code(ours.metadata.response_code);
            let t = text_of_code(theirs.metadata.response_code);
            Some(
                (
                    describe(ours, ours_blocked, o.as_str()),
                    describe(theirs, false, t.as_str()),
                    class.to_string(),
                ),
            )
        },
        None => None,
    }
}

/// The log event for a compared query; `None` where the outcomes agree.
pub fn compare(
    ours: &Message,
    ours_blocked: bool,
    theirs: &Message,
    ts: i64,
    qname: String,
    qtype: u16,
) -> (r: Option<LogEvent>)
    ensures
        match r {
            Some(LogEvent::Divergence(d)) => {
                &&& divergence(ours@, ours_blocked, theirs@) == Some(d.class@)
                &&& d.ts == ts
                &&& d.qname@ == qname@
                &&& d.qtype == qtype
                &&& d.ours@ == described(
                    ours@,
                    ours_blocked,
                    code_text(ours@.metadata.response_code),
                )
                &&& d.theirs@ == described(
                    theirs@,
                    false,
                    code_text(theirs@.metadata.response_code),
                )
            },
            Some(LogEvent::Query(_)) => false,
            None => divergence(ours@, ours_blocked, theirs@) is None,
        },
{
    match classify(ours, ours_blocked, theirs) {
        Some((ours, theirs, class)) => Some(
            LogEvent::Divergence(DivergenceRow { ts, qname, qtype, ours, theirs, class }),
        ),
        None => None,
    }
}

/// Identical answers never diverge, unless the filter blocked a query and the
/// answer does not look like a block.
pub proof fn law_same_answer_agrees(m: MessageV, blocked: bool)
    requires
        blocked ==> blocky(m),
    ensures
        divergence(m, blocked, m) is None,
{
}

/// Whatever the reference says, a block of ours that it shares in its own
/// style is no surprise: blocking with unspecified addresses or with an empty
/// answer is expected at most.
pub proof fn law_block_styles_expected(ours: MessageV, theirs: MessageV)
    requires
        blocky(theirs) || (theirs.metadata.response_code == NO_ERROR && theirs.answers.len() == 0),
    ensures
        divergence(ours, true, theirs) is None || divergence(ours, true, theirs) == Some(
            CLASS_EXPECTED@,
        ),
{
}

/// A response that blocks: the name does not exist, or all its addresses, at
/// least one, are made of zeros.
pub open spec fn denies(m: MessageV) -> bool {
    let addressed = |r: RecordV|
        r.record_type == 1 && r.data.len() == 4 || r.record_type == 28 && r.data.len() == 16;
    ||| m.metadata.response_code == 3
    ||| {
        &&& m.metadata.response_code == 0
        &&& exists|i: int| 0 <= i < m.answers.len() && addressed(#[trigger] m.answers[i])
        &&& forall|i: int, k: int|
            0 <= i < m.answers.len() && addressed(m.answers[i]) && 0 <= k
                < m.answers[i].data.len() ==> #[trigger] m.answers[i].data[k] == 0
    }
}

/// A response looks blocked where it denies the name.
pub proof fn law_looks_blocked(m: MessageV)
    ensures
        blocky(m) == denies(m),
{
    let addressed = |r: RecordV|
        r.record_type == 1 && r.data.len() == 4 || r.record_type == 28 && r.data.len() == 16;
    assert(forall|r: RecordV| #[trigger] addressed(r) == address_record(r));
    if blocky(m) && m.metadata.response_code != 3 {
        let i = choose|i: int|
            0 <= i < m.answers.len() && address_record(#[trigger] m.answers[i]);
        assert(addressed(m.answers[i]));
        assert forall|i: int, k: int|
            0 <= i < m.answers.len() && addressed(m.answers[i]) && 0 <= k
                < m.answers[i].data.len() implies #[trigger] m.answers[i].data[k] == 0 by {
            assert(address_record(m.answers[i]));
            assert(all_zero(m.answers[i].data));
        }
    }
    if denies(m) && m.metadata.response_code != 3 {
        let i = choose|i: int| 0 <= i < m.answers.len() && addressed(#[trigger] m.answers[i]);
        assert(address_record(m.answers[i]));
        assert forall|i: int| 0 <= i < m.answers.len() && address_record(
            #[trigger] m.answers[i],
        ) implies all_zero(m.answers[i].data) by {
            assert(addressed(m.answers[i]));
            assert forall|k: int| 0 <= k < m.answers[i].data.len() implies #[trigger] m.answers[i].data[k]
                == 0 by {}
        }
    }
}

/// How two outcomes diverge. Where both block, only another response code
/// tells them apart, and that is expected; so is an empty answer where we
/// block. Any other answer where we block is a divergence, and so is a block
/// where we answer, unless our answer denies the name too. Where both answer,
/// the response codes must agree.
pub proof fn law_divergence(ours: MessageV, blocked: bool, theirs: MessageV)
    ensures
        ({
            let d = divergence(ours, blocked, theirs);
            let same = ours.metadata.response_code == theirs.metadata.response_code;
            let empty = theirs.metadata.response_code == 0 && theirs.answers.len() == 0;
            &&& blocked && denies(theirs) && same ==> d is None
            &&& blocked && denies(theirs) && !same ==> d == Some("expected"@)
            &&& blocked && !denies(theirs) && empty ==> d == Some("expected"@)
            &&& blocked && !denies(theirs) && !empty ==> d == Some("we-block-they-answer"@)
            &&& !blocked && denies(theirs) && denies(ours) ==> d is None
            &&& !blocked && denies(theirs) && !denies(ours) ==> d == Some("they-block-we-answer"@)
            &&& !blocked && !denies(theirs) && same ==> d is None
            &&& !blocked && !denies(theirs) && !same ==> d == Some("rcode-mismatch"@)
        }),
{
    law_looks_blocked(ours);
    law_looks_blocked(theirs);
}

/// A response is described by its code, after a word on how it blocks: ours by
/// the verdict, any other by its looks.
pub proof fn law_described(m: MessageV, code: Seq<char>)
    ensures
        described(m, true, code) == "blocked/"@ + code,
        denies(m) ==> described(m, false, code) == "blocky/"@ + code,
        !denies(m) ==> described(m, false, code) == code,
{
    law_looks_blocked(m);
    reveal_strlit("");
    assert(""@ + code =~= code);
}

/// At most 64 comparisons are under way.
pub proof fn law_admits(in_flight: usize, r: bool)
    requires
        call_ensures(admits, (in_flight,), r),
    ensures
        r == (in_flight + 1 <= 64),
{
}

} // verus!
