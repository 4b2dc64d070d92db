//! DNS messages as plain values, and their wire form.
//!
//! Names are kept as the wire bytes they came in, with their presentation form
//! (`www.example.com.`) beside them, record data as uncompressed wire bytes.
//! The header, the framing of questions and records, and the OPT pseudo-record
//! are coded here; hickory splits a message into its parts and joins them, with
//! name compression, limits and per-type checks.
use vstd::prelude::*;

verus! {

/// Record types the resolver deals with by name.
pub const TYPE_A: u16 = 1;

pub const TYPE_CNAME: u16 = 5;

pub const TYPE_SOA: u16 = 6;

pub const TYPE_AAAA: u16 = 28;

pub const TYPE_OPT: u16 = 41;

pub const TYPE_ANY: u16 = 255;

pub const CLASS_IN: u16 = 1;

/// Response codes the resolver deals with by name.
pub const NO_ERROR: u16 = 0;

pub const FORM_ERR: u16 = 1;

pub const SERV_FAIL: u16 = 2;

pub const NX_DOMAIN: u16 = 3;

pub const REFUSED: u16 = 5;

/// The operation code of ordinary queries.
pub const OP_QUERY: u8 = 0;

#[derive(Debug, Clone, Copy, PartialEq, Eq, Structural)]
pub enum MessageType {
    Query,
    Response,
}

/// What the header says, counts aside. `response_code` has its extended bits.
#[derive(Debug, Clone, Copy, PartialEq, Eq, Structural)]
pub struct Metadata {
    pub id: u16,
    pub message_type: MessageType,
    pub op_code: u8,
    pub authoritative: bool,
    pub truncation: bool,
    pub recursion_desired: bool,
    pub recursion_available: bool,
    pub authentic_data: bool,
    pub checking_disabled: bool,
    pub response_code: u16,
}

/// A domain name: the uncompressed wire form, which is what goes out again,
/// and the presentation form, which the filter, the cache and the log go by.
#[derive(Debug, PartialEq, Eq)]
pub struct Name {
    pub wire: Vec<u8>,
    pub text: String,
}

/// One question.
#[derive(Debug, PartialEq, Eq)]
pub struct Query {
    pub name: Name,
    pub query_type: u16,
    pub query_class: u16,
}

/// One resource record. `data` is the uncompressed wire form.
#[derive(Debug, PartialEq, Eq)]
pub struct Record {
    pub name: Name,
    pub record_type: u16,
    pub class: u16,
    pub ttl: u32,
    pub data: Vec<u8>,
}

/// The OPT pseudo-record. `z` holds the flag bits below DO; `options` is the
/// wire form.
#[derive(Debug, PartialEq, Eq)]
pub struct Edns {
    pub max_payload: u16,
    pub version: u8,
    pub dnssec_ok: bool,
    pub z: u16,
    pub options: Vec<u8>,
}

/// A DNS message. `signature` is the TSIG record that closes a signed one.
#[derive(Debug, PartialEq, Eq)]
pub struct Message {
    pub metadata: Metadata,
    pub queries: Vec<Query>,
    pub answers: Vec<Record>,
    pub authorities: Vec<Record>,
    pub additionals: Vec<Record>,
    pub edns: Option<Edns>,
    pub signature: Option<Record>,
}

/// Model of [`Name`].
#[verifier::ext_equal]
pub struct NameV {
    pub wire: Seq<u8>,
    pub text: Seq<char>,
}

/// Model of [`Query`].
#[verifier::ext_equal]
pub struct QueryV {
    pub name: NameV,
    pub query_type: u16,
    pub query_class: u16,
}

/// Model of [`Record`].
#[verifier::ext_equal]
pub struct RecordV {
    pub name: NameV,
    pub record_type: u16,
    pub class: u16,
    pub ttl: u32,
    pub data: Seq<u8>,
}

/// Model of [`Edns`].
#[verifier::ext_equal]
pub struct EdnsV {
    pub max_payload: u16,
    pub version: u8,
    pub dnssec_ok: bool,
    pub z: u16,
    pub options: Seq<u8>,
}

/// Model of [`Message`].
#[verifier::ext_equal]
pub struct MessageV {
    pub metadata: Metadata,
    pub queries: Seq<QueryV>,
    pub answers: Seq<RecordV>,
    pub authorities: Seq<RecordV>,
    pub additionals: Seq<RecordV>,
    pub edns: Option<EdnsV>,
    pub signature: Option<RecordV>,
}

impl View for Name {
    type V = NameV;

    open spec fn view(&self) -> NameV {
        NameV { wire: self.wire@, text: self.text@ }
    }
}

impl View for Query {
    type V = QueryV;

    open spec fn view(&self) -> QueryV {
        QueryV {
            name: self.name@,
            query_type: self.query_type,
            query_class: self.query_class,
        }
    }
}

impl View for Record {
    type V = RecordV;

    open spec fn view(&self) -> RecordV {
        RecordV {
            name: self.name@,
            record_type: self.record_type,
            class: self.class,
            ttl: self.ttl,
            data: self.data@,
        }
    }
}

impl View for Edns {
    type V = EdnsV;

    open spec fn view(&self) -> EdnsV {
        EdnsV {
            max_payload: self.max_payload,
            version: self.version,
            dnssec_ok: self.dnssec_ok,
            z: self.z,
            options: self.options@,
        }
    }
}

pub open spec fn queries_of(v: Seq<Query>) -> Seq<QueryV> {
    Seq::new(v.len(), |i: int| v[i]@)
}

pub open spec fn records_of(v: Seq<Record>) -> Seq<RecordV> {
    Seq::new(v.len(), |i: int| v[i]@)
}

pub open spec fn edns_of(e: Option<Edns>) -> Option<EdnsV> {
    match e {
        Some(e) => Some(e@),
        None => None,
    }
}

pub open spec fn signature_of(s: Option<Record>) -> Option<RecordV> {
    match s {
        Some(s) => Some(s@),
        None => None,
    }
}

impl View for Message {
    type V = MessageV;

    open spec fn view(&self) -> MessageV {
        MessageV {
            metadata: self.metadata,
            queries: queries_of(self.queries@),
            answers: records_of(self.answers@),
            authorities: records_of(self.authorities@),
            additionals: records_of(self.additionals@),
            edns: edns_of(self.edns),
            signature: signature_of(self.signature),
        }
    }
}

impl Clone for Name {
    fn clone(&self) -> (r: Name)
        ensures
            r@ == self@,
    {
        Name { wire: self.wire.clone(), text: self.text.clone() }
    }
}

impl Clone for Query {
    fn clone(&self) -> (r: Query)
        ensures
            r@ == self@,
    {
        Query {
            name: self.name.clone(),
            query_type: self.query_type,
            query_class: self.query_class,
        }
    }
}

impl Clone for Record {
    fn clone(&self) -> (r: Record)
        ensures
            r@ == self@,
    {
        Record {
            name: self.name.clone(),
            record_type: self.record_type,
            class: self.class,
            ttl: self.ttl,
            data: self.data.clone(),
        }
    }
}

impl Clone for Edns {
    fn clone(&self) -> (r: Edns)
        ensures
            r@ == self@,
    {
        Edns {
            max_payload: self.max_payload,
            version: self.version,
            dnssec_ok: self.dnssec_ok,
            z: self.z,
            options: self.options.clone(),
        }
    }
}

pub fn copy_queries(v: &Vec<Query>) -> (r: Vec<Query>)
    ensures
        queries_of(r@) == queries_of(v@),
{
    let mut out: Vec<Query> = Vec::new();
    let n: usize = v.len();
    for i in 0..n
        invariant
            n == v@.len(),
            queries_of(out@) == queries_of(v@).take(i as int),
    {
        let ghost before = out@;
        out.push(v[i].clone());
        assert(queries_of(out@) == queries_of(before).push(v@[i as int]@));
        assert(queries_of(v@).take(i + 1) == queries_of(v@).take(i as int).push(v@[i as int]@));
    }
    assert(queries_of(v@).take(n as int) == queries_of(v@));
    out
}

pub fn copy_records(v: &Vec<Record>) -> (r: Vec<Record>)
    ensures
        records_of(r@) == records_of(v@),
{
    let mut out: Vec<Record> = Vec::new();
    let n: usize = v.len();
    for i in 0..n
        invariant
            n == v@.len(),
            records_of(out@) == records_of(v@).take(i as int),
    {
        let ghost before = out@;
        out.push(v[i].clone());
        assert(records_of(out@) == records_of(before).push(v@[i as int]@));
        assert(records_of(v@).take(i + 1) == records_of(v@).take(i as int).push(v@[i as int]@));
    }
    assert(records_of(v@).take(n as int) == records_of(v@));
    out
}

impl Clone for Message {
    fn clone(&self) -> (r: Message)
        ensures
            r@ == self@,
    {
        Message {
            metadata: self.metadata,
            queries: copy_queries(&self.queries),
            answers: copy_records(&self.answers),
            authorities: copy_records(&self.authorities),
            additionals: copy_records(&self.additionals),
            edns: match &self.edns {
                Some(e) => Some(e.clone()),
                None => None,
            },
            signature: match &self.signature {
                Some(s) => Some(s.clone()),
                None => None,
            },
        }
    }
}

impl Metadata {
    /// A header with every flag clear.
    pub open spec fn fresh(id: u16, message_type: MessageType, op_code: u8) -> Metadata {
        Metadata {
            id,
            message_type,
            op_code,
            authoritative: false,
            truncation: false,
            recursion_desired: false,
            recursion_available: false,
            authentic_data: false,
            checking_disabled: false,
            response_code: NO_ERROR,
        }
    }
}

impl MessageV {
    /// A message with no sections.
    pub open spec fn bare(metadata: Metadata) -> MessageV {
        MessageV {
            metadata,
            queries: seq![],
            answers: seq![],
            authorities: seq![],
            additionals: seq![],
            edns: None,
            signature: None,
        }
    }

    /// The largest payload the sender takes: what EDNS says, at least 512.
    pub open spec fn payload_limit(self) -> u16 {
        match self.edns {
            Some(e) if e.max_payload >= 512 => e.max_payload,
            _ => 512,
        }
    }

    /// Header, question and OPT only, with the truncation bit set.
    pub open spec fn truncated(self) -> MessageV {
        MessageV {
            metadata: Metadata { truncation: true, ..self.metadata },
            answers: seq![],
            authorities: seq![],
            additionals: seq![],
            signature: None,
            ..self
        }
    }

    /// Whether the sender asked for DNSSEC records (EDNS DO bit).
    pub open spec fn wants_dnssec(self) -> bool {
        self.edns is Some && self.edns->0.dnssec_ok
    }
}

impl Message {
    /// An empty message with the given header contents.
    pub fn new(id: u16, message_type: MessageType, op_code: u8) -> (r: Message)
        ensures
            r@ == MessageV::bare(Metadata::fresh(id, message_type, op_code)),
    {
        let r = Message {
            metadata: Metadata {
                id,
                message_type,
                op_code,
                authoritative: false,
                truncation: false,
                recursion_desired: false,
                recursion_available: false,
                authentic_data: false,
                checking_disabled: false,
                response_code: NO_ERROR,
            },
            queries: Vec::new(),
            answers: Vec::new(),
            authorities: Vec::new(),
            additionals: Vec::new(),
            edns: None,
            signature: None,
        };
        assert(r@ =~= MessageV::bare(Metadata::fresh(id, message_type, op_code)));
        r
    }

    pub fn add_answer(&mut self, record: Record)
        ensures
            final(self)@ == (MessageV {
                answers: old(self)@.answers.push(record@),
                ..old(self)@
            }),
    {
        self.answers.push(record);
        assert(records_of(self.answers@) == records_of(old(self).answers@).push(record@));
    }

    pub fn add_authority(&mut self, record: Record)
        ensures
            final(self)@ == (MessageV {
                authorities: old(self)@.authorities.push(record@),
                ..old(self)@
            }),
    {
        self.authorities.push(record);
        assert(records_of(self.authorities@) == records_of(old(self).authorities@).push(record@));
    }

    pub fn add_query(&mut self, query: Query)
        ensures
            final(self)@ == (MessageV {
                queries: old(self)@.queries.push(query@),
                ..old(self)@
            }),
    {
        self.queries.push(query);
        assert(queries_of(self.queries@) == queries_of(old(self).queries@).push(query@));
    }

    pub fn max_payload(&self) -> (r: u16)
        ensures
            r == self@.payload_limit(),
    {
        match &self.edns {
            Some(e) => if e.max_payload >= 512 {
                e.max_payload
            } else {
                512
            },
            None => 512,
        }
    }

    pub fn truncate(&self) -> (r: Message)
        ensures
            r@ == self@.truncated(),
    {
        let r = Message {
            metadata: Metadata { truncation: true, ..self.metadata },
            queries: copy_queries(&self.queries),
            answers: Vec::new(),
            authorities: Vec::new(),
            additionals: Vec::new(),
            edns: match &self.edns {
                Some(e) => Some(e.clone()),
                None => None,
            },
            signature: None,
        };
        assert(r@ =~= self@.truncated());
        r
    }
}

/// Record types that only DNSSEC-aware clients ask for: SIG, KEY, DS, RRSIG,
/// NSEC, DNSKEY, NSEC3, NSEC3PARAM, CDS, CDNSKEY and TSIG.
pub open spec fn dnssec_type(t: u16) -> bool {
    t == 24 || t == 25 || t == 43 || t == 46 || t == 47 || t == 48 || t == 50 || t == 51 || t == 59
        || t == 60 || t == 250
}

/// `RecordType::is_dnssec` of hickory, on the type with this number: true for
/// exactly the types that [`dnssec_type`] lists.
#[verifier::external_body]
fn is_dnssec_type(t: u16) -> (r: bool)
    ensures
        r == dnssec_type(t),
{
    hickory_proto::rr::RecordType::from(t).is_dnssec()
}

/// Records a client without the DO bit may see when it asked for `asked`.
pub open spec fn plain_record(asked: u16, r: RecordV) -> bool {
    r.record_type == asked || !dnssec_type(r.record_type)
}

impl MessageV {
    /// The message without the DNSSEC records that the client did not ask for
    /// (RFC 4035, section 3.2.1); unchanged when it asked for them, or when
    /// there is no question to go by.
    pub open spec fn without_dnssec(self, dnssec_ok: bool) -> MessageV {
        if dnssec_ok || self.queries.len() == 0 {
            self
        } else {
            let keep = |r: RecordV| plain_record(self.queries[0].query_type, r);
            MessageV {
                answers: self.answers.filter(keep),
                authorities: self.authorities.filter(keep),
                additionals: self.additionals.filter(keep),
                ..self
            }
        }
    }
}

fn keep_plain(asked: u16, v: &Vec<Record>) -> (r: Vec<Record>)
    ensures
        records_of(r@) == records_of(v@).filter(|x: RecordV| plain_record(asked, x)),
{
    let mut out: Vec<Record> = Vec::new();
    let n: usize = v.len();
    let ghost keep = |x: RecordV| plain_record(asked, x);
    let ghost all = records_of(v@);
    proof {
        reveal(Seq::filter);
        assert(all.take(0) == Seq::<RecordV>::empty());
    }
    for i in 0..n
        invariant
            n == v@.len(),
            all == records_of(v@),
            keep == (|x: RecordV| plain_record(asked, x)),
            records_of(out@) == all.take(i as int).filter(keep),
    {
        proof {
            reveal(Seq::filter);
            assert(all.take(i + 1).drop_last() == all.take(i as int));
            assert(all.take(i + 1).last() == v@[i as int]@);
        }
        let ghost before = out@;
        if v[i].record_type == asked || !is_dnssec_type(v[i].record_type) {
            out.push(v[i].clone());
            assert(records_of(out@) == records_of(before).push(v@[i as int]@));
        }
    }
    assert(all.take(n as int) == all);
    out
}

impl Message {
    /// Drop the DNSSEC records that the client did not ask for.
    pub fn maybe_strip_dnssec_records(self, dnssec_ok: bool) -> (r: Message)
        ensures
            r@ == self@.without_dnssec(dnssec_ok),
    {
        if dnssec_ok || self.queries.len() == 0 {
            return self;
        }
        let asked: u16 = self.queries[0].query_type;
        let answers = keep_plain(asked, &self.answers);
        let authorities = keep_plain(asked, &self.authorities);
        let additionals = keep_plain(asked, &self.additionals);
        Message { answers, authorities, additionals, ..self }
    }
}

/// Records with the same contents.
pub open spec fn alike(a: Record, b: Record) -> bool {
    a.name.wire@ == b.name.wire@ && a.name.text@ == b.name.text@ && a.record_type == b.record_type
        && a.class == b.class && a.ttl == b.ttl && a.data@ == b.data@
}

/// Sections with the same records in the same order.
pub open spec fn all_alike(a: Seq<Record>, b: Seq<Record>) -> bool {
    a.len() == b.len() && forall|i: int| 0 <= i < a.len() ==> alike(#[trigger] a[i], b[i])
}

proof fn lemma_alike(a: Seq<Record>, b: Seq<Record>)
    requires
        records_of(a) == records_of(b),
    ensures
        all_alike(a, b),
{
    assert(records_of(a).len() == a.len() && records_of(b).len() == b.len());
    assert forall|i: int| 0 <= i < a.len() implies alike(#[trigger] a[i], b[i]) by {
        assert(records_of(a)[i] == a[i]@);
        assert(records_of(b)[i] == b[i]@);
    }
}

/// The model of a message loses nothing of it: messages with the same model
/// have the same header, questions, records, OPT and signature.
pub proof fn law_model_faithful(a: Message, b: Message)
    requires
        a@ == b@,
    ensures
        a.metadata == b.metadata,
        a.queries@.len() == b.queries@.len(),
        forall|i: int|
            0 <= i < a.queries@.len() ==> (#[trigger] a.queries@[i]).name.wire@
                == b.queries@[i].name.wire@ && a.queries@[i].name.text@ == b.queries@[i].name.text@
                && a.queries@[i].query_type == b.queries@[i].query_type
                && a.queries@[i].query_class == b.queries@[i].query_class,
        all_alike(a.answers@, b.answers@),
        all_alike(a.authorities@, b.authorities@),
        all_alike(a.additionals@, b.additionals@),
        a.edns is Some == b.edns is Some,
        a.edns is Some ==> {
            let (x, y) = (a.edns->0, b.edns->0);
            x.max_payload == y.max_payload && x.version == y.version && x.dnssec_ok == y.dnssec_ok
                && x.z == y.z && x.options@ == y.options@
        },
        a.signature is Some == b.signature is Some,
        a.signature is Some ==> alike(a.signature->0, b.signature->0),
{
    lemma_alike(a.answers@, b.answers@);
    lemma_alike(a.authorities@, b.authorities@);
    lemma_alike(a.additionals@, b.additionals@);
    let (p, q) = (queries_of(a.queries@), queries_of(b.queries@));
    assert(p.len() == a.queries@.len() && q.len() == b.queries@.len());
    assert forall|i: int| 0 <= i < a.queries@.len() implies (#[trigger] a.queries@[i])@
        == b.queries@[i]@ by {
        assert(p[i] == a.queries@[i]@);
        assert(q[i] == b.queries@[i]@);
    }
}

} // verus!
