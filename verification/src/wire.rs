//! The wire form of DNS messages: header, question and record framing, the
//! OPT pseudo-record, and the calls into hickory that split and join messages.
pub mod layout;

use hickory_proto::op::{Message as DnsMessage, Query as DnsQuery};
use hickory_proto::rr::Record as DnsRecord;
use hickory_proto::serialize::binary::{BinDecodable, BinEncodable, BinEncoder, NameEncoding};
use vstd::prelude::*;

use crate::message::{queries_of, records_of, signature_of, Edns, EdnsV, Message, MessageType};
use crate::message::{MessageV, Metadata, Name, NameV, Query, QueryV, Record, RecordV, TYPE_OPT};

verus! {

/// Big-endian bytes of a 16-bit number.
pub open spec fn be16(x: u16) -> Seq<u8> {
    seq![(x >> 8) as u8, (x & 0xff) as u8]
}

/// Big-endian bytes of a 32-bit number.
pub open spec fn be32(x: u32) -> Seq<u8> {
    be16((x >> 16) as u16) + be16((x & 0xffff) as u16)
}

/// The 16-bit number at `i`.
pub open spec fn u16_at(b: Seq<u8>, i: int) -> u16 {
    ((b[i] as u16) << 8) | (b[i + 1] as u16)
}

/// The 32-bit number at `i`.
pub open spec fn u32_at(b: Seq<u8>, i: int) -> u32 {
    ((u16_at(b, i) as u32) << 16) | (u16_at(b, i + 2) as u32)
}

proof fn lemma_u16_bytes(x: u16, h: u8, l: u8)
    by (bit_vector)
    requires
        h == (x >> 8) as u8,
        l == (x & 0xff) as u8,
    ensures
        ((h as u16) << 8) | (l as u16) == x,
{
}

proof fn lemma_u32_halves(x: u32, h: u16, l: u16)
    by (bit_vector)
    requires
        h == (x >> 16) as u16,
        l == (x & 0xffff) as u16,
    ensures
        ((h as u32) << 16) | (l as u32) == x,
{
}

/// What [`be16`] writes, [`u16_at`] reads.
proof fn lemma_be16(b: Seq<u8>, i: int, x: u16)
    requires
        0 <= i,
        i + 2 <= b.len(),
        b.subrange(i, i + 2) == be16(x),
    ensures
        u16_at(b, i) == x,
{
    let s = b.subrange(i, i + 2);
    assert(s[0] == b[i] && s[1] == b[i + 1]);
    lemma_u16_bytes(x, b[i], b[i + 1]);
}

/// What [`be32`] writes, [`u32_at`] reads.
proof fn lemma_be32(b: Seq<u8>, i: int, x: u32)
    requires
        0 <= i,
        i + 4 <= b.len(),
        b.subrange(i, i + 4) == be32(x),
    ensures
        u32_at(b, i) == x,
{
    let s = b.subrange(i, i + 4);
    assert(b.subrange(i, i + 2) == be16((x >> 16) as u16)) by {
        assert(s.subrange(0, 2) == be16((x >> 16) as u16));
        assert(s.subrange(0, 2) == b.subrange(i, i + 2));
    }
    assert(b.subrange(i + 2, i + 4) == be16((x & 0xffff) as u16)) by {
        assert(s.subrange(2, 4) == be16((x & 0xffff) as u16));
        assert(s.subrange(2, 4) == b.subrange(i + 2, i + 4));
    }
    lemma_be16(b, i, (x >> 16) as u16);
    lemma_be16(b, i + 2, (x & 0xffff) as u16);
    lemma_u32_halves(x, (x >> 16) as u16, (x & 0xffff) as u16);
}

fn push_u16(out: &mut Vec<u8>, x: u16)
    ensures
        final(out)@ == old(out)@ + be16(x),
{
    out.push((x >> 8) as u8);
    out.push((x & 0xff) as u8);
    assert(out@ == old(out)@ + be16(x));
}

fn push_u32(out: &mut Vec<u8>, x: u32)
    ensures
        final(out)@ == old(out)@ + be32(x),
{
    push_u16(out, (x >> 16) as u16);
    push_u16(out, (x & 0xffff) as u16);
    assert(out@ == old(out)@ + be32(x));
}

fn push_bytes(out: &mut Vec<u8>, b: &[u8])
    ensures
        final(out)@ == old(out)@ + b@,
{
    let n: usize = b.len();
    for i in 0..n
        invariant
            n == b@.len(),
            out@ == old(out)@ + b@.take(i as int),
    {
        out.push(b[i]);
        assert(b@.take(i + 1) == b@.take(i as int).push(b@[i as int]));
    }
    assert(b@.take(n as int) == b@);
}

fn read_u16(b: &[u8], i: usize) -> (r: u16)
    requires
        i + 2 <= b@.len(),
    ensures
        r == u16_at(b@, i as int),
{
    ((b[i] as u16) << 8) | (b[i + 1] as u16)
}

fn read_u32(b: &[u8], i: usize) -> (r: u32)
    requires
        i + 4 <= b@.len(),
    ensures
        r == u32_at(b@, i as int),
{
    let n: usize = b.len();
    assert(i + 4 <= n);
    ((read_u16(b, i) as u32) << 16) | (read_u16(b, i + 2) as u32)
}

fn part(b: &[u8], from: usize, to: usize) -> (r: Vec<u8>)
    requires
        from <= to <= b@.len(),
    ensures
        r@ == b@.subrange(from as int, to as int),
{
    let mut out: Vec<u8> = Vec::new();
    push_bytes(&mut out, &b[from..to]);
    out
}

/// Where an uncompressed name that starts at `i` ends; `None` when it does not
/// end within the bytes or a length byte is above 63.
pub open spec fn name_end(b: Seq<u8>, i: int) -> Option<int>
    decreases b.len() - i,
{
    if i < 0 || i >= b.len() || b[i] > 63 {
        None
    } else if b[i] == 0 {
        Some(i + 1)
    } else if i + 1 + b[i] >= b.len() {
        None
    } else {
        name_end(b, i + 1 + b[i])
    }
}

proof fn lemma_name_end(b: Seq<u8>, i: int)
    ensures
        name_end(b, i) matches Some(e) ==> 0 <= i < e <= b.len(),
    decreases b.len() - i,
{
    if 0 <= i < b.len() && 0 < b[i] <= 63 && i + 1 + b[i] < b.len() {
        lemma_name_end(b, i + 1 + b[i]);
    }
}

/// Bytes after a name do not change where it ends.
proof fn lemma_name_end_prefix(a: Seq<u8>, b: Seq<u8>, i: int)
    requires
        name_end(a, i) is Some,
    ensures
        name_end(a + b, i) == name_end(a, i),
    decreases a.len() - i,
{
    lemma_name_end(a, i);
    if a[i] != 0 {
        lemma_name_end_prefix(a, b, i + 1 + a[i]);
    }
}

fn find_name_end(b: &[u8]) -> (r: Option<usize>)
    ensures
        match r {
            Some(e) => name_end(b@, 0) == Some(e as int) && e <= b@.len(),
            None => name_end(b@, 0) is None,
        },
{
    let n: usize = b.len();
    let mut i: usize = 0;
    while i < n
        invariant
            n == b@.len(),
            name_end(b@, 0) == name_end(b@, i as int),
        decreases n - i,
    {
        let l: usize = b[i] as usize;
        if l > 63 {
            return None;
        }
        if l == 0 {
            return Some(i + 1);
        }
        if l >= n - i - 1 {
            return None;
        }
        i = i + 1 + l;
    }
    None
}

/// A question: name, type, class.
pub open spec fn question_wire(name: Seq<u8>, query_type: u16, query_class: u16) -> Seq<u8> {
    name + be16(query_type) + be16(query_class)
}

/// The fields of a question.
pub open spec fn question_fields(b: Seq<u8>) -> Option<(Seq<u8>, u16, u16)> {
    match name_end(b, 0) {
        Some(e) if b.len() == e + 4 => Some((b.take(e), u16_at(b, e), u16_at(b, e + 2))),
        _ => None,
    }
}

/// A record: name, type, class, time to live, length of the data, data.
pub open spec fn record_wire(
    name: Seq<u8>,
    record_type: u16,
    class: u16,
    ttl: u32,
    data: Seq<u8>,
) -> Seq<u8> {
    name + be16(record_type) + be16(class) + be32(ttl) + be16(data.len() as u16) + data
}

/// The fields of a record.
pub open spec fn record_fields(b: Seq<u8>) -> Option<(Seq<u8>, u16, u16, u32, Seq<u8>)> {
    match name_end(b, 0) {
        Some(e) if b.len() >= e + 10 && b.len() == e + 10 + u16_at(b, e + 8) => Some(
            (b.take(e), u16_at(b, e), u16_at(b, e + 2), u32_at(b, e + 4), b.skip(e + 10)),
        ),
        _ => None,
    }
}

/// A label: its length, then its bytes.
pub open spec fn label_wire(l: Seq<char>) -> Seq<u8> {
    seq![l.len() as u8] + Seq::new(l.len(), |i: int| l[i] as u8)
}

/// A name of ASCII labels in wire form: each label in turn, then the root.
pub open spec fn labels_wire(labels: Seq<Seq<char>>) -> Seq<u8>
    decreases labels.len(),
{
    if labels.len() == 0 {
        seq![0u8]
    } else {
        label_wire(labels[0]) + labels_wire(labels.drop_first())
    }
}

/// A name in wire form and nothing else.
pub open spec fn wire_name(b: Seq<u8>) -> bool {
    name_end(b, 0) == Some(b.len() as int)
}

/// Reading a question back gives what was written.
pub proof fn law_question_roundtrip(name: Seq<u8>, query_type: u16, query_class: u16)
    requires
        wire_name(name),
    ensures
        question_fields(question_wire(name, query_type, query_class)) == Some(
            (name, query_type, query_class),
        ),
{
    let b = question_wire(name, query_type, query_class);
    let e = name.len() as int;
    assert(b == name + (be16(query_type) + be16(query_class)));
    lemma_name_end_prefix(name, be16(query_type) + be16(query_class), 0);
    assert(b.subrange(e, e + 2) == be16(query_type));
    assert(b.subrange(e + 2, e + 4) == be16(query_class));
    lemma_be16(b, e, query_type);
    lemma_be16(b, e + 2, query_class);
    assert(b.take(e) == name);
}

/// Reading a record back gives what was written.
pub proof fn law_record_roundtrip(
    name: Seq<u8>,
    record_type: u16,
    class: u16,
    ttl: u32,
    data: Seq<u8>,
)
    requires
        wire_name(name),
        data.len() <= u16::MAX,
    ensures
        record_fields(record_wire(name, record_type, class, ttl, data)) == Some(
            (name, record_type, class, ttl, data),
        ),
{
    let b = record_wire(name, record_type, class, ttl, data);
    let e = name.len() as int;
    let rest = be16(record_type) + be16(class) + be32(ttl) + be16(data.len() as u16) + data;
    assert(b == name + rest);
    lemma_name_end_prefix(name, rest, 0);
    assert(b.subrange(e, e + 2) == be16(record_type));
    assert(b.subrange(e + 2, e + 4) == be16(class));
    assert(b.subrange(e + 4, e + 8) == be32(ttl));
    assert(b.subrange(e + 8, e + 10) == be16(data.len() as u16));
    lemma_be16(b, e, record_type);
    lemma_be16(b, e + 2, class);
    lemma_be32(b, e + 4, ttl);
    lemma_be16(b, e + 8, data.len() as u16);
    assert(b.take(e) == name);
    assert(b.skip(e + 10) == data);
}

/// First flag byte: QR, opcode, AA, TC, RD.
pub open spec fn flags_high(m: Metadata) -> u8 {
    (if m.message_type == MessageType::Response {
        0x80u8
    } else {
        0u8
    }) | ((m.op_code & 0x0f) << 3) | (if m.authoritative {
        0x04u8
    } else {
        0u8
    }) | (if m.truncation {
        0x02u8
    } else {
        0u8
    }) | (if m.recursion_desired {
        0x01u8
    } else {
        0u8
    })
}

/// Second flag byte: RA, AD, CD and the low four bits of the response code.
pub open spec fn flags_low(m: Metadata) -> u8 {
    (if m.recursion_available {
        0x80u8
    } else {
        0u8
    }) | (if m.authentic_data {
        0x20u8
    } else {
        0u8
    }) | (if m.checking_disabled {
        0x10u8
    } else {
        0u8
    }) | (m.response_code & 0x0f) as u8
}

/// A header with all counts zero.
pub open spec fn header_wire(m: Metadata) -> Seq<u8> {
    be16(m.id) + seq![flags_high(m), flags_low(m)] + Seq::new(8, |i: int| 0u8)
}

/// What the first four bytes of a header say.
pub open spec fn header_fields(b: Seq<u8>) -> Metadata {
    let f = b[2];
    let g = b[3];
    Metadata {
        id: u16_at(b, 0),
        message_type: if f & 0x80 != 0 {
            MessageType::Response
        } else {
            MessageType::Query
        },
        op_code: (f >> 3) & 0x0f,
        authoritative: f & 0x04 != 0,
        truncation: f & 0x02 != 0,
        recursion_desired: f & 0x01 != 0,
        recursion_available: g & 0x80 != 0,
        authentic_data: g & 0x20 != 0,
        checking_disabled: g & 0x10 != 0,
        response_code: (g & 0x0f) as u16,
    }
}

proof fn lemma_flags_high(q: u8, o: u8, a: u8, t: u8, r: u8, f: u8)
    by (bit_vector)
    requires
        q == 0 || q == 0x80,
        o <= 15,
        a == 0 || a == 4,
        t == 0 || t == 2,
        r == 0 || r == 1,
        f == q | ((o & 0x0f) << 3) | a | t | r,
    ensures
        (f & 0x80 != 0) == (q == 0x80),
        (f >> 3) & 0x0f == o,
        (f & 0x04 != 0) == (a == 4),
        (f & 0x02 != 0) == (t == 2),
        (f & 0x01 != 0) == (r == 1),
{
}

proof fn lemma_flags_low(ra: u8, ad: u8, cd: u8, rc: u16, g: u8)
    by (bit_vector)
    requires
        ra == 0 || ra == 0x80,
        ad == 0 || ad == 0x20,
        cd == 0 || cd == 0x10,
        g == ra | ad | cd | ((rc & 0x0f) as u8),
    ensures
        (g & 0x80 != 0) == (ra == 0x80),
        (g & 0x20 != 0) == (ad == 0x20),
        (g & 0x10 != 0) == (cd == 0x10),
        (g & 0x0f) as u16 == rc & 0x0f,
{
}

/// Reading a header back gives what was written, except for the bits of the
/// response code that the header has no room for.
pub proof fn law_header_roundtrip(m: Metadata)
    requires
        m.op_code <= 15,
    ensures
        header_fields(header_wire(m)) == (Metadata {
            response_code: m.response_code & 0x0f,
            ..m
        }),
{
    let b = header_wire(m);
    assert(b.subrange(0, 2) == be16(m.id));
    lemma_be16(b, 0, m.id);
    assert(b[2] == flags_high(m));
    assert(b[3] == flags_low(m));
    lemma_flags_high(
        if m.message_type == MessageType::Response {
            0x80u8
        } else {
            0u8
        },
        m.op_code,
        if m.authoritative {
            0x04u8
        } else {
            0u8
        },
        if m.truncation {
            0x02u8
        } else {
            0u8
        },
        if m.recursion_desired {
            0x01u8
        } else {
            0u8
        },
        b[2],
    );
    lemma_flags_low(
        if m.recursion_available {
            0x80u8
        } else {
            0u8
        },
        if m.authentic_data {
            0x20u8
        } else {
            0u8
        },
        if m.checking_disabled {
            0x10u8
        } else {
            0u8
        },
        m.response_code,
        b[3],
    );
}

/// The response code's bits above the header's four.
pub open spec fn code_high(response_code: u16) -> u8 {
    ((response_code & 0x0ff0) >> 4) as u8
}

/// The time-to-live field of the OPT pseudo-record: extended response code,
/// version, DO and the other flags.
pub open spec fn opt_ttl(e: EdnsV, response_code: u16) -> u32 {
    ((code_high(response_code) as u32) << 24) | ((e.version as u32) << 16) | (if e.dnssec_ok {
        0x8000u32
    } else {
        0u32
    }) | ((e.z & 0x7fff) as u32)
}

/// The OPT pseudo-record: root name, type 41, payload size in place of the
/// class.
pub open spec fn opt_wire(e: EdnsV, response_code: u16) -> Seq<u8> {
    record_wire(seq![0u8], TYPE_OPT, e.max_payload, opt_ttl(e, response_code), e.options)
}

/// What an OPT pseudo-record with this class, time to live and data says.
pub open spec fn opt_fields(class: u16, ttl: u32, data: Seq<u8>) -> EdnsV {
    EdnsV {
        max_payload: class,
        version: ((ttl >> 16) & 0xff) as u8,
        dnssec_ok: ttl & 0x8000 != 0,
        z: (ttl & 0x7fff) as u16,
        options: data,
    }
}

proof fn lemma_opt_ttl(h: u8, v: u8, d: u32, z: u16, t: u32)
    by (bit_vector)
    requires
        d == 0 || d == 0x8000,
        t == ((h as u32) << 24) | ((v as u32) << 16) | d | ((z & 0x7fff) as u32),
    ensures
        ((t >> 16) & 0xff) as u8 == v,
        (t & 0x8000 != 0) == (d == 0x8000),
        (t & 0x7fff) as u16 == z & 0x7fff,
        (t >> 24) as u8 == h,
{
}

/// Reading an OPT pseudo-record back gives what was written.
pub proof fn law_opt_roundtrip(e: EdnsV, response_code: u16)
    requires
        e.z <= 0x7fff,
    ensures
        opt_fields(e.max_payload, opt_ttl(e, response_code), e.options) == e,
        (opt_ttl(e, response_code) >> 24) as u8 == code_high(response_code),
{
    let t = opt_ttl(e, response_code);
    lemma_opt_ttl(
        code_high(response_code),
        e.version,
        if e.dnssec_ok {
            0x8000u32
        } else {
            0u32
        },
        e.z,
        t,
    );
    let z = e.z;
    assert(z & 0x7fff == z) by (bit_vector)
        requires
            z <= 0x7fff,
    ;
    assert(opt_fields(e.max_payload, t, e.options) =~= e);
}

/// A message split into its parts, each uncompressed and on its own.
pub struct Parts {
    pub queries: Vec<Vec<u8>>,
    pub answers: Vec<Vec<u8>>,
    pub authorities: Vec<Vec<u8>>,
    pub additionals: Vec<Vec<u8>>,
    pub opt: Vec<Vec<u8>>,
    pub signature: Vec<Vec<u8>>,
}

/// Model of [`Parts`].
#[verifier::ext_equal]
pub struct PartsV {
    pub queries: Seq<Seq<u8>>,
    pub answers: Seq<Seq<u8>>,
    pub authorities: Seq<Seq<u8>>,
    pub additionals: Seq<Seq<u8>>,
    pub opt: Seq<Seq<u8>>,
    pub signature: Seq<Seq<u8>>,
}

pub open spec fn bytes_of(v: Seq<Vec<u8>>) -> Seq<Seq<u8>> {
    Seq::new(v.len(), |i: int| v[i]@)
}

impl View for Parts {
    type V = PartsV;

    open spec fn view(&self) -> PartsV {
        PartsV {
            queries: bytes_of(self.queries@),
            answers: bytes_of(self.answers@),
            authorities: bytes_of(self.authorities@),
            additionals: bytes_of(self.additionals@),
            opt: bytes_of(self.opt@),
            signature: bytes_of(self.signature@),
        }
    }
}

/// What hickory's `Message::from_vec` finds in the bytes: every question and
/// record written out on its own with uncompressed names, the OPT
/// pseudo-record and the TSIG record apart from the other additional records.
pub uninterp spec fn wire_parts(bytes: Seq<u8>) -> Option<PartsV>;

/// At most one OPT pseudo-record, with the root name and the type 41 in front,
/// and at most one TSIG record.
pub open spec fn single_parts(p: PartsV) -> bool {
    &&& p.opt.len() <= 1
    &&& p.opt.len() == 1 ==> p.opt[0].len() >= 3 && p.opt[0].take(3) == seq![0u8, 0u8, 41u8]
    &&& p.signature.len() <= 1
}

/// `Message::from_vec` of hickory, `to_bytes` of each question, and `emit` of
/// each record with name compression off, section by section, the OPT
/// pseudo-record and the TSIG record each in a section of its own. The result
/// is a function of the bytes; `None` where `from_vec` rejects them or a part
/// cannot be written. Bytes that it accepts hold at least a header, at most one
/// OPT pseudo-record, which is written with the root name, and at most one TSIG
/// record.
#[verifier::external_body]
fn split_message(bytes: &[u8]) -> (r: Option<(Vec<Vec<u8>>, Vec<Vec<Vec<u8>>>)>)
    ensures
        match r {
            Some((queries, sections)) => {
                let parts = PartsV {
                    queries: bytes_of(queries@),
                    answers: bytes_of(sections@[0]@),
                    authorities: bytes_of(sections@[1]@),
                    additionals: bytes_of(sections@[2]@),
                    opt: bytes_of(sections@[3]@),
                    signature: bytes_of(sections@[4]@),
                };
                &&& bytes@.len() >= 12
                &&& sections@.len() == 5
                &&& wire_parts(bytes@) == Some(parts)
                &&& single_parts(parts)
            },
            None => wire_parts(bytes@) is None,
        },
{
    let m = DnsMessage::from_vec(bytes).ok()?;
    let plain = |r: &DnsRecord| {
        let mut out = Vec::new();
        r.emit(&mut BinEncoder::new(&mut out).with_name_encoding(NameEncoding::Uncompressed)).ok()?;
        Some(out)
    };
    let opt = m.edns.iter().map(DnsRecord::from).collect();
    let tsig = Vec::from_iter(m.signature.map(|s| s.into_record_of_rdata()));
    Option::zip(
        m.queries.iter().map(|q| q.to_bytes().ok()).collect(),
        [m.answers, m.authorities, m.additionals, opt, tsig]
            .iter().map(|v| v.iter().map(plain).collect()).collect(),
    )
}

/// What hickory's `Message::to_vec` makes of a header and parts.
pub uninterp spec fn wire_bytes(header: Seq<u8>, parts: PartsV) -> Option<Seq<u8>>;

/// `Message::to_vec` of hickory on a message with this header and these
/// parts, the OPT pseudo-record and then the TSIG record after the other
/// additional records. The result is a function of the arguments, and no longer
/// than 65535 bytes: a message too long for that loses records, with the
/// truncation bit set. `None` where hickory rejects a part or the questions
/// alone do not fit. That a part taken from a message is accepted again is left
/// unsaid.
#[verifier::external_body]
fn join_message(header: &[u8], parts: &Parts) -> (r: Option<Vec<u8>>)
    ensures
        match r {
            Some(b) => wire_bytes(header@, parts@) == Some(b@) && b@.len() <= 65535,
            None => wire_bytes(header@, parts@) is None,
        },
{
    let mut m = DnsMessage::from_vec(header).ok()?;
    let records = |v: &[Vec<u8>]| -> Option<Vec<_>> {
        v.iter().map(|b| DnsRecord::from_bytes(b).ok()).collect()
    };
    let queries: Option<_> = parts.queries.iter().map(|b| DnsQuery::from_bytes(b).ok()).collect();
    m.queries = queries?;
    m.answers = records(&parts.answers)?;
    m.authorities = records(&parts.authorities)?;
    m.additionals = records(&parts.additionals)?;
    m.additionals.extend(records(&parts.opt)?);
    m.additionals.extend(records(&parts.signature)?);
    m.to_vec().ok()
}

/// The presentation form of a wire name, as hickory's `Name::to_ascii` gives it.
pub uninterp spec fn name_text(wire: Seq<u8>) -> Option<Seq<char>>;

/// `Name::from_bytes` and `Name::to_ascii` of hickory. The result is a
/// function of the bytes; `None` where they are no name.
#[verifier::external_body]
fn text_of_name(wire: &[u8]) -> (r: Option<String>)
    ensures
        match r {
            Some(s) => name_text(wire@) == Some(s@),
            None => name_text(wire@) is None,
        },
{
    hickory_proto::rr::Name::from_bytes(wire).ok().map(|n| n.to_ascii())
}

/// The wire form of a name in presentation form, as hickory's
/// `Name::from_ascii` reads it.
pub uninterp spec fn name_wire(text: Seq<char>) -> Option<Seq<u8>>;

/// `Name::from_ascii` and `Name::to_bytes` of hickory. The result is a
/// function of the text, and no longer than 255 bytes; `None` where the text is
/// no name.
#[verifier::external_body]
fn wire_of_name(text: &str) -> (r: Option<Vec<u8>>)
    ensures
        match r {
            Some(b) => name_wire(text@) == Some(b@) && b@.len() <= 255,
            None => name_wire(text@) is None,
        },
{
    hickory_proto::rr::Name::from_ascii(text).ok()?.to_bytes().ok()
}

/// The name that wire bytes stand for.
pub open spec fn name_of(wire: Seq<u8>) -> Option<NameV> {
    match name_text(wire) {
        Some(text) => Some(NameV { wire, text }),
        None => None,
    }
}

/// The name that a text in presentation form stands for, with the spelling
/// hickory gives it. A name takes at most 255 bytes.
pub open spec fn named(text: Seq<char>) -> Option<NameV> {
    match name_wire(text) {
        Some(wire) if wire.len() <= 255 => name_of(wire),
        _ => None,
    }
}

/// The model of an optional name.
pub open spec fn opt_name(n: Option<Name>) -> Option<NameV> {
    match n {
        Some(n) => Some(n@),
        None => None,
    }
}

fn read_name(wire: &[u8]) -> (r: Option<Name>)
    ensures
        opt_name(r) == name_of(wire@),
{
    match text_of_name(wire) {
        Some(text) => {
            let n: usize = wire.len();
            let bytes = part(wire, 0, n);
            assert(bytes@ == wire@);
            Some(Name { wire: bytes, text })
        },
        None => None,
    }
}

impl Name {
    /// The name that a text in presentation form stands for; `None` where it is
    /// no name.
    pub fn from_ascii(text: &str) -> (r: Option<Name>)
        ensures
            opt_name(r) == named(text@),
    {
        match wire_of_name(text) {
            Some(wire) => read_name(wire.as_slice()),
            None => None,
        }
    }
}

/// A question from its wire form.
pub open spec fn question_of(b: Seq<u8>) -> Option<QueryV> {
    match question_fields(b) {
        Some((n, query_type, query_class)) => match name_of(n) {
            Some(name) => Some(QueryV { name, query_type, query_class }),
            None => None,
        },
        None => None,
    }
}

/// A record from its wire form.
pub open spec fn record_of(b: Seq<u8>) -> Option<RecordV> {
    match record_fields(b) {
        Some((n, record_type, class, ttl, data)) => match name_of(n) {
            Some(name) => Some(RecordV { name, record_type, class, ttl, data }),
            None => None,
        },
        None => None,
    }
}

/// Every question from its wire form; `None` when one is malformed.
pub open spec fn questions_of(p: Seq<Seq<u8>>) -> Option<Seq<QueryV>>
    decreases p.len(),
{
    if p.len() == 0 {
        Some(seq![])
    } else {
        match (questions_of(p.drop_last()), question_of(p.last())) {
            (Some(before), Some(q)) => Some(before.push(q)),
            _ => None,
        }
    }
}

/// Every record from its wire form; `None` when one is malformed.
pub open spec fn section_of(p: Seq<Seq<u8>>) -> Option<Seq<RecordV>>
    decreases p.len(),
{
    if p.len() == 0 {
        Some(seq![])
    } else {
        match (section_of(p.drop_last()), record_of(p.last())) {
            (Some(before), Some(r)) => Some(before.push(r)),
            _ => None,
        }
    }
}

/// The record that a section with at most one holds; `None` when it is
/// malformed.
pub open spec fn single_of(p: Seq<Seq<u8>>) -> Option<Option<RecordV>> {
    if p.len() == 0 {
        Some(None)
    } else {
        match record_of(p[0]) {
            Some(r) => Some(Some(r)),
            None => None,
        }
    }
}

/// The message that a header and parts stand for. The response code takes its
/// high bits from the OPT pseudo-record.
pub open spec fn assembled(header: Seq<u8>, p: PartsV) -> Option<MessageV> {
    match (
        questions_of(p.queries),
        section_of(p.answers),
        section_of(p.authorities),
        section_of(p.additionals),
        single_of(p.signature),
    ) {
        (Some(queries), Some(answers), Some(authorities), Some(additionals), Some(signature)) => {
            let low = header_fields(header);
            let m = MessageV {
                metadata: low,
                queries,
                answers,
                authorities,
                additionals,
                edns: None,
                signature,
            };
            if p.opt.len() == 0 {
                Some(m)
            } else {
                match record_fields(p.opt[0]) {
                    Some((_, _, class, ttl, data)) => Some(
                        MessageV {
                            metadata: Metadata {
                                response_code: (((ttl >> 24) as u16) << 4) | low.response_code,
                                ..low
                            },
                            edns: Some(opt_fields(class, ttl, data)),
                            ..m
                        },
                    ),
                    None => None,
                }
            }
        },
        _ => None,
    }
}

/// The message that the bytes stand for.
pub open spec fn decoded(bytes: Seq<u8>) -> Option<MessageV> {
    match wire_parts(bytes) {
        Some(p) => assembled(bytes, p),
        None => None,
    }
}

fn read_question(b: &[u8]) -> (r: Option<Query>)
    ensures
        match r {
            Some(q) => question_of(b@) == Some(q@),
            None => question_of(b@) is None,
        },
{
    let e: usize = match find_name_end(b) {
        Some(e) => e,
        None => {
            return None;
        },
    };
    if b.len() - e != 4 {
        return None;
    }
    let head = &b[0..e];
    assert(head@ == b@.take(e as int));
    match read_name(head) {
        Some(name) => Some(
            Query { name, query_type: read_u16(b, e), query_class: read_u16(b, e + 2) },
        ),
        None => None,
    }
}

/// Type, class, time to live and start of the data of a record whose name ends
/// at `e`.
fn read_record_tail(b: &[u8], e: usize) -> (r: Option<(u16, u16, u32)>)
    requires
        e <= b@.len(),
        name_end(b@, 0) == Some(e as int),
    ensures
        match r {
            Some((t, c, ttl)) => record_fields(b@) == Some(
                (b@.take(e as int), t, c, ttl, b@.skip(e + 10)),
            ) && e + 10 <= b@.len(),
            None => record_fields(b@) is None,
        },
{
    let n: usize = b.len();
    if n - e < 10 {
        return None;
    }
    if n - e - 10 != read_u16(b, e + 8) as usize {
        return None;
    }
    Some((read_u16(b, e), read_u16(b, e + 2), read_u32(b, e + 4)))
}

fn read_record(b: &[u8]) -> (r: Option<Record>)
    ensures
        match r {
            Some(x) => record_of(b@) == Some(x@),
            None => record_of(b@) is None,
        },
{
    let e: usize = match find_name_end(b) {
        Some(e) => e,
        None => {
            return None;
        },
    };
    match read_record_tail(b, e) {
        Some((record_type, class, ttl)) => {
            let head = &b[0..e];
            assert(head@ == b@.take(e as int));
            match read_name(head) {
                Some(name) => {
                    let n: usize = b.len();
                    assert(e + 10 <= n);
                    let data = part(b, e + 10, n);
                    assert(data@ == b@.skip(e + 10));
                    Some(Record { name, record_type, class, ttl, data })
                },
                None => None,
            }
        },
        None => None,
    }
}

proof fn lemma_questions_none(p: Seq<Seq<u8>>, k: int)
    requires
        0 <= k < p.len(),
        question_of(p[k]) is None,
    ensures
        questions_of(p) is None,
    decreases p.len(),
{
    if k < p.len() - 1 {
        lemma_questions_none(p.drop_last(), k);
    }
}

proof fn lemma_section_none(p: Seq<Seq<u8>>, k: int)
    requires
        0 <= k < p.len(),
        record_of(p[k]) is None,
    ensures
        section_of(p) is None,
    decreases p.len(),
{
    if k < p.len() - 1 {
        lemma_section_none(p.drop_last(), k);
    }
}

fn read_questions(p: &Vec<Vec<u8>>) -> (r: Option<Vec<Query>>)
    ensures
        match r {
            Some(v) => questions_of(bytes_of(p@)) == Some(queries_of(v@)),
            None => questions_of(bytes_of(p@)) is None,
        },
{
    let mut out: Vec<Query> = Vec::new();
    let n: usize = p.len();
    let ghost all = bytes_of(p@);
    assert(queries_of(out@) == Seq::<QueryV>::empty());
    for i in 0..n
        invariant
            n == p@.len(),
            all == bytes_of(p@),
            questions_of(all.take(i as int)) == Some(queries_of(out@)),
    {
        proof {
            assert(all.take(i + 1).drop_last() == all.take(i as int));
            assert(all.take(i + 1).last() == p@[i as int]@);
        }
        match read_question(p[i].as_slice()) {
            Some(q) => {
                let ghost before = out@;
                out.push(q);
                assert(queries_of(out@) == queries_of(before).push(q@));
            },
            None => {
                proof {
                    assert(all[i as int] == p@[i as int]@);
                    lemma_questions_none(all, i as int);
                }
                return None;
            },
        }
    }
    assert(all.take(n as int) == all);
    Some(out)
}

fn read_section(p: &Vec<Vec<u8>>) -> (r: Option<Vec<Record>>)
    ensures
        match r {
            Some(v) => section_of(bytes_of(p@)) == Some(records_of(v@)),
            None => section_of(bytes_of(p@)) is None,
        },
{
    let mut out: Vec<Record> = Vec::new();
    let n: usize = p.len();
    let ghost all = bytes_of(p@);
    assert(records_of(out@) == Seq::<RecordV>::empty());
    for i in 0..n
        invariant
            n == p@.len(),
            all == bytes_of(p@),
            section_of(all.take(i as int)) == Some(records_of(out@)),
    {
        proof {
            assert(all.take(i + 1).drop_last() == all.take(i as int));
            assert(all.take(i + 1).last() == p@[i as int]@);
        }
        match read_record(p[i].as_slice()) {
            Some(q) => {
                let ghost before = out@;
                out.push(q);
                assert(records_of(out@) == records_of(before).push(q@));
            },
            None => {
                proof {
                    assert(all[i as int] == p@[i as int]@);
                    lemma_section_none(all, i as int);
                }
                return None;
            },
        }
    }
    assert(all.take(n as int) == all);
    Some(out)
}

fn read_header(b: &[u8]) -> (r: Metadata)
    requires
        b@.len() >= 4,
    ensures
        r == header_fields(b@),
{
    let f: u8 = b[2];
    let g: u8 = b[3];
    Metadata {
        id: read_u16(b, 0),
        message_type: if f & 0x80 != 0 {
            MessageType::Response
        } else {
            MessageType::Query
        },
        op_code: (f >> 3) & 0x0f,
        authoritative: f & 0x04 != 0,
        truncation: f & 0x02 != 0,
        recursion_desired: f & 0x01 != 0,
        recursion_available: g & 0x80 != 0,
        authentic_data: g & 0x20 != 0,
        checking_disabled: g & 0x10 != 0,
        response_code: (g & 0x0f) as u16,
    }
}

fn read_opt(b: &[u8]) -> (r: Option<(u32, Edns)>)
    ensures
        match r {
            Some((t, e)) => record_fields(b@) matches Some((_, _, class, ttl, data)) && t == ttl
                && e@ == opt_fields(class, ttl, data),
            None => record_fields(b@) is None,
        },
{
    let e: usize = match find_name_end(b) {
        Some(e) => e,
        None => {
            return None;
        },
    };
    match read_record_tail(b, e) {
        Some((_, class, ttl)) => {
            let n: usize = b.len();
            assert(e + 10 <= n);
            let options = part(b, e + 10, n);
            assert(options@ == b@.skip(e + 10));
            Some(
                (
                    ttl,
                    Edns {
                        max_payload: class,
                        version: ((ttl >> 16) & 0xff) as u8,
                        dnssec_ok: ttl & 0x8000 != 0,
                        z: (ttl & 0x7fff) as u16,
                        options,
                    },
                ),
            )
        },
        None => None,
    }
}

fn read_single(p: &Vec<Vec<u8>>) -> (r: Option<Option<Record>>)
    ensures
        match r {
            Some(x) => single_of(bytes_of(p@)) == Some(signature_of(x)),
            None => single_of(bytes_of(p@)) is None,
        },
{
    if p.len() == 0 {
        return Some(None);
    }
    assert(bytes_of(p@)[0] == p@[0]@);
    match read_record(p[0].as_slice()) {
        Some(x) => Some(Some(x)),
        None => None,
    }
}

/// Put a message together from its header and parts.
pub fn assemble(header: &[u8], p: &Parts) -> (r: Option<Message>)
    requires
        header@.len() >= 4,
    ensures
        match r {
            Some(m) => assembled(header@, p@) == Some(m@),
            None => assembled(header@, p@) is None,
        },
{
    let queries = read_questions(&p.queries);
    let answers = read_section(&p.answers);
    let authorities = read_section(&p.authorities);
    let additionals = read_section(&p.additionals);
    let signature = read_single(&p.signature);
    match (queries, answers, authorities, additionals, signature) {
        (Some(queries), Some(answers), Some(authorities), Some(additionals), Some(signature)) => {
            let mut m = Message {
                metadata: read_header(header),
                queries,
                answers,
                authorities,
                additionals,
                edns: None,
                signature,
            };
            if p.opt.len() == 0 {
                return Some(m);
            }
            assert(p@.opt[0] == p.opt@[0]@);
            match read_opt(p.opt[0].as_slice()) {
                Some((ttl, edns)) => {
                    let low: u16 = m.metadata.response_code;
                    m.metadata.response_code = (((ttl >> 24) as u16) << 4) | low;
                    m.edns = Some(edns);
                    Some(m)
                },
                None => None,
            }
        },
        _ => None,
    }
}

/// Decode a message. What comes out can be written again, every part as it
/// stood.
pub fn decode(bytes: &[u8]) -> (r: Option<Message>)
    ensures
        match r {
            Some(m) => decoded(bytes@) == Some(m@) && disassembled(m@) == wire_parts(bytes@),
            None => decoded(bytes@) is None,
        },
{
    match split_message(bytes) {
        Some((queries, sections)) => {
            let mut sections = sections;
            let signature = sections.pop().unwrap();
            let opt = sections.pop().unwrap();
            let additionals = sections.pop().unwrap();
            let authorities = sections.pop().unwrap();
            let answers = sections.pop().unwrap();
            let parts = Parts { queries, answers, authorities, additionals, opt, signature };
            let r = assemble(bytes, &parts);
            proof {
                if r is Some {
                    law_decoded_written_again(bytes@, parts@);
                }
            }
            r
        },
        None => None,
    }
}

/// A record's wire form.
pub open spec fn wire_of_record(r: RecordV) -> Seq<u8> {
    record_wire(r.name.wire, r.record_type, r.class, r.ttl, r.data)
}

/// A question's wire form.
pub open spec fn wire_of_question(q: QueryV) -> Seq<u8> {
    question_wire(q.name.wire, q.query_type, q.query_class)
}

pub open spec fn wire_of_questions(q: Seq<QueryV>) -> Seq<Seq<u8>> {
    Seq::new(q.len(), |i: int| wire_of_question(q[i]))
}

pub open spec fn wire_of_section(r: Seq<RecordV>) -> Seq<Seq<u8>> {
    Seq::new(r.len(), |i: int| wire_of_record(r[i]))
}

/// Every record's data is short enough for its length field.
pub open spec fn fits(s: Seq<RecordV>) -> bool {
    forall|i: int| 0 <= i < s.len() ==> (#[trigger] s[i]).data.len() <= u16::MAX
}

/// Nothing in the message is too long for its length field.
pub open spec fn writable(m: MessageV) -> bool {
    &&& fits(m.answers)
    &&& fits(m.authorities)
    &&& fits(m.additionals)
    &&& m.edns is Some ==> m.edns->0.options.len() <= u16::MAX
    &&& m.signature is Some ==> m.signature->0.data.len() <= u16::MAX
}

/// A message's parts in wire form; `None` exactly where data is too long for
/// its length field.
pub open spec fn disassembled(m: MessageV) -> Option<PartsV> {
    if writable(m) {
        Some(
            PartsV {
                queries: wire_of_questions(m.queries),
                answers: wire_of_section(m.answers),
                authorities: wire_of_section(m.authorities),
                additionals: wire_of_section(m.additionals),
                opt: match m.edns {
                    Some(e) => seq![opt_wire(e, m.metadata.response_code)],
                    None => seq![],
                },
                signature: match m.signature {
                    Some(s) => seq![wire_of_record(s)],
                    None => seq![],
                },
            },
        )
    } else {
        None
    }
}

/// The wire form of a message.
pub open spec fn encoded(m: MessageV) -> Option<Seq<u8>> {
    match disassembled(m) {
        Some(p) => wire_bytes(header_wire(m.metadata), p),
        None => None,
    }
}

proof fn lemma_split16(b: Seq<u8>, i: int)
    requires
        0 <= i,
        i + 2 <= b.len(),
    ensures
        be16(u16_at(b, i)) == b.subrange(i, i + 2),
{
    let h = b[i];
    let l = b[i + 1];
    assert(((((h as u16) << 8) | (l as u16)) >> 8) as u8 == h) by (bit_vector);
    assert(((((h as u16) << 8) | (l as u16)) & 0xff) as u8 == l) by (bit_vector);
    assert(be16(u16_at(b, i)) =~= b.subrange(i, i + 2));
}

proof fn lemma_split32(b: Seq<u8>, i: int)
    requires
        0 <= i,
        i + 4 <= b.len(),
    ensures
        be32(u32_at(b, i)) == b.subrange(i, i + 4),
{
    lemma_split16(b, i);
    lemma_split16(b, i + 2);
    let h = u16_at(b, i);
    let l = u16_at(b, i + 2);
    assert(((((h as u32) << 16) | (l as u32)) >> 16) as u16 == h) by (bit_vector);
    assert(((((h as u32) << 16) | (l as u32)) & 0xffff) as u16 == l) by (bit_vector);
    assert(be32(u32_at(b, i)) =~= b.subrange(i, i + 4));
}

/// A question that was read is written as it stood.
pub proof fn law_question_written_again(b: Seq<u8>)
    requires
        question_fields(b) is Some,
    ensures
        ({
            let (n, query_type, query_class) = question_fields(b)->0;
            question_wire(n, query_type, query_class) == b
        }),
{
    lemma_name_end(b, 0);
    let e = name_end(b, 0)->0;
    lemma_split16(b, e);
    lemma_split16(b, e + 2);
    assert(question_wire(b.take(e), u16_at(b, e), u16_at(b, e + 2)) =~= b);
}

/// A record that was read is written as it stood.
pub proof fn law_record_written_again(b: Seq<u8>)
    requires
        record_fields(b) is Some,
    ensures
        ({
            let (n, record_type, class, ttl, data) = record_fields(b)->0;
            record_wire(n, record_type, class, ttl, data) == b && data.len() <= u16::MAX
        }),
{
    lemma_name_end(b, 0);
    let e = name_end(b, 0)->0;
    lemma_split16(b, e);
    lemma_split16(b, e + 2);
    lemma_split32(b, e + 4);
    lemma_split16(b, e + 8);
    let data = b.skip(e + 10);
    assert(data.len() == u16_at(b, e + 8));
    assert(record_wire(b.take(e), u16_at(b, e), u16_at(b, e + 2), u32_at(b, e + 4), data) =~= b);
}

proof fn lemma_questions_again(p: Seq<Seq<u8>>)
    requires
        questions_of(p) is Some,
    ensures
        wire_of_questions(questions_of(p)->0) == p,
    decreases p.len(),
{
    let q = questions_of(p)->0;
    if p.len() > 0 {
        lemma_questions_again(p.drop_last());
        law_question_written_again(p.last());
        let before = questions_of(p.drop_last())->0;
        assert(wire_of_questions(q) =~= wire_of_questions(before).push(wire_of_question(q.last())));
        assert(p =~= p.drop_last().push(p.last()));
    } else {
        assert(wire_of_questions(q) =~= p);
    }
}

proof fn lemma_section_again(p: Seq<Seq<u8>>)
    requires
        section_of(p) is Some,
    ensures
        fits(section_of(p)->0),
        wire_of_section(section_of(p)->0) == p,
    decreases p.len(),
{
    let r = section_of(p)->0;
    if p.len() > 0 {
        lemma_section_again(p.drop_last());
        law_record_written_again(p.last());
        let before = section_of(p.drop_last())->0;
        assert(r == before.push(r.last()));
        assert(wire_of_section(r) =~= wire_of_section(before).push(wire_of_record(r.last())));
        assert(p =~= p.drop_last().push(p.last()));
    } else {
        assert(wire_of_section(r) =~= p);
    }
}

proof fn lemma_opt_again(b: Seq<u8>, low: u16)
    requires
        record_fields(b) is Some,
        b.take(3) == seq![0u8, 0u8, 41u8],
        low <= 15,
    ensures
        ({
            let (_, _, class, ttl, data) = record_fields(b)->0;
            opt_wire(opt_fields(class, ttl, data), (((ttl >> 24) as u16) << 4) | low) == b
        }),
{
    law_record_written_again(b);
    let (n, t, class, ttl, data) = record_fields(b)->0;
    assert(b[0] == 0 && b[1] == 0 && b[2] == 41) by {
        assert(b.take(3)[0] == b[0] && b.take(3)[1] == b[1] && b.take(3)[2] == b[2]);
    }
    assert(n =~= seq![0u8]);
    assert(((0u8 as u16) << 8) | (41u8 as u16) == 41) by (bit_vector);
    assert(t == TYPE_OPT);
    let code = (((ttl >> 24) as u16) << 4) | low;
    assert(((code & 0x0ff0) >> 4) as u8 == (ttl >> 24) as u8) by (bit_vector)
        requires
            low <= 15,
            code == (((ttl >> 24) as u16) << 4) | low,
    ;
    let h = (ttl >> 24) as u8;
    let v = ((ttl >> 16) & 0xff) as u8;
    let d: u32 = if ttl & 0x8000 != 0 {
        0x8000
    } else {
        0
    };
    let z = (ttl & 0x7fff) as u16;
    assert(((h as u32) << 24) | ((v as u32) << 16) | d | ((z & 0x7fff) as u32) == ttl)
        by (bit_vector)
        requires
            h == (ttl >> 24) as u8,
            v == ((ttl >> 16) & 0xff) as u8,
            d == 0x8000 || d == 0,
            (d == 0x8000) == (ttl & 0x8000 != 0),
            z == (ttl & 0x7fff) as u16,
    ;
    assert(opt_ttl(opt_fields(class, ttl, data), code) == ttl);
}

/// A message that was read can be written again: every question and record,
/// and the TSIG record, goes out byte for byte as it stood, whatever its names
/// hold, and so does the OPT pseudo-record of a message that has one.
pub proof fn law_decoded_written_again(header: Seq<u8>, p: PartsV)
    requires
        assembled(header, p) is Some,
        single_parts(p),
    ensures
        disassembled(assembled(header, p)->0) == Some(p),
{
    let m = assembled(header, p)->0;
    lemma_questions_again(p.queries);
    lemma_section_again(p.answers);
    lemma_section_again(p.authorities);
    lemma_section_again(p.additionals);
    let g = header[3];
    assert((g & 0x0f) as u16 <= 15) by (bit_vector);
    if p.opt.len() == 1 {
        law_record_written_again(p.opt[0]);
        lemma_opt_again(p.opt[0], header_fields(header).response_code);
    }
    if p.signature.len() == 1 {
        law_record_written_again(p.signature[0]);
    }
    assert(disassembled(m)->0 =~~= p);
}

fn write_record(
    name: &[u8],
    record_type: u16,
    class: u16,
    ttl: u32,
    data: &Vec<u8>,
) -> (r: Vec<u8>)
    requires
        data@.len() <= u16::MAX,
    ensures
        r@ == record_wire(name@, record_type, class, ttl, data@),
{
    let mut out: Vec<u8> = Vec::new();
    push_bytes(&mut out, name);
    push_u16(&mut out, record_type);
    push_u16(&mut out, class);
    push_u32(&mut out, ttl);
    push_u16(&mut out, data.len() as u16);
    push_bytes(&mut out, data.as_slice());
    assert(out@ == record_wire(name@, record_type, class, ttl, data@));
    out
}

fn write_questions(v: &Vec<Query>) -> (r: Vec<Vec<u8>>)
    ensures
        bytes_of(r@) == wire_of_questions(queries_of(v@)),
{
    let mut out: Vec<Vec<u8>> = Vec::new();
    let n: usize = v.len();
    let ghost all = wire_of_questions(queries_of(v@));
    for i in 0..n
        invariant
            n == v@.len(),
            all == wire_of_questions(queries_of(v@)),
            bytes_of(out@) == all.take(i as int),
    {
        let q = &v[i];
        let mut b: Vec<u8> = Vec::new();
        push_bytes(&mut b, q.name.wire.as_slice());
        push_u16(&mut b, q.query_type);
        push_u16(&mut b, q.query_class);
        assert(b@ == wire_of_question(q@));
        let ghost before = out@;
        out.push(b);
        assert(bytes_of(out@) == bytes_of(before).push(b@));
        assert(all.take(i + 1) == all.take(i as int).push(all[i as int]));
    }
    assert(all.take(n as int) == all);
    out
}

fn write_section(v: &Vec<Record>) -> (r: Option<Vec<Vec<u8>>>)
    ensures
        match r {
            Some(p) => fits(records_of(v@)) && bytes_of(p@) == wire_of_section(records_of(v@)),
            None => !fits(records_of(v@)),
        },
{
    let mut out: Vec<Vec<u8>> = Vec::new();
    let n: usize = v.len();
    let ghost all = wire_of_section(records_of(v@));
    for i in 0..n
        invariant
            n == v@.len(),
            all == wire_of_section(records_of(v@)),
            fits(records_of(v@).take(i as int)),
            bytes_of(out@) == all.take(i as int),
    {
        let x = &v[i];
        assert(records_of(v@)[i as int] == x@);
        if x.data.len() > 65535 {
            return None;
        }
        let b = write_record(x.name.wire.as_slice(), x.record_type, x.class, x.ttl, &x.data);
        let ghost before = out@;
        out.push(b);
        proof {
            assert(bytes_of(out@) == bytes_of(before).push(b@));
            assert(all.take(i + 1) == all.take(i as int).push(all[i as int]));
            let some = records_of(v@).take(i + 1);
            assert(some == records_of(v@).take(i as int).push(x@));
        }
    }
    assert(all.take(n as int) == all);
    assert(records_of(v@).take(n as int) == records_of(v@));
    Some(out)
}

fn write_header(m: &Metadata) -> (r: Vec<u8>)
    ensures
        r@ == header_wire(*m),
{
    let mut out: Vec<u8> = Vec::new();
    push_u16(&mut out, m.id);
    let response = match m.message_type {
        MessageType::Response => true,
        MessageType::Query => false,
    };
    out.push(
        (if response {
            0x80u8
        } else {
            0u8
        }) | ((m.op_code & 0x0f) << 3) | (if m.authoritative {
            0x04u8
        } else {
            0u8
        }) | (if m.truncation {
            0x02u8
        } else {
            0u8
        }) | (if m.recursion_desired {
            0x01u8
        } else {
            0u8
        }),
    );
    out.push(
        (if m.recursion_available {
            0x80u8
        } else {
            0u8
        }) | (if m.authentic_data {
            0x20u8
        } else {
            0u8
        }) | (if m.checking_disabled {
            0x10u8
        } else {
            0u8
        }) | (m.response_code & 0x0f) as u8,
    );
    let ghost start = out@;
    for i in 0..8usize
        invariant
            out@ == start + Seq::new(i as nat, |k: int| 0u8),
    {
        out.push(0);
    }
    assert(out@ == header_wire(*m));
    out
}

/// Take a message apart into its wire parts.
pub fn disassemble(m: &Message) -> (r: Option<Parts>)
    ensures
        match r {
            Some(p) => disassembled(m@) == Some(p@),
            None => disassembled(m@) is None,
        },
{
    let queries = write_questions(&m.queries);
    let answers = write_section(&m.answers);
    let authorities = write_section(&m.authorities);
    let additionals = write_section(&m.additionals);
    match (answers, authorities, additionals) {
        (Some(answers), Some(authorities), Some(additionals)) => {
            let mut opt: Vec<Vec<u8>> = Vec::new();
            assert(bytes_of(opt@) == Seq::<Seq<u8>>::empty());
            if let Some(e) = &m.edns {
                if e.options.len() > 65535 {
                    return None;
                }
                let high: u8 = ((m.metadata.response_code & 0x0ff0) >> 4) as u8;
                let ttl: u32 = ((high as u32) << 24) | ((e.version as u32) << 16) | (
                if e.dnssec_ok {
                    0x8000u32
                } else {
                    0u32
                }) | ((e.z & 0x7fff) as u32);
                let root: [u8; 1] = [0u8];
                let b = write_record(&root, TYPE_OPT, e.max_payload, ttl, &e.options);
                assert(root@ == seq![0u8]);
                assert(b@ == opt_wire(e@, m.metadata.response_code));
                opt.push(b);
                assert(bytes_of(opt@) == seq![b@]);
            }
            let mut signature: Vec<Vec<u8>> = Vec::new();
            assert(bytes_of(signature@) == Seq::<Seq<u8>>::empty());
            if let Some(x) = &m.signature {
                if x.data.len() > 65535 {
                    return None;
                }
                let wire = x.name.wire.as_slice();
                let b = write_record(wire, x.record_type, x.class, x.ttl, &x.data);
                signature.push(b);
                assert(bytes_of(signature@) == seq![b@]);
            }
            Some(Parts { queries, answers, authorities, additionals, opt, signature })
        },
        _ => None,
    }
}

/// Encode a message.
pub fn encode(m: &Message) -> (r: Option<Vec<u8>>)
    ensures
        match r {
            Some(b) => encoded(m@) == Some(b@) && b@.len() <= 65535,
            None => encoded(m@) is None,
        },
{
    match disassemble(m) {
        Some(p) => {
            let header = write_header(&m.metadata);
            join_message(header.as_slice(), &p)
        },
        None => None,
    }
}

/// Presentation form of a name with the spelling hickory gives it, lowercased;
/// `None` where the text is no name.
pub open spec fn canonical_name(text: Seq<char>) -> Option<Seq<char>> {
    match named(text) {
        Some(n) => Some(crate::text::lower(n.text)),
        None => None,
    }
}

pub fn canonical_name_of(text: &str) -> (r: Option<String>)
    ensures
        match r {
            Some(s) => canonical_name(text@) == Some(s@),
            None => canonical_name(text@) is None,
        },
{
    match Name::from_ascii(text) {
        Some(n) => {
            let cs = crate::text::chars_of(n.text.as_str());
            let low = crate::text::lowered(cs.as_slice());
            Some(crate::text::string_of(low.as_slice()))
        },
        None => None,
    }
}

} // verus!
