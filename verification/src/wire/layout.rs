//! Where everything stands in a message's wire form, byte by byte.
use vstd::prelude::*;

use crate::message::{EdnsV, MessageType, MessageV, Metadata};
use crate::wire::{assembled, be16, be32, code_high, decoded, disassembled, flags_high, flags_low};
use crate::wire::{header_fields, header_wire, name_end, opt_ttl, opt_wire, question_of};
use crate::wire::{question_wire, questions_of, record_of, record_wire, section_of, u16_at, u32_at};
use crate::wire::{fits, record_fields, wire_of_question, wire_of_record, wire_parts, writable, PartsV};

verus! {

proof fn lemma_halves16(x: u16)
    ensures
        (x >> 8) as u8 == x / 256,
        (x & 0xff) as u8 == x % 256,
{
    assert((x >> 8) as u8 == x / 256 && (x & 0xff) as u8 == x % 256) by (bit_vector);
}

/// Numbers are written with the byte of the most weight first.
pub proof fn law_big_endian(x: u16, y: u32)
    ensures
        be16(x).len() == 2 && 256 * be16(x)[0] + be16(x)[1] == x,
        be32(y).len() == 4 && 0x100_0000 * be32(y)[0] + 0x1_0000 * be32(y)[1] + 0x100 * be32(y)[2]
            + be32(y)[3] == y,
{
    let (h, l) = ((y >> 16) as u16, (y & 0xffff) as u16);
    assert((y >> 16) as u16 == y / 0x1_0000 && (y & 0xffff) as u16 == y % 0x1_0000)
        by (bit_vector);
    lemma_halves16(x);
    lemma_halves16(h);
    lemma_halves16(l);
    assert(be32(y)[0] == h / 256 && be32(y)[1] == h % 256 && be32(y)[2] == l / 256 && be32(y)[3]
        == l % 256);
    assert(256 * (h / 256) + h % 256 == h && 256 * (l / 256) + l % 256 == l);
    assert(0x1_0000 * h + l == y);
}

/// And read so.
pub proof fn law_big_endian_read(b: Seq<u8>, i: int)
    ensures
        u16_at(b, i) == 256 * b[i] + b[i + 1],
        u32_at(b, i) == 0x100_0000 * b[i] + 0x1_0000 * b[i + 1] + 0x100 * b[i + 2] + b[i + 3],
{
    let (p, q, r, s) = (b[i], b[i + 1], b[i + 2], b[i + 3]);
    assert(((p as u16) << 8) | (q as u16) == 256 * p + q) by (bit_vector);
    assert(((r as u16) << 8) | (s as u16) == 256 * r + s) by (bit_vector);
    let (h, l) = (u16_at(b, i), u16_at(b, i + 2));
    assert(((h as u32) << 16) | (l as u32) == 0x1_0000 * h + l) by (bit_vector);
}

/// A bit as a number.
pub open spec fn bit(set: bool) -> int {
    if set {
        1
    } else {
        0
    }
}

/// The header: the id, then from the highest bit down QR, four bits of opcode,
/// AA, TC and RD; RA, a bit that is clear, AD, CD and the low four bits of the
/// response code; and four counts, all zero.
pub proof fn law_header_layout(m: Metadata)
    requires
        m.op_code <= 15,
    ensures
        ({
            let b = header_wire(m);
            &&& b.len() == 12
            &&& 256 * b[0] + b[1] == m.id
            &&& b[2] == 128 * bit(m.message_type == MessageType::Response) + 8 * m.op_code + 4
                * bit(m.authoritative) + 2 * bit(m.truncation) + bit(m.recursion_desired)
            &&& b[3] == 128 * bit(m.recursion_available) + 32 * bit(m.authentic_data) + 16 * bit(
                m.checking_disabled,
            ) + m.response_code % 16
            &&& forall|i: int| 4 <= i < 12 ==> #[trigger] b[i] == 0
        }),
{
    let b = header_wire(m);
    law_big_endian(m.id, 0);
    assert(b[0] == be16(m.id)[0] && b[1] == be16(m.id)[1]);
    assert(b[2] == flags_high(m) && b[3] == flags_low(m));
    lemma_high(
        if m.message_type == MessageType::Response {
            0x80u8
        } else {
            0u8
        },
        m.op_code,
        if m.authoritative {
            0x04u8
        } else {
            0u8
        },
        if m.truncation {
            0x02u8
        } else {
            0u8
        },
        if m.recursion_desired {
            0x01u8
        } else {
            0u8
        },
    );
    lemma_low(
        if m.recursion_available {
            0x80u8
        } else {
            0u8
        },
        if m.authentic_data {
            0x20u8
        } else {
            0u8
        },
        if m.checking_disabled {
            0x10u8
        } else {
            0u8
        },
        m.response_code,
    );
}

proof fn lemma_high(q: u8, o: u8, a: u8, t: u8, r: u8)
    by (bit_vector)
    requires
        q == 0 || q == 0x80,
        o <= 15,
        a == 0 || a == 4,
        t == 0 || t == 2,
        r == 0 || r == 1,
    ensures
        q | ((o & 0x0f) << 3) | a | t | r == q + 8 * o + a + t + r,
{
}

proof fn lemma_low(a: u8, d: u8, c: u8, code: u16)
    by (bit_vector)
    requires
        a == 0 || a == 0x80,
        d == 0 || d == 0x20,
        c == 0 || c == 0x10,
    ensures
        a | d | c | (code & 0x0f) as u8 == a + d + c + code % 16,
{
}

/// What a header says is read from the same places.
pub proof fn law_header_read(b: Seq<u8>)
    ensures
        ({
            let m = header_fields(b);
            &&& m.id == 256 * b[0] + b[1]
            &&& (m.message_type == MessageType::Response) == (b[2] >= 128)
            &&& m.op_code == (b[2] / 8) % 16
            &&& m.authoritative == ((b[2] / 4) % 2 == 1)
            &&& m.truncation == ((b[2] / 2) % 2 == 1)
            &&& m.recursion_desired == (b[2] % 2 == 1)
            &&& m.recursion_available == (b[3] >= 128)
            &&& m.authentic_data == ((b[3] / 32) % 2 == 1)
            &&& m.checking_disabled == ((b[3] / 16) % 2 == 1)
            &&& m.response_code == b[3] % 16
        }),
{
    let (f, g) = (b[2], b[3]);
    law_big_endian_read(b, 0);
    assert((f & 0x80 != 0) == (f >= 128) && (f >> 3) & 0x0f == (f / 8) % 16 && (f & 0x04 != 0) == ((f
        / 4) % 2 == 1) && (f & 0x02 != 0) == ((f / 2) % 2 == 1) && (f & 0x01 != 0) == (f % 2 == 1))
        by (bit_vector);
    assert((g & 0x80 != 0) == (g >= 128) && (g & 0x20 != 0) == ((g / 32) % 2 == 1) && (g & 0x10
        != 0) == ((g / 16) % 2 == 1) && (g & 0x0f) as u16 == g % 16) by (bit_vector);
}

/// The OPT pseudo-record: the root name, type 41, the payload size where the
/// class would be; then the high eight bits of the response code, the version,
/// the DO bit and fifteen more flags where the time to live would be; then the
/// options.
pub proof fn law_opt_layout(e: EdnsV, response_code: u16)
    requires
        e.z <= 0x7fff,
        response_code <= 0x0fff,
    ensures
        opt_ttl(e, response_code) == 0x100_0000 * (response_code / 16) + 0x1_0000 * e.version
            + 0x8000 * bit(e.dnssec_ok) + e.z,
        opt_wire(e, response_code) == record_wire(
            seq![0u8],
            41,
            e.max_payload,
            opt_ttl(e, response_code),
            e.options,
        ),
{
    let (v, z, d) = (
        e.version,
        e.z,
        if e.dnssec_ok {
            0x8000u32
        } else {
            0u32
        },
    );
    let h = code_high(response_code);
    assert(((response_code & 0x0ff0) >> 4) as u8 == response_code / 16) by (bit_vector)
        requires
            response_code <= 0x0fff,
    ;
    assert(((h as u32) << 24) | ((v as u32) << 16) | d | ((z & 0x7fff) as u32) == 0x100_0000 * h
        + 0x1_0000 * v + d + z) by (bit_vector)
        requires
            z <= 0x7fff,
            d == 0 || d == 0x8000,
    ;
}

/// A question is its name, its type and its class; a record its name, type,
/// class, time to live, the length of its data, and the data.
pub proof fn law_record_layout(
    name: Seq<u8>,
    record_type: u16,
    class: u16,
    ttl: u32,
    data: Seq<u8>,
)
    requires
        data.len() <= u16::MAX,
    ensures
        question_wire(name, record_type, class) == name + be16(record_type) + be16(class),
        ({
            let b = record_wire(name, record_type, class, ttl, data);
            let e = name.len() as int;
            &&& b.len() == e + 10 + data.len()
            &&& b.take(e) == name
            &&& b.subrange(e, e + 2) == be16(record_type)
            &&& b.subrange(e + 2, e + 4) == be16(class)
            &&& b.subrange(e + 4, e + 8) == be32(ttl)
            &&& b.subrange(e + 8, e + 10) == be16(data.len() as u16)
            &&& b.skip(e + 10) == data
        }),
{
    let b = record_wire(name, record_type, class, ttl, data);
    let e = name.len() as int;
    assert(be32(ttl).len() == 4);
    assert(b.take(e) =~= name);
    assert(b.subrange(e, e + 2) =~= be16(record_type));
    assert(b.subrange(e + 2, e + 4) =~= be16(class));
    assert(b.subrange(e + 4, e + 8) =~= be32(ttl));
    assert(b.subrange(e + 8, e + 10) =~= be16(data.len() as u16));
    assert(b.skip(e + 10) =~= data);
}

/// A name of some labels: each behind its length, and a zero at the end.
pub open spec fn labels_bytes(labels: Seq<Seq<u8>>) -> Seq<u8>
    decreases labels.len(),
{
    if labels.len() == 0 {
        seq![0u8]
    } else {
        seq![labels[0].len() as u8] + labels[0] + labels_bytes(labels.drop_first())
    }
}

/// Every name of labels of 1 to 63 bytes is found to end where it ends,
/// whatever stands before and after it; one that is cut short has no end.
pub proof fn law_name_found(before: Seq<u8>, labels: Seq<Seq<u8>>, after: Seq<u8>)
    requires
        forall|i: int| 0 <= i < labels.len() ==> 1 <= (#[trigger] labels[i]).len() <= 63,
    ensures
        name_end(before + labels_bytes(labels) + after, before.len() as int) == Some(
            (before.len() + labels_bytes(labels).len()) as int,
        ),
        labels_bytes(labels).len() > 0,
    decreases labels.len(),
{
    let w = labels_bytes(labels);
    let b = before + w + after;
    let i = before.len() as int;
    if labels.len() == 0 {
        assert(b[i] == w[0]);
    } else {
        let l = labels[0];
        let rest = labels.drop_first();
        assert forall|k: int| 0 <= k < rest.len() implies 1 <= (#[trigger] rest[k]).len() <= 63 by {
            assert(rest[k] == labels[k + 1]);
        }
        let next = before + seq![l.len() as u8] + l;
        law_name_found(next, rest, after);
        assert(next + labels_bytes(rest) + after =~= b);
        assert(b[i] == w[0]);
        assert(w[0] == l.len() as u8);
        assert(next.len() == i + 1 + b[i]);
    }
}

/// A length above 63 ends the search, and so does the end of the bytes.
pub proof fn law_no_name(b: Seq<u8>, i: int)
    requires
        0 <= i <= b.len(),
        i == b.len() || b[i] > 63 || (b[i] > 0 && i + 1 + b[i] >= b.len()),
    ensures
        name_end(b, i) is None,
{
}

proof fn lemma_sections_of(p: Seq<Seq<u8>>)
    ensures
        section_of(p) is Some == (forall|i: int|
            0 <= i < p.len() ==> record_of(#[trigger] p[i]) is Some),
        section_of(p) matches Some(s) ==> s.len() == p.len() && forall|i: int|
            0 <= i < p.len() ==> record_of(p[i]) == Some(#[trigger] s[i]),
    decreases p.len(),
{
    if p.len() > 0 {
        let t = p.drop_last();
        lemma_sections_of(t);
        assert(p[p.len() - 1] == p.last());
        assert forall|i: int| 0 <= i < t.len() implies #[trigger] t[i] == p[i] by {}
        if section_of(t) is Some && record_of(p.last()) is Some {
            let (a, s) = (section_of(t)->0, section_of(p)->0);
            assert forall|i: int| 0 <= i < p.len() implies record_of(p[i]) == Some(
                #[trigger] s[i],
            ) by {
                if i < t.len() {
                    assert(s[i] == a[i]);
                    assert(t[i] == p[i]);
                }
            }
            assert forall|i: int| 0 <= i < p.len() implies record_of(#[trigger] p[i]) is Some by {
                assert(record_of(p[i]) == Some(s[i]));
            }
        }
        if forall|i: int| 0 <= i < p.len() ==> record_of(#[trigger] p[i]) is Some {
            assert(record_of(p[p.len() - 1]) is Some);
            assert forall|i: int| 0 <= i < t.len() implies record_of(#[trigger] t[i]) is Some by {
                assert(t[i] == p[i]);
            }
        }
    }
}

proof fn lemma_questions_of(p: Seq<Seq<u8>>)
    ensures
        questions_of(p) matches Some(s) ==> s.len() == p.len() && forall|i: int|
            0 <= i < p.len() ==> question_of(p[i]) == Some(#[trigger] s[i]),
    decreases p.len(),
{
    if p.len() > 0 {
        let t = p.drop_last();
        lemma_questions_of(t);
        if questions_of(p) is Some {
            let (a, s) = (questions_of(t)->0, questions_of(p)->0);
            assert forall|i: int| 0 <= i < p.len() implies question_of(p[i]) == Some(
                #[trigger] s[i],
            ) by {
                if i < t.len() {
                    assert(s[i] == a[i]);
                    assert(t[i] == p[i]);
                }
            }
        }
    }
}

/// A message that was read has every question and record of the bytes, each in
/// its section and place; its header is the bytes' own, with the high bits of
/// the response code, where there is an OPT pseudo-record, from there.
pub proof fn law_read_whole(header: Seq<u8>, p: PartsV, m: MessageV)
    requires
        assembled(header, p) == Some(m),
    ensures
        m.queries.len() == p.queries.len(),
        forall|i: int|
            0 <= i < p.queries.len() ==> question_of(p.queries[i]) == Some(#[trigger] m.queries[i]),
        m.answers.len() == p.answers.len(),
        forall|i: int|
            0 <= i < p.answers.len() ==> record_of(p.answers[i]) == Some(#[trigger] m.answers[i]),
        m.authorities.len() == p.authorities.len(),
        forall|i: int|
            0 <= i < p.authorities.len() ==> record_of(p.authorities[i]) == Some(
                #[trigger] m.authorities[i],
            ),
        m.additionals.len() == p.additionals.len(),
        forall|i: int|
            0 <= i < p.additionals.len() ==> record_of(p.additionals[i]) == Some(
                #[trigger] m.additionals[i],
            ),
        m.edns is Some == (p.opt.len() > 0),
        m.signature is Some == (p.signature.len() > 0),
        p.signature.len() > 0 ==> record_of(p.signature[0]) == m.signature,
        m.metadata == (Metadata {
            response_code: m.metadata.response_code,
            ..header_fields(header)
        }),
        p.opt.len() == 0 ==> m.metadata.response_code == header_fields(header).response_code,
        m.metadata.response_code % 16 == header[3] % 16,
{
    lemma_questions_of(p.queries);
    lemma_sections_of(p.answers);
    lemma_sections_of(p.authorities);
    lemma_sections_of(p.additionals);
    law_header_read(header);
    let g = header[3];
    if p.opt.len() > 0 {
        let (_, _, _, ttl, _) = record_fields(p.opt[0])->0;
        let low = (g & 0x0f) as u16;
        assert(((((ttl >> 24) as u16) << 4) | low) % 16 == low) by (bit_vector)
            requires
                low == (g & 0x0f) as u16,
        ;
    }
}

/// A message that is written has every question and record of it, each in its
/// section and place; it is left unwritten only where some data is too long.
pub proof fn law_written_whole(m: MessageV)
    ensures
        disassembled(m) is Some == writable(m),
        disassembled(m) matches Some(p) ==> {
            &&& p.queries.len() == m.queries.len()
            &&& forall|i: int|
                0 <= i < m.queries.len() ==> #[trigger] p.queries[i] == wire_of_question(
                    m.queries[i],
                )
            &&& p.answers.len() == m.answers.len()
            &&& forall|i: int|
                0 <= i < m.answers.len() ==> #[trigger] p.answers[i] == wire_of_record(m.answers[i])
            &&& p.authorities.len() == m.authorities.len()
            &&& forall|i: int|
                0 <= i < m.authorities.len() ==> #[trigger] p.authorities[i] == wire_of_record(
                    m.authorities[i],
                )
            &&& p.additionals.len() == m.additionals.len()
            &&& forall|i: int|
                0 <= i < m.additionals.len() ==> #[trigger] p.additionals[i] == wire_of_record(
                    m.additionals[i],
                )
            &&& m.edns is Some == (p.opt.len() == 1) && m.edns is None == (p.opt.len() == 0)
            &&& m.edns is Some ==> p.opt[0] == opt_wire(m.edns->0, m.metadata.response_code)
            &&& m.signature is Some == (p.signature.len() == 1) && m.signature is None == (
            p.signature.len() == 0)
            &&& m.signature is Some ==> p.signature[0] == wire_of_record(m.signature->0)
        },
        forall|i: int|
            writable(m) && 0 <= i < m.answers.len() ==> (#[trigger] m.answers[i]).data.len()
                <= 65535,
{
    assert(writable(m) ==> fits(m.answers));
}

/// Bytes are a message exactly where hickory takes them apart and the parts can
/// be read; nothing else is asked of them.
pub proof fn law_decoded(bytes: Seq<u8>, p: PartsV)
    ensures
        wire_parts(bytes) is None ==> decoded(bytes) is None,
        wire_parts(bytes) == Some(p) ==> decoded(bytes) == assembled(bytes, p),
        assembled(bytes, p) is Some ==> section_of(p.answers) is Some && questions_of(p.queries)
            is Some,
{
}

} // verus!
