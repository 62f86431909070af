use vstd::prelude::*;
use crate::protocol::address::{
    lemma_ipv4_by_octets, lemma_ipv6_by_segments, Ipv4Address, Ipv6Address,
};
use crate::protocol::byte_packet_buffer::{wrote, BytePacketBuffer};
use crate::protocol::dnsheader::{
    bit, flags_hi, flags_lo, header_at, header_of, header_wire, DnsHeader,
};
use crate::protocol::dnspacket::{
    lemma_question_piece, lemma_questions_first, lemma_records_first, packet_at, questions_at,
    questions_piece, records_at, records_piece, PacketView,
};
use crate::protocol::dnsquestion::{question_at, QuestionView};
use crate::protocol::dnsrecord::{
    data_at, ipv4_at, ipv6_at, ipv6_wire, lemma_record_piece, record_at, RecordView,
};
use crate::protocol::error::DnsError;
use crate::protocol::name::{lemma_name_piece, name_at, name_piece};
use crate::protocol::name_theorems::{lemma_name_round_trip, plain_name};
use crate::protocol::querytype::QueryType;
use crate::protocol::resultcode::ResultCode;
use crate::protocol::wire::{
    holds, lemma_holds_bounds, lemma_holds_split, lemma_holds_u16, lemma_holds_u32,
    lemma_overlay_holds, u16_at, u16_wire, u32_at, u32_wire, Piece, CAPACITY,
};

verus! {

/// The first flag byte gives back each of the five fields packed into it.
proof fn lemma_flags_hi(rd: u8, tc: u8, aa: u8, opcode: u8, qr: u8, a: u8)
    by (bit_vector)
    requires
        rd <= 1,
        tc <= 1,
        aa <= 1,
        qr <= 1,
        opcode < 16,
        a == rd | (tc << 1) | (aa << 2) | ((opcode & 0x0F) << 3) | (qr << 7),
    ensures
        ((a & 0x01) > 0) == (rd == 1),
        ((a & 0x02) > 0) == (tc == 1),
        ((a & 0x04) > 0) == (aa == 1),
        (a >> 3) & 0x0F == opcode,
        ((a & 0x80) > 0) == (qr == 1),
{
}

/// The second flag byte gives back the two fields packed into it.
proof fn lemma_flags_lo(code: u8, ra: u8, b: u8)
    by (bit_vector)
    requires
        ra <= 1,
        code < 16,
        b == code | (ra << 7),
    ensures
        b & 0x0F == code,
        ((b & 0x80) > 0) == (ra == 1),
{
}

/// A datagram that holds the twelve bytes of a header gives that header back.
pub proof fn lemma_header_round_trip(h: DnsHeader, buf: Seq<u8>, pos: int)
    requires
        h.opcode < 16,
        holds(buf, pos, header_wire(h)),
    ensures
        header_of(buf, pos) == h,
{
    let w = header_wire(h);
    assert(w.len() == 12);
    reveal(holds);
    assert(buf[pos + 0] == w[0] && buf[pos + 1] == w[1] && buf[pos + 2] == w[2] && buf[pos + 3] == w[3]);
    assert(buf[pos + 4] == w[4] && buf[pos + 5] == w[5] && buf[pos + 6] == w[6] && buf[pos + 7] == w[7]);
    assert(buf[pos + 8] == w[8] && buf[pos + 9] == w[9] && buf[pos + 10] == w[10] && buf[pos + 11]
        == w[11]);
    assert(w[0] == u16_wire(h.id)[0] && w[1] == u16_wire(h.id)[1]);
    assert(w[2] == flags_hi(h) && w[3] == flags_lo(h));
    assert(w[4] == u16_wire(h.questions)[0] && w[5] == u16_wire(h.questions)[1]);
    assert(w[6] == u16_wire(h.answers)[0] && w[7] == u16_wire(h.answers)[1]);
    assert(w[8] == u16_wire(h.authoritative_entries)[0] && w[9] == u16_wire(h.authoritative_entries)[1]);
    assert(w[10] == u16_wire(h.resource_entries)[0] && w[11] == u16_wire(h.resource_entries)[1]);
    lemma_flags_hi(
        bit(h.recursion_desired),
        bit(h.truncated_message),
        bit(h.authoritative_answer),
        h.opcode,
        bit(h.response),
        flags_hi(h),
    );
    ResultCode::lemma_of_code_code(h.rescode);
    lemma_flags_lo(h.rescode.code(), bit(h.recursion_available), flags_lo(h));
}

/// A header that was written and is read again from where it stands is the same header,
/// whatever its flags, its response code and its counts, and whatever its opcode of four
/// bits; reading leaves the cursor where writing left it.
pub proof fn theorem_header_round_trip(
    h: DnsHeader,
    before: &BytePacketBuffer,
    after: &BytePacketBuffer,
)
    requires
        h.opcode < 16,
        wrote(before, after, Ok(()), Piece::plain(header_wire(h))),
    ensures
        header_at(after.buf@, before.pos as int) == Ok::<(DnsHeader, int), DnsError>((h, after.pos as int)),
{
    assert(header_wire(h).len() == 12);
    lemma_overlay_holds(before.buf@, before.pos as int, header_wire(h));
    lemma_header_round_trip(h, after.buf@, before.pos as int);
}

/// A question that decoding gives back as it was encoded: its name is plain and its type is
/// not written as `Unknown` where it has a name of its own.
pub open spec fn plain_question(q: QuestionView) -> bool {
    plain_name(q.name) && q.qtype.canonical()
}

/// A record that decoding gives back as it was encoded: it is of a decoded type and all its
/// names are plain.
pub open spec fn plain_record(r: RecordView) -> bool {
    match r {
        RecordView::Unknown { .. } => false,
        RecordView::A { domain, .. } => plain_name(domain),
        RecordView::NS { domain, host, .. } => plain_name(domain) && plain_name(host),
        RecordView::Cname { domain, host, .. } => plain_name(domain) && plain_name(host),
        RecordView::Soa { domain, mname, rname, .. } => plain_name(domain) && plain_name(mname)
            && plain_name(rname),
        RecordView::MX { domain, host, .. } => plain_name(domain) && plain_name(host),
        RecordView::Txt { domain, text, .. } => plain_name(domain) && plain_name(text),
        RecordView::Aaaa { domain, .. } => plain_name(domain),
    }
}

/// The last thing in the data of the record is a name.
pub open spec fn ends_in_name(r: RecordView) -> bool {
    r is NS || r is Cname || r is MX || r is Txt
}

/// A plain question that stands in a datagram is read back as it is.
pub proof fn lemma_question_round_trip(buf: Seq<u8>, pos: int, q: QuestionView)
    requires
        buf.len() == CAPACITY,
        0 <= pos,
        plain_question(q),
        holds(buf, pos, q.piece().wire),
    ensures
        q.piece().bad is None,
        q.piece().wire.len() >= 6,
        question_at(buf, pos) == Ok::<(QuestionView, int), DnsError>((q, pos + q.piece().wire.len())),
{
    let name = name_piece(q.name);
    lemma_name_piece(q.name);
    lemma_holds_split(buf, pos, name.wire, u16_wire(q.qtype.code()) + u16_wire(1));
    lemma_name_round_trip(buf, pos, q.name);
    lemma_holds_u16(buf, pos + name.wire.len(), q.qtype.code(), u16_wire(1));
}

/// The start of a plain record that stands in a datagram is read back as it is, and the data
/// of the record stands behind it.
pub proof fn lemma_head_round_trip(buf: Seq<u8>, pos: int, r: RecordView)
    requires
        buf.len() == CAPACITY,
        0 <= pos,
        plain_record(r),
        holds(buf, pos, r.piece().wire),
    ensures
        name_piece(r.domain()).bad is None,
        name_at_ok(buf, pos, r.domain()),
        u16_at(buf, pos + name_piece(r.domain()).wire.len()) == r.qtype().code(),
        u32_at(buf, pos + name_piece(r.domain()).wire.len() + 4) == r.ttl(),
        holds(buf, pos + name_piece(r.domain()).wire.len() + 10, r.data().wire),
        r.piece().wire.len() == name_piece(r.domain()).wire.len() + 10 + r.data().wire.len(),
{
    let name = name_piece(r.domain());
    let code = r.qtype().code();
    let data = r.data();
    let len = #[verifier::truncate] (data.wire.len() as u16);
    lemma_name_piece(r.domain());
    assert(r.piece().wire =~= name.wire + (u16_wire(code) + (u16_wire(1) + (u32_wire(r.ttl()) + (u16_wire(
        len,
    ) + data.wire)))));
    lemma_holds_split(
        buf,
        pos,
        name.wire,
        u16_wire(code) + (u16_wire(1) + (u32_wire(r.ttl()) + (u16_wire(len) + data.wire))),
    );
    lemma_name_round_trip(buf, pos, r.domain());
    let p = pos + name.wire.len();
    lemma_holds_u16(buf, p, code, u16_wire(1) + (u32_wire(r.ttl()) + (u16_wire(len) + data.wire)));
    lemma_holds_u16(buf, p + 2, 1, u32_wire(r.ttl()) + (u16_wire(len) + data.wire));
    lemma_holds_u32(buf, p + 4, r.ttl(), u16_wire(len) + data.wire);
    lemma_holds_u16(buf, p + 8, len, data.wire);
}

/// The name `name` is read at offset `pos`, with the cursor ending behind its wire form.
pub open spec fn name_at_ok(buf: Seq<u8>, pos: int, name: Seq<char>) -> bool {
    name_at(buf, pos) == Ok::<(Seq<char>, int), DnsError>(
        (name, pos + name_piece(name).wire.len()),
    )
}

/// The four octets of an address that stand in a datagram are read back as that address.
proof fn lemma_ipv4_round_trip(buf: Seq<u8>, d: int, addr: Ipv4Address)
    requires
        holds(buf, d, addr.octets@),
    ensures
        ipv4_at(buf, d) == addr,
{
    reveal(holds);
    assert(addr.octets@.len() == 4);
    assert(buf[d + 0] == addr.octets@[0] && buf[d + 1] == addr.octets@[1] && buf[d + 2] == addr.octets@[2]
        && buf[d + 3] == addr.octets@[3]);
    lemma_ipv4_by_octets(addr, buf[d], buf[d + 1], buf[d + 2], buf[d + 3]);
}

/// The eight segments of an address that stand in a datagram are read back as that address.
proof fn lemma_ipv6_round_trip(buf: Seq<u8>, d: int, addr: Ipv6Address)
    requires
        holds(buf, d, ipv6_wire(addr)),
    ensures
        ipv6_at(buf, d) == addr,
{
    let s = addr.segments@;
    let e = Seq::<u8>::empty();
    assert(s.len() == 8);
    lemma_holds_bounds(buf, d, ipv6_wire(addr));
    assert(ipv6_wire(addr) =~= u16_wire(s[0]) + (u16_wire(s[1]) + (u16_wire(s[2]) + (u16_wire(s[3]) + (
    u16_wire(s[4]) + (u16_wire(s[5]) + (u16_wire(s[6]) + (u16_wire(s[7]) + e))))))));
    lemma_holds_u16(
        buf,
        d,
        s[0],
        u16_wire(s[1]) + (u16_wire(s[2]) + (u16_wire(s[3]) + (u16_wire(s[4]) + (u16_wire(s[5]) + (u16_wire(
            s[6],
        ) + (u16_wire(s[7]) + e)))))),
    );
    lemma_holds_u16(
        buf,
        d + 2,
        s[1],
        u16_wire(s[2]) + (u16_wire(s[3]) + (u16_wire(s[4]) + (u16_wire(s[5]) + (u16_wire(s[6]) + (u16_wire(
            s[7],
        ) + e))))),
    );
    lemma_holds_u16(
        buf,
        d + 4,
        s[2],
        u16_wire(s[3]) + (u16_wire(s[4]) + (u16_wire(s[5]) + (u16_wire(s[6]) + (u16_wire(s[7]) + e)))),
    );
    lemma_holds_u16(
        buf,
        d + 6,
        s[3],
        u16_wire(s[4]) + (u16_wire(s[5]) + (u16_wire(s[6]) + (u16_wire(s[7]) + e))),
    );
    lemma_holds_u16(buf, d + 8, s[4], u16_wire(s[5]) + (u16_wire(s[6]) + (u16_wire(s[7]) + e)));
    lemma_holds_u16(buf, d + 10, s[5], u16_wire(s[6]) + (u16_wire(s[7]) + e));
    lemma_holds_u16(buf, d + 12, s[6], u16_wire(s[7]) + e);
    lemma_holds_u16(buf, d + 14, s[7], e);
    lemma_ipv6_by_segments(addr, s);
}

/// Five 32-bit numbers that stand one behind the other in a datagram are read back as they
/// are.
proof fn lemma_five_numbers(buf: Seq<u8>, q: int, a: u32, b: u32, c: u32, d: u32, e: u32)
    requires
        holds(buf, q, u32_wire(a) + u32_wire(b) + u32_wire(c) + u32_wire(d) + u32_wire(e)),
    ensures
        0 <= q,
        q + 20 <= buf.len(),
        u32_at(buf, q) == a,
        u32_at(buf, q + 4) == b,
        u32_at(buf, q + 8) == c,
        u32_at(buf, q + 12) == d,
        u32_at(buf, q + 16) == e,
{
    let z = Seq::<u8>::empty();
    assert(u32_wire(a) + u32_wire(b) + u32_wire(c) + u32_wire(d) + u32_wire(e) =~= u32_wire(a) + (u32_wire(
        b,
    ) + (u32_wire(c) + (u32_wire(d) + (u32_wire(e) + z)))));
    lemma_holds_u32(buf, q, a, u32_wire(b) + (u32_wire(c) + (u32_wire(d) + (u32_wire(e) + z))));
    lemma_holds_u32(buf, q + 4, b, u32_wire(c) + (u32_wire(d) + (u32_wire(e) + z)));
    lemma_holds_u32(buf, q + 8, c, u32_wire(d) + (u32_wire(e) + z));
    lemma_holds_u32(buf, q + 12, d, u32_wire(e) + z);
    lemma_holds_u32(buf, q + 16, e, z);
}

/// Two plain names that stand one behind the other in a datagram, with `rest` behind them,
/// are read back as they are.
proof fn lemma_two_names(buf: Seq<u8>, d: int, mname: Seq<char>, rname: Seq<char>, rest: Seq<u8>)
    requires
        buf.len() == CAPACITY,
        0 <= d,
        plain_name(mname),
        plain_name(rname),
        rest.len() > 0,
        holds(buf, d, name_piece(mname).wire + name_piece(rname).wire + rest),
    ensures
        name_piece(mname).bad is None,
        name_piece(rname).bad is None,
        name_at_ok(buf, d, mname),
        name_at_ok(buf, d + name_piece(mname).wire.len(), rname),
        holds(buf, d + name_piece(mname).wire.len() + name_piece(rname).wire.len(), rest),
{
    lemma_name_piece(mname);
    lemma_name_piece(rname);
    let m = name_piece(mname).wire;
    let n = name_piece(rname).wire;
    lemma_holds_split(buf, d, m + n, rest);
    lemma_holds_split(buf, d, m, n);
    lemma_name_round_trip(buf, d, mname);
    lemma_name_round_trip(buf, d + m.len(), rname);
}

/// The data of a plain `A` record that stands in a datagram is read back as it is.
proof fn lemma_a_data(buf: Seq<u8>, d: int, r: RecordView, data_len: u16)
    requires
        buf.len() == CAPACITY,
        0 <= d,
        r is A,
        plain_record(r),
        holds(buf, d, r.data().wire),
        
    ensures
        r.data().bad is None,
        data_at(buf, d, r.domain(), 1, r.ttl(), data_len) == Ok::<(RecordView, int), DnsError>(
            (r, d + r.data().wire.len()),
        ),
{
    lemma_holds_bounds(buf, d, r.data().wire);
    match r {
        RecordView::A { addr, .. } => {
            lemma_ipv4_round_trip(buf, d, addr);
        },
        _ => {},
    }
}

/// The data of a plain `Aaaa` record that stands in a datagram is read back as it is.
proof fn lemma_aaaa_data(buf: Seq<u8>, d: int, r: RecordView, data_len: u16)
    requires
        buf.len() == CAPACITY,
        0 <= d,
        r is Aaaa,
        plain_record(r),
        holds(buf, d, r.data().wire),
        
    ensures
        r.data().bad is None,
        data_at(buf, d, r.domain(), 28, r.ttl(), data_len) == Ok::<(RecordView, int), DnsError>(
            (r, d + r.data().wire.len()),
        ),
{
    lemma_holds_bounds(buf, d, r.data().wire);
    match r {
        RecordView::Aaaa { addr, .. } => {
            lemma_ipv6_round_trip(buf, d, addr);
        },
        _ => {},
    }
}

/// The data of a plain `NS` record that stands in a datagram is read back as it is.
proof fn lemma_ns_data(buf: Seq<u8>, d: int, r: RecordView, data_len: u16)
    requires
        buf.len() == CAPACITY,
        0 <= d,
        r is NS,
        plain_record(r),
        holds(buf, d, r.data().wire),
        d + r.data().wire.len() < CAPACITY,
    ensures
        r.data().bad is None,
        data_at(buf, d, r.domain(), 2, r.ttl(), data_len) == Ok::<(RecordView, int), DnsError>(
            (r, d + r.data().wire.len()),
        ),
{
    match r {
        RecordView::NS { host, .. } => {
            lemma_name_round_trip(buf, d, host);
        },
        _ => {},
    }
}

/// The data of a plain `Cname` record that stands in a datagram is read back as it is.
proof fn lemma_cname_data(buf: Seq<u8>, d: int, r: RecordView, data_len: u16)
    requires
        buf.len() == CAPACITY,
        0 <= d,
        r is Cname,
        plain_record(r),
        holds(buf, d, r.data().wire),
        d + r.data().wire.len() < CAPACITY,
    ensures
        r.data().bad is None,
        data_at(buf, d, r.domain(), 5, r.ttl(), data_len) == Ok::<(RecordView, int), DnsError>(
            (r, d + r.data().wire.len()),
        ),
{
    match r {
        RecordView::Cname { host, .. } => {
            lemma_name_round_trip(buf, d, host);
        },
        _ => {},
    }
}

/// The data of a plain `Txt` record that stands in a datagram is read back as it is.
proof fn lemma_txt_data(buf: Seq<u8>, d: int, r: RecordView, data_len: u16)
    requires
        buf.len() == CAPACITY,
        0 <= d,
        r is Txt,
        plain_record(r),
        holds(buf, d, r.data().wire),
        d + r.data().wire.len() < CAPACITY,
    ensures
        r.data().bad is None,
        data_at(buf, d, r.domain(), 16, r.ttl(), data_len) == Ok::<(RecordView, int), DnsError>(
            (r, d + r.data().wire.len()),
        ),
{
    match r {
        RecordView::Txt { text, .. } => {
            lemma_name_round_trip(buf, d, text);
        },
        _ => {},
    }
}

/// The data of a plain `MX` record that stands in a datagram is read back as it is.
proof fn lemma_mx_data(buf: Seq<u8>, d: int, r: RecordView, data_len: u16)
    requires
        buf.len() == CAPACITY,
        0 <= d,
        r is MX,
        plain_record(r),
        holds(buf, d, r.data().wire),
        d + r.data().wire.len() < CAPACITY,
    ensures
        r.data().bad is None,
        data_at(buf, d, r.domain(), 15, r.ttl(), data_len) == Ok::<(RecordView, int), DnsError>(
            (r, d + r.data().wire.len()),
        ),
{
    match r {
        RecordView::MX { priority, host, .. } => {
            lemma_holds_u16(buf, d, priority, name_piece(host).wire);
            lemma_name_round_trip(buf, d + 2, host);
        },
        _ => {},
    }
}

/// The data of a plain `Soa` record that stands in a datagram is read back as it is.
#[verifier::rlimit(40)]
proof fn lemma_soa_data(buf: Seq<u8>, d: int, r: RecordView, data_len: u16)
    requires
        buf.len() == CAPACITY,
        0 <= d,
        r is Soa,
        plain_record(r),
        holds(buf, d, r.data().wire),
        
    ensures
        r.data().bad is None,
        data_at(buf, d, r.domain(), 6, r.ttl(), data_len) == Ok::<(RecordView, int), DnsError>(
            (r, d + r.data().wire.len()),
        ),
{
    lemma_holds_bounds(buf, d, r.data().wire);
    match r {
        RecordView::Soa { mname, rname, serial, refresh, retry, expire, minimum, .. } => {
            let rest = u32_wire(serial) + u32_wire(refresh) + u32_wire(retry) + u32_wire(expire) + u32_wire(
                minimum,
            );
            lemma_two_names(buf, d, mname, rname, rest);
            let m_end = d + name_piece(mname).wire.len();
            let n_end = m_end + name_piece(rname).wire.len();
            lemma_five_numbers(buf, n_end, serial, refresh, retry, expire, minimum);
            assert(rest.len() == 20);
            assert(r.data().wire.len() == name_piece(mname).wire.len() + name_piece(rname).wire.len() + 20);
            assert(name_at(buf, d) == Ok::<(Seq<char>, int), DnsError>((mname, m_end)));
            assert(name_at(buf, m_end) == Ok::<(Seq<char>, int), DnsError>((rname, n_end)));
            assert(QueryType::of_code(6) == QueryType::Soa);
        },
        _ => {},
    }
}

/// The data of a plain record that stands in a datagram is read back as it is, unless it
/// ends in a name that ends with the datagram.
pub proof fn lemma_data_round_trip(buf: Seq<u8>, d: int, r: RecordView, data_len: u16)
    requires
        buf.len() == CAPACITY,
        0 <= d,
        plain_record(r),
        holds(buf, d, r.data().wire),
        d + r.data().wire.len() < CAPACITY || !ends_in_name(r),
    ensures
        r.data().bad is None,
        data_at(buf, d, r.domain(), r.qtype().code(), r.ttl(), data_len) == Ok::<(RecordView, int), DnsError>(
            (r, d + r.data().wire.len()),
        ),
{
    if r is A {
        lemma_a_data(buf, d, r, data_len);
    } else if r is Aaaa {
        lemma_aaaa_data(buf, d, r, data_len);
    } else if r is NS {
        lemma_ns_data(buf, d, r, data_len);
    } else if r is Cname {
        lemma_cname_data(buf, d, r, data_len);
    } else if r is Txt {
        lemma_txt_data(buf, d, r, data_len);
    } else if r is MX {
        lemma_mx_data(buf, d, r, data_len);
    } else if r is Soa {
        lemma_soa_data(buf, d, r, data_len);
    }
}

/// A plain record that stands in a datagram is read back as it is, unless its data ends in a
/// name that ends with the datagram.
pub proof fn lemma_record_round_trip(buf: Seq<u8>, pos: int, r: RecordView)
    requires
        buf.len() == CAPACITY,
        0 <= pos,
        plain_record(r),
        holds(buf, pos, r.piece().wire),
        pos + r.piece().wire.len() < CAPACITY || !ends_in_name(r),
    ensures
        r.piece().bad is None,
        r.piece().wire.len() >= 12,
        record_at(buf, pos) == Ok::<(RecordView, int), DnsError>((r, pos + r.piece().wire.len())),
{
    lemma_head_round_trip(buf, pos, r);
    lemma_name_piece(r.domain());
    let p = pos + name_piece(r.domain()).wire.len();
    lemma_data_round_trip(buf, p + 10, r, u16_at(buf, p + 8));
}

/// Plain questions that stand one behind the other in a datagram are read back as they
/// are.
pub proof fn lemma_questions_round_trip(buf: Seq<u8>, pos: int, qs: Seq<QuestionView>)
    requires
        buf.len() == CAPACITY,
        0 <= pos,
        forall|i: int| 0 <= i < qs.len() ==> plain_question(#[trigger] qs[i]),
        holds(buf, pos, questions_piece(qs).wire),
    ensures
        questions_piece(qs).bad is None,
        questions_at(buf, pos, qs.len()) == Ok::<(Seq<QuestionView>, int), DnsError>(
            (qs, pos + questions_piece(qs).wire.len()),
        ),
    decreases qs.len(),
{
    lemma_questions_first(qs);
    if qs.len() == 0 {
        assert(qs =~= Seq::<QuestionView>::empty());
    } else {
        let rest = qs.drop_first();
        lemma_holds_split(buf, pos, qs[0].piece().wire, questions_piece(rest).wire);
        lemma_question_round_trip(buf, pos, qs[0]);
        assert forall|i: int| 0 <= i < rest.len() implies plain_question(#[trigger] rest[i]) by {
            assert(rest[i] == qs[i + 1]);
        }
        lemma_questions_round_trip(buf, pos + qs[0].piece().wire.len(), rest);
        assert(seq![qs[0]] + rest =~= qs);
    }
}

/// The last record of the row ends in a name.
pub open spec fn row_ends_in_name(rs: Seq<RecordView>) -> bool {
    rs.len() > 0 && ends_in_name(rs.last())
}

/// The first record of a row that does not end with the datagram in a name does not do so
/// either, nor does the row behind it.
proof fn lemma_row_ends(rs: Seq<RecordView>, pos: int)
    requires
        rs.len() > 0,
        forall|i: int| 0 <= i < rs.len() ==> plain_record(#[trigger] rs[i]),
        pos + records_piece(rs).wire.len() <= CAPACITY,
        pos + records_piece(rs).wire.len() < CAPACITY || !row_ends_in_name(rs),
    ensures
        pos + rs[0].piece().wire.len() < CAPACITY || !ends_in_name(rs[0]),
        pos + rs[0].piece().wire.len() + records_piece(rs.drop_first()).wire.len() < CAPACITY
            || !row_ends_in_name(rs.drop_first()),
        pos + rs[0].piece().wire.len() + records_piece(rs.drop_first()).wire.len() == pos + records_piece(
            rs,
        ).wire.len(),
{
    let rest = rs.drop_first();
    lemma_records_first(rs);
    assert forall|i: int| 0 <= i < rest.len() implies plain_record(#[trigger] rest[i]) by {
        assert(rest[i] == rs[i + 1]);
    }
    lemma_row_empty(rest);
    if rest.len() > 0 {
        assert(rest.last() == rs.last());
    }
}

/// Plain records that stand one behind the other in a datagram are read back as they are,
/// unless the last of them ends in a name that ends with the datagram.
pub proof fn lemma_records_round_trip(buf: Seq<u8>, pos: int, rs: Seq<RecordView>)
    requires
        buf.len() == CAPACITY,
        0 <= pos,
        forall|i: int| 0 <= i < rs.len() ==> plain_record(#[trigger] rs[i]),
        holds(buf, pos, records_piece(rs).wire),
        pos + records_piece(rs).wire.len() < CAPACITY || !row_ends_in_name(rs),
    ensures
        records_piece(rs).bad is None,
        records_at(buf, pos, rs.len()) == Ok::<(Seq<RecordView>, int), DnsError>(
            (rs, pos + records_piece(rs).wire.len()),
        ),
    decreases rs.len(),
{
    lemma_records_first(rs);
    lemma_holds_bounds(buf, pos, records_piece(rs).wire);
    if rs.len() == 0 {
        assert(rs =~= Seq::<RecordView>::empty());
    } else {
        let rest = rs.drop_first();
        lemma_row_ends(rs, pos);
        lemma_holds_split(buf, pos, rs[0].piece().wire, records_piece(rest).wire);
        assert forall|i: int| 0 <= i < rest.len() implies plain_record(#[trigger] rest[i]) by {
            assert(rest[i] == rs[i + 1]);
        }
        lemma_record_round_trip(buf, pos, rs[0]);
        lemma_records_round_trip(buf, pos + rs[0].piece().wire.len(), rest);
        assert(seq![rs[0]] + rest =~= rs);
    }
}

/// A message that decoding gives back as it was encoded: its opcode has four bits, its
/// questions and records are plain.
pub open spec fn plain_packet(m: PacketView) -> bool {
    &&& m.header.opcode < 16
    &&& forall|i: int| 0 <= i < m.questions.len() ==> plain_question(#[trigger] m.questions[i])
    &&& forall|i: int| 0 <= i < m.answers.len() ==> plain_record(#[trigger] m.answers[i])
    &&& forall|i: int| 0 <= i < m.authorities.len() ==> plain_record(#[trigger] m.authorities[i])
    &&& forall|i: int| 0 <= i < m.resources.len() ==> plain_record(#[trigger] m.resources[i])
}

/// The last record of the message ends in a name.
pub open spec fn packet_ends_in_name(m: PacketView) -> bool {
    if m.resources.len() > 0 {
        ends_in_name(m.resources.last())
    } else if m.authorities.len() > 0 {
        ends_in_name(m.authorities.last())
    } else {
        m.answers.len() > 0 && ends_in_name(m.answers.last())
    }
}

/// Where the sections of a message stand when the message stands at offset `pos`.
pub open spec fn questions_pos(pos: int) -> int {
    pos + 12
}

/// Where the answers of `m` stand when `m` stands at offset `pos`.
pub open spec fn answers_pos(m: PacketView, pos: int) -> int {
    questions_pos(pos) + questions_piece(m.questions).wire.len()
}

/// Where the authority records of `m` stand when `m` stands at offset `pos`.
pub open spec fn authorities_pos(m: PacketView, pos: int) -> int {
    answers_pos(m, pos) + records_piece(m.answers).wire.len()
}

/// Where the additional records of `m` stand when `m` stands at offset `pos`.
pub open spec fn resources_pos(m: PacketView, pos: int) -> int {
    authorities_pos(m, pos) + records_piece(m.authorities).wire.len()
}

/// A datagram that holds a message holds its header and each of its sections.
proof fn lemma_packet_parts(buf: Seq<u8>, pos: int, m: PacketView)
    requires
        holds(buf, pos, m.piece().wire),
    ensures
        0 <= pos,
        holds(buf, pos, header_wire(m.header)),
        holds(buf, questions_pos(pos), questions_piece(m.questions).wire),
        holds(buf, answers_pos(m, pos), records_piece(m.answers).wire),
        holds(buf, authorities_pos(m, pos), records_piece(m.authorities).wire),
        holds(buf, resources_pos(m, pos), records_piece(m.resources).wire),
        resources_pos(m, pos) + records_piece(m.resources).wire.len() == pos + m.piece().wire.len(),
{
    let hw = header_wire(m.header);
    let q = questions_piece(m.questions);
    let a = records_piece(m.answers);
    let u = records_piece(m.authorities);
    let r = records_piece(m.resources);
    assert(hw.len() == 12);
    lemma_holds_split(buf, pos, hw + q.wire + a.wire + u.wire, r.wire);
    lemma_holds_split(buf, pos, hw + q.wire + a.wire, u.wire);
    lemma_holds_split(buf, pos, hw + q.wire, a.wire);
    lemma_holds_split(buf, pos, hw, q.wire);
}

/// A row of no records takes no bytes, and a row of some takes at least twelve.
proof fn lemma_row_empty(rs: Seq<RecordView>)
    requires
        forall|i: int| 0 <= i < rs.len() ==> plain_record(#[trigger] rs[i]),
    ensures
        rs.len() == 0 ==> records_piece(rs).wire.len() == 0,
        rs.len() > 0 ==> records_piece(rs).wire.len() >= 12,
{
    lemma_row_len(rs);
    lemma_records_first(rs);
}

/// If the last record of a message does not end with the datagram in a name, no section does.
proof fn lemma_section_ends(m: PacketView, pos: int)
    requires
        plain_packet(m),
        pos + m.piece().wire.len() <= CAPACITY,
        pos + m.piece().wire.len() < CAPACITY || !packet_ends_in_name(m),
    ensures
        authorities_pos(m, pos) < CAPACITY || !row_ends_in_name(m.answers),
        resources_pos(m, pos) < CAPACITY || !row_ends_in_name(m.authorities),
        pos + m.piece().wire.len() < CAPACITY || !row_ends_in_name(m.resources),
{
    lemma_packet_len(m);
    lemma_row_empty(m.answers);
    lemma_row_empty(m.authorities);
    lemma_row_empty(m.resources);
}

/// A plain message whose header counts what its sections hold, standing in a datagram, is
/// decoded as it is, unless its last record ends in a name that ends with the datagram.
pub proof fn lemma_packet_round_trip(buf: Seq<u8>, pos: int, m: PacketView)
    requires
        buf.len() == CAPACITY,
        plain_packet(m),
        m.header.questions == m.questions.len(),
        m.header.answers == m.answers.len(),
        m.header.authoritative_entries == m.authorities.len(),
        m.header.resource_entries == m.resources.len(),
        holds(buf, pos, m.piece().wire),
        pos + m.piece().wire.len() < CAPACITY || !packet_ends_in_name(m),
    ensures
        packet_at(buf, pos) == Ok::<(PacketView, int), DnsError>((m, pos + m.piece().wire.len())),
{
    lemma_holds_bounds(buf, pos, m.piece().wire);
    lemma_packet_parts(buf, pos, m);
    lemma_section_ends(m, pos);
    lemma_packet_len(m);
    let at_questions = questions_pos(pos);
    let at_answers = answers_pos(m, pos);
    let at_authorities = authorities_pos(m, pos);
    let at_resources = resources_pos(m, pos);
    let end = pos + m.piece().wire.len();
    lemma_holds_bounds(buf, pos, header_wire(m.header));
    lemma_header_round_trip(m.header, buf, pos);
    lemma_questions_round_trip(buf, at_questions, m.questions);
    lemma_records_round_trip(buf, at_answers, m.answers);
    lemma_records_round_trip(buf, at_authorities, m.authorities);
    lemma_records_round_trip(buf, at_resources, m.resources);
    assert(header_at(buf, pos) == Ok::<(DnsHeader, int), DnsError>((m.header, at_questions)));
    assert(questions_at(buf, at_questions, m.header.questions as nat) == Ok::<(Seq<QuestionView>, int), DnsError>(
        (m.questions, at_answers),
    ));
    assert(records_at(buf, at_answers, m.header.answers as nat) == Ok::<(Seq<RecordView>, int), DnsError>(
        (m.answers, at_authorities),
    ));
    assert(records_at(buf, at_authorities, m.header.authoritative_entries as nat) == Ok::<
        (Seq<RecordView>, int),
        DnsError,
    >((m.authorities, at_resources)));
    assert(records_at(buf, at_resources, m.header.resource_entries as nat) == Ok::<(Seq<RecordView>, int), DnsError>(
        (m.resources, end),
    ));
}

/// The length of a message on the wire is the length of its header and of its sections.
proof fn lemma_packet_len(m: PacketView)
    ensures
        m.piece().wire.len() == 12 + questions_piece(m.questions).wire.len() + records_piece(
            m.answers,
        ).wire.len() + records_piece(m.authorities).wire.len() + records_piece(m.resources).wire.len(),
{
    assert(header_wire(m.header).len() == 12);
}

/// A plain message that fits into a datagram has few questions and records.
proof fn lemma_few_entries(m: PacketView)
    requires
        plain_packet(m),
        m.piece().wire.len() <= CAPACITY,
    ensures
        m.questions.len() < 100,
        m.answers.len() < 100,
        m.authorities.len() < 100,
        m.resources.len() < 100,
{
    lemma_packet_len(m);
    lemma_questions_len(m.questions);
    lemma_row_len(m.answers);
    lemma_row_len(m.authorities);
    lemma_row_len(m.resources);
}

/// The header of a plain message that fits into a datagram counts what its sections hold.
pub proof fn lemma_counts(m: PacketView)
    requires
        plain_packet(m),
        m.piece().wire.len() <= CAPACITY,
    ensures
        m.counted().header.questions == m.questions.len(),
        m.counted().header.answers == m.answers.len(),
        m.counted().header.authoritative_entries == m.authorities.len(),
        m.counted().header.resource_entries == m.resources.len(),
{
    lemma_few_entries(m);
}

/// A row of questions takes at least six bytes for each question.
pub proof fn lemma_questions_len(qs: Seq<QuestionView>)
    ensures
        questions_piece(qs).wire.len() >= 6 * qs.len(),
    decreases qs.len(),
{
    lemma_questions_first(qs);
    if qs.len() > 0 {
        lemma_question_piece(qs[0]);
        lemma_questions_len(qs.drop_first());
    }
}

/// A plain message that was written and is decoded again from where it stands is the message
/// that was written, its header counting what its sections hold; decoding leaves the cursor
/// where writing left it. The one exception is a message whose last record ends in a name
/// that ends with the datagram: the decoder wants a byte behind a name.
pub proof fn theorem_message_round_trip(
    m: PacketView,
    before: &BytePacketBuffer,
    after: &BytePacketBuffer,
)
    requires
        plain_packet(m),
        wrote(before, after, Ok(()), m.counted().piece()),
        after.pos < CAPACITY || !packet_ends_in_name(m),
    ensures
        packet_at(after.buf@, before.pos as int) == Ok::<(PacketView, int), DnsError>(
            (m.counted(), after.pos as int),
        ),
        m.counted().header.questions == m.questions.len(),
        m.counted().header.answers == m.answers.len(),
        m.counted().header.authoritative_entries == m.authorities.len(),
        m.counted().header.resource_entries == m.resources.len(),
{
    let c = m.counted();
    lemma_packet_len(c);
    lemma_packet_len(m);
    lemma_counts(m);
    lemma_overlay_holds(before.buf@, before.pos as int, c.piece().wire);
    lemma_packet_round_trip(after.buf@, before.pos as int, c);
}

/// A row of plain records takes at least twelve bytes for each record.
pub proof fn lemma_row_len(rs: Seq<RecordView>)
    requires
        forall|i: int| 0 <= i < rs.len() ==> plain_record(#[trigger] rs[i]),
    ensures
        records_piece(rs).wire.len() >= 12 * rs.len(),
    decreases rs.len(),
{
    lemma_records_first(rs);
    if rs.len() > 0 {
        let rest = rs.drop_first();
        lemma_record_piece(rs[0]);
        assert forall|i: int| 0 <= i < rest.len() implies plain_record(#[trigger] rest[i]) by {
            assert(rest[i] == rs[i + 1]);
        }
        lemma_row_len(rest);
    }
}

} // verus!
