use vstd::prelude::*;
use crate::protocol::address::{Ipv4Address, Ipv6Address};
use crate::protocol::byte_packet_buffer::{wrote, BytePacketBuffer};
use crate::protocol::error::DnsError;
use crate::protocol::name::{lemma_name_piece, name_at, name_piece};
use crate::protocol::querytype::QueryType;
use crate::protocol::wire::{overlay, u16_at, u16_wire, u32_at, u32_wire, Piece, CAPACITY};

verus! {

/// One entry of the answer, authority or additional section of a message.
#[derive(Debug, Clone, PartialEq, Eq, Hash, PartialOrd, Ord)]
pub enum DnsRecord {
    /// A record of a type that is not decoded: its data was skipped.
    Unknown { domain: String, qtype: u16, data_len: u16, ttl: u32 },
    A { domain: String, addr: Ipv4Address, ttl: u32 },
    NS { domain: String, host: String, ttl: u32 },
    Cname { domain: String, host: String, ttl: u32 },
    Soa {
        domain: String,
        mname: String,
        rname: String,
        serial: u32,
        refresh: u32,
        retry: u32,
        expire: u32,
        minimum: u32,
        ttl: u32,
    },
    MX { domain: String, priority: u16, host: String, ttl: u32 },
    Txt { domain: String, text: String, ttl: u32 },
    Aaaa { domain: String, addr: Ipv6Address, ttl: u32 },
}

/// A record as a value: its names are sequences of characters.
pub enum RecordView {
    Unknown { domain: Seq<char>, qtype: u16, data_len: u16, ttl: u32 },
    A { domain: Seq<char>, addr: Ipv4Address, ttl: u32 },
    NS { domain: Seq<char>, host: Seq<char>, ttl: u32 },
    Cname { domain: Seq<char>, host: Seq<char>, ttl: u32 },
    Soa {
        domain: Seq<char>,
        mname: Seq<char>,
        rname: Seq<char>,
        serial: u32,
        refresh: u32,
        retry: u32,
        expire: u32,
        minimum: u32,
        ttl: u32,
    },
    MX { domain: Seq<char>, priority: u16, host: Seq<char>, ttl: u32 },
    Txt { domain: Seq<char>, text: Seq<char>, ttl: u32 },
    Aaaa { domain: Seq<char>, addr: Ipv6Address, ttl: u32 },
}

impl View for DnsRecord {
    type V = RecordView;

    open spec fn view(&self) -> RecordView {
        match *self {
            DnsRecord::Unknown { domain, qtype, data_len, ttl } => RecordView::Unknown {
                domain: domain@,
                qtype,
                data_len,
                ttl,
            },
            DnsRecord::A { domain, addr, ttl } => RecordView::A { domain: domain@, addr, ttl },
            DnsRecord::NS { domain, host, ttl } => RecordView::NS {
                domain: domain@,
                host: host@,
                ttl,
            },
            DnsRecord::Cname { domain, host, ttl } => RecordView::Cname {
                domain: domain@,
                host: host@,
                ttl,
            },
            DnsRecord::Soa {
                domain,
                mname,
                rname,
                serial,
                refresh,
                retry,
                expire,
                minimum,
                ttl,
            } => RecordView::Soa {
                domain: domain@,
                mname: mname@,
                rname: rname@,
                serial,
                refresh,
                retry,
                expire,
                minimum,
                ttl,
            },
            DnsRecord::MX { domain, priority, host, ttl } => RecordView::MX {
                domain: domain@,
                priority,
                host: host@,
                ttl,
            },
            DnsRecord::Txt { domain, text, ttl } => RecordView::Txt {
                domain: domain@,
                text: text@,
                ttl,
            },
            DnsRecord::Aaaa { domain, addr, ttl } => RecordView::Aaaa {
                domain: domain@,
                addr,
                ttl,
            },
        }
    }
}

/// What every written record begins with: owner name, type code, class 1 and time to live.
pub open spec fn head(domain: Seq<char>, code: u16, ttl: u32) -> Piece {
    name_piece(domain).followed_by(Piece::plain(u16_wire(code) + u16_wire(1) + u32_wire(ttl)))
}

/// Record data behind its length in two bytes.
pub open spec fn sized(data: Piece) -> Piece {
    Piece::plain(u16_wire(#[verifier::truncate] (data.wire.len() as u16))).followed_by(data)
}

/// The twenty bytes of five 32-bit numbers.
pub open spec fn numbers_wire(numbers: Seq<u32>) -> Seq<u8> {
    u32_wire(numbers[0]) + u32_wire(numbers[1]) + u32_wire(numbers[2]) + u32_wire(numbers[3])
        + u32_wire(numbers[4])
}

/// The bytes of the first `count` segments of an IPv6 address.
pub open spec fn segments_wire(segments: Seq<u16>, count: int) -> Seq<u8>
    decreases count,
{
    if count <= 0 {
        Seq::empty()
    } else {
        segments_wire(segments, count - 1) + u16_wire(segments[count - 1])
    }
}

/// The sixteen bytes of an IPv6 address.
pub open spec fn ipv6_wire(addr: Ipv6Address) -> Seq<u8> {
    u16_wire(addr.segments@[0]) + u16_wire(addr.segments@[1]) + u16_wire(addr.segments@[2])
        + u16_wire(addr.segments@[3]) + u16_wire(addr.segments@[4]) + u16_wire(addr.segments@[5])
        + u16_wire(addr.segments@[6]) + u16_wire(addr.segments@[7])
}

impl RecordView {
    /// The data of the record as it is written, without its length.
    pub open spec fn data(self) -> Piece {
        match self {
            RecordView::Unknown { .. } => Piece::plain(Seq::empty()),
            RecordView::A { addr, .. } => Piece::plain(addr.octets@),
            RecordView::NS { host, .. } => name_piece(host),
            RecordView::Cname { host, .. } => name_piece(host),
            RecordView::Soa { mname, rname, serial, refresh, retry, expire, minimum, .. } => {
                name_piece(mname).followed_by(name_piece(rname)).followed_by(
                    Piece::plain(
                        u32_wire(serial) + u32_wire(refresh) + u32_wire(retry) + u32_wire(expire)
                            + u32_wire(minimum),
                    ),
                )
            },
            RecordView::MX { priority, host, .. } => Piece::plain(u16_wire(priority)).followed_by(
                name_piece(host),
            ),
            RecordView::Txt { text, .. } => name_piece(text),
            RecordView::Aaaa { addr, .. } => Piece::plain(ipv6_wire(addr)),
        }
    }

    /// The owner name.
    pub open spec fn domain(self) -> Seq<char> {
        match self {
            RecordView::Unknown { domain, .. } => domain,
            RecordView::A { domain, .. } => domain,
            RecordView::NS { domain, .. } => domain,
            RecordView::Cname { domain, .. } => domain,
            RecordView::Soa { domain, .. } => domain,
            RecordView::MX { domain, .. } => domain,
            RecordView::Txt { domain, .. } => domain,
            RecordView::Aaaa { domain, .. } => domain,
        }
    }

    /// The time to live, in seconds.
    pub open spec fn ttl(self) -> u32 {
        match self {
            RecordView::Unknown { ttl, .. } => ttl,
            RecordView::A { ttl, .. } => ttl,
            RecordView::NS { ttl, .. } => ttl,
            RecordView::Cname { ttl, .. } => ttl,
            RecordView::Soa { ttl, .. } => ttl,
            RecordView::MX { ttl, .. } => ttl,
            RecordView::Txt { ttl, .. } => ttl,
            RecordView::Aaaa { ttl, .. } => ttl,
        }
    }

    /// The type of the record.
    pub open spec fn qtype(self) -> QueryType {
        match self {
            RecordView::Unknown { qtype, .. } => QueryType::Unknown(qtype),
            RecordView::A { .. } => QueryType::A,
            RecordView::NS { .. } => QueryType::NS,
            RecordView::Cname { .. } => QueryType::Cname,
            RecordView::Soa { .. } => QueryType::Soa,
            RecordView::MX { .. } => QueryType::MX,
            RecordView::Txt { .. } => QueryType::Txt,
            RecordView::Aaaa { .. } => QueryType::Aaaa,
        }
    }

    /// The record as it is written. A record of an undecoded type is not written at all.
    pub open spec fn piece(self) -> Piece {
        if self is Unknown {
            Piece::plain(Seq::empty())
        } else {
            head(self.domain(), self.qtype().code(), self.ttl()).followed_by(sized(self.data()))
        }
    }
}

/// The IPv4 address whose four octets stand at offset `p` of `buf`.
pub open spec fn ipv4_at(buf: Seq<u8>, p: int) -> Ipv4Address {
    Ipv4Address::of(buf[p], buf[p + 1], buf[p + 2], buf[p + 3])
}

/// The IPv6 address whose eight segments stand at offset `p` of `buf`.
pub open spec fn ipv6_at(buf: Seq<u8>, p: int) -> Ipv6Address {
    Ipv6Address::of(
        u16_at(buf, p),
        u16_at(buf, p + 2),
        u16_at(buf, p + 4),
        u16_at(buf, p + 6),
        u16_at(buf, p + 8),
        u16_at(buf, p + 10),
        u16_at(buf, p + 12),
        u16_at(buf, p + 14),
    )
}

/// A step of decoding that yields `value` and leaves the cursor at `cursor`, provided the
/// cursor has not left the datagram.
pub open spec fn within<T>(cursor: int, value: T) -> Result<(T, int), DnsError> {
    if cursor > CAPACITY {
        Err(DnsError::EndOfBuffer)
    } else {
        Ok((value, cursor))
    }
}

/// The record whose owner name is `domain` and whose type code, time to live and data length
/// are `code`, `ttl` and `data_len`, decoded from the data at offset `d` of the datagram
/// `buf`; and where the cursor stands behind it. The data length decides only how much of an
/// undecoded type is skipped.
pub open spec fn data_at(
    buf: Seq<u8>,
    d: int,
    domain: Seq<char>,
    code: u16,
    ttl: u32,
    data_len: u16,
) -> Result<(RecordView, int), DnsError> {
    match QueryType::of_code(code) {
        QueryType::A => within(d + 4, RecordView::A { domain, addr: ipv4_at(buf, d), ttl }),
        QueryType::Aaaa => within(d + 16, RecordView::Aaaa { domain, addr: ipv6_at(buf, d), ttl }),
        QueryType::NS => match name_at(buf, d) {
            Ok((host, end)) => Ok((RecordView::NS { domain, host, ttl }, end)),
            Err(e) => Err(e),
        },
        QueryType::Cname => match name_at(buf, d) {
            Ok((host, end)) => Ok((RecordView::Cname { domain, host, ttl }, end)),
            Err(e) => Err(e),
        },
        QueryType::Txt => match name_at(buf, d) {
            Ok((text, end)) => Ok((RecordView::Txt { domain, text, ttl }, end)),
            Err(e) => Err(e),
        },
        QueryType::MX => if d + 2 > CAPACITY {
            Err(DnsError::EndOfBuffer)
        } else {
            match name_at(buf, d + 2) {
                Ok((host, end)) => Ok(
                    (RecordView::MX { domain, priority: u16_at(buf, d), host, ttl }, end),
                ),
                Err(e) => Err(e),
            }
        },
        QueryType::Soa => match name_at(buf, d) {
            Ok((mname, m)) => match name_at(buf, m) {
                Ok((rname, n)) => within(
                    n + 20,
                    RecordView::Soa {
                        domain,
                        mname,
                        rname,
                        serial: u32_at(buf, n),
                        refresh: u32_at(buf, n + 4),
                        retry: u32_at(buf, n + 8),
                        expire: u32_at(buf, n + 12),
                        minimum: u32_at(buf, n + 16),
                        ttl,
                    },
                ),
                Err(e) => Err(e),
            },
            Err(e) => Err(e),
        },
        QueryType::Unknown(_) => if d + data_len >= CAPACITY {
            Err(DnsError::EndOfBuffer)
        } else {
            Ok((RecordView::Unknown { domain, qtype: code, data_len, ttl }, d + data_len))
        },
    }
}

/// The record that stands at offset `pos` of the datagram `buf`, and where the cursor stands
/// behind it: owner name, type code, class (not looked at), time to live, data length, data.
pub open spec fn record_at(buf: Seq<u8>, pos: int) -> Result<(RecordView, int), DnsError> {
    match name_at(buf, pos) {
        Ok((domain, p)) => if p + 10 > CAPACITY {
            Err(DnsError::EndOfBuffer)
        } else {
            data_at(buf, p + 10, domain, u16_at(buf, p), u32_at(buf, p + 4), u16_at(buf, p + 8))
        },
        Err(e) => Err(e),
    }
}

/// The bytes of a 32-bit number read big-endian are its four octets, and its two halves.
pub proof fn lemma_u32_parts(raw: u32, first: u8, second: u8, third: u8, fourth: u8)
    by (bit_vector)
    requires
        raw == first as u32 * 0x100_0000 + second as u32 * 0x1_0000 + third as u32 * 0x100 + fourth as u32,
    ensures
        ((raw >> 24) & 0xFF) as u8 == first,
        ((raw >> 16) & 0xFF) as u8 == second,
        ((raw >> 8) & 0xFF) as u8 == third,
        (raw & 0xFF) as u8 == fourth,
        ((raw >> 16) & 0xFFFF) as u16 == first as u16 * 256 + second as u16,
        (raw & 0xFFFF) as u16 == third as u16 * 256 + fourth as u16,
{
}

/// The bytes of an IPv6 address are the bytes of its eight segments.
pub proof fn lemma_segments_wire(addr: Ipv6Address)
    ensures
        ipv6_wire(addr) == segments_wire(addr.segments@, 8),
{
    let s = addr.segments@;
    assert(segments_wire(s, 0) =~= Seq::<u8>::empty());
    assert(segments_wire(s, 1) =~= u16_wire(s[0]));
    assert(segments_wire(s, 2) =~= segments_wire(s, 1) + u16_wire(s[1]));
    assert(segments_wire(s, 3) =~= segments_wire(s, 2) + u16_wire(s[2]));
    assert(segments_wire(s, 4) =~= segments_wire(s, 3) + u16_wire(s[3]));
    assert(segments_wire(s, 5) =~= segments_wire(s, 4) + u16_wire(s[4]));
    assert(segments_wire(s, 6) =~= segments_wire(s, 5) + u16_wire(s[5]));
    assert(segments_wire(s, 7) =~= segments_wire(s, 6) + u16_wire(s[6]));
    assert(segments_wire(s, 8) =~= segments_wire(s, 7) + u16_wire(s[7]));
    assert(ipv6_wire(addr) =~= segments_wire(s, 8));
}

/// Oversized labels of a record begin inside it.
pub proof fn lemma_record_piece(r: RecordView)
    ensures
        r.piece().sound(),
        r.data().sound(),
        !(r is Unknown) ==> r.piece().wire.len() >= 12,
{
    lemma_name_piece(r.domain());
    match r {
        RecordView::NS { host, .. } => {
            lemma_name_piece(host);
        },
        RecordView::Cname { host, .. } => {
            lemma_name_piece(host);
        },
        RecordView::Soa { mname, rname, .. } => {
            lemma_name_piece(mname);
            lemma_name_piece(rname);
        },
        RecordView::MX { host, .. } => {
            lemma_name_piece(host);
        },
        RecordView::Txt { text, .. } => {
            lemma_name_piece(text);
        },
        _ => {},
    }
}

/// Decoding a record took the datagram from `before` to `after` with the result `r`, where
/// `found` is what stands in the datagram: the bytes are untouched; on success `r` is the
/// record that stands there and the cursor stands behind it; on failure `r` is the failure.
pub open spec fn decoded(
    before: &BytePacketBuffer,
    after: &BytePacketBuffer,
    r: Result<DnsRecord, DnsError>,
    found: Result<(RecordView, int), DnsError>,
) -> bool {
    &&& after.buf == before.buf
    &&& before.wf() ==> after.wf()
    &&& match found {
        Ok((record, cursor)) => r is Ok && r->Ok_0@ == record && after.pos == cursor,
        Err(e) => r == Err::<DnsRecord, DnsError>(e),
    }
}

impl DnsRecord {
    /// Writes the start of a record: owner name, type code, class 1 and time to live.
    fn write_head(buffer: &mut BytePacketBuffer, domain: &str, code: u16, ttl: u32) -> (r: Result<
        (),
        DnsError,
    >)
        ensures
            r == head(domain@, code, ttl).outcome(old(buffer).pos as int),
            r is Ok ==> final(buffer).holds_after(old(buffer), head(domain@, code, ttl).wire),
            r is Err ==> final(buffer).continues(old(buffer)),
    {
        proof {
            lemma_name_piece(domain@);
        }
        let ghost before = *buffer;
        let ghost start = before.pos as int;
        let ghost name = name_piece(domain@).wire;
        buffer.write_qname(domain)?;
        buffer.write_u16(code)?;
        assert(buffer.buf@ =~= overlay(before.buf@, start, name + u16_wire(code)));
        buffer.write_u16(1)?;
        assert(buffer.buf@ =~= overlay(before.buf@, start, name + u16_wire(code) + u16_wire(1)));
        buffer.write_u32(ttl)?;
        assert(buffer.buf@ =~= overlay(before.buf@, start, head(domain@, code, ttl).wire));
        Ok(())
    }

    /// Closes record data that was written behind two bytes reserved at offset `at`: puts the
    /// length of the data into those two bytes.
    fn close_data(
        buffer: &mut BytePacketBuffer,
        at: usize,
        Ghost(before): Ghost<BytePacketBuffer>,
        Ghost(front): Ghost<Seq<u8>>,
        Ghost(data): Ghost<Seq<u8>>,
    )
        requires
            old(buffer).holds_after(&before, front + u16_wire(0) + data),
            at == before.pos + front.len(),
            old(buffer).pos <= CAPACITY,
        ensures
            final(buffer).holds_after(&before, front + u16_wire(data.len() as u16) + data),
    {
        let size: usize = buffer.pos() - (at + 2);
        let _ = buffer.set_u16(at, size as u16);
        assert(buffer.buf@ =~= overlay(
            before.buf@,
            before.pos as int,
            front + u16_wire(data.len() as u16) + data,
        ));
    }

    /// Writes a record whose data is the four octets of an address.
    fn write_a(
        buffer: &mut BytePacketBuffer,
        domain: &str,
        addr: &Ipv4Address,
        ttl: u32,
    ) -> (r: Result<(), DnsError>)
        ensures
            wrote(
                old(buffer),
                final(buffer),
                r,
                (RecordView::A { domain: domain@, addr: *addr, ttl }).piece(),
            ),
    {
        let ghost before = *buffer;
        let ghost total = (RecordView::A { domain: domain@, addr: *addr, ttl }).piece();
        proof {
            lemma_name_piece(domain@);
        }
        let ghost start = before.pos as int;
        let ghost front = head(domain@, 1, ttl).wire + u16_wire(4);
        Self::write_head(buffer, domain, QueryType::A.to_num(), ttl)?;
        buffer.write_u16(4)?;
        assert(buffer.buf@ =~= overlay(before.buf@, start, front));
        let octets = addr.octets();
        buffer.write_u8(octets[0])?;
        buffer.write_u8(octets[1])?;
        assert(buffer.buf@ =~= overlay(before.buf@, start, front + seq![octets@[0], octets@[1]]));
        buffer.write_u8(octets[2])?;
        buffer.write_u8(octets[3])?;
        assert(buffer.buf@ =~= overlay(before.buf@, start, total.wire));
        Ok(())
    }

    /// Writes a record whose data is one name.
    fn write_name_data(
        buffer: &mut BytePacketBuffer,
        domain: &str,
        code: u16,
        name: &str,
        ttl: u32,
    ) -> (r: Result<(), DnsError>)
        ensures
            wrote(
                old(buffer),
                final(buffer),
                r,
                head(domain@, code, ttl).followed_by(sized(name_piece(name@))),
            ),
    {
        let ghost before = *buffer;
        let ghost front = head(domain@, code, ttl).wire;
        let ghost data = name_piece(name@);
        proof {
            lemma_name_piece(domain@);
            lemma_name_piece(name@);
        }
        Self::write_head(buffer, domain, code, ttl)?;
        let pos: usize = buffer.pos();
        buffer.write_u16(0)?;
        assert(buffer.buf@ =~= overlay(before.buf@, before.pos as int, front + u16_wire(0)));
        buffer.write_qname(name)?;
        assert(buffer.buf@ =~= overlay(
            before.buf@,
            before.pos as int,
            front + u16_wire(0) + data.wire,
        ));
        Self::close_data(buffer, pos, Ghost(before), Ghost(front), Ghost(data.wire));
        assert(head(domain@, code, ttl).followed_by(sized(data)).wire =~= front + u16_wire(
            data.wire.len() as u16,
        ) + data.wire);
        Ok(())
    }

    /// Writes a record whose data is a priority and a name.
    fn write_mx_data(
        buffer: &mut BytePacketBuffer,
        domain: &str,
        code: u16,
        priority: u16,
        host: &str,
        ttl: u32,
    ) -> (r: Result<(), DnsError>)
        ensures
            wrote(
                old(buffer),
                final(buffer),
                r,
                head(domain@, code, ttl).followed_by(
                    sized(Piece::plain(u16_wire(priority)).followed_by(name_piece(host@))),
                ),
            ),
    {
        let ghost before = *buffer;
        let ghost front = head(domain@, code, ttl).wire;
        let ghost data = Piece::plain(u16_wire(priority)).followed_by(name_piece(host@));
        proof {
            lemma_name_piece(domain@);
            lemma_name_piece(host@);
        }
        Self::write_head(buffer, domain, code, ttl)?;
        let pos: usize = buffer.pos();
        buffer.write_u16(0)?;
        assert(buffer.buf@ =~= overlay(before.buf@, before.pos as int, front + u16_wire(0)));
        buffer.write_u16(priority)?;
        assert(buffer.buf@ =~= overlay(
            before.buf@,
            before.pos as int,
            front + u16_wire(0) + u16_wire(priority),
        ));
        buffer.write_qname(host)?;
        assert(buffer.buf@ =~= overlay(
            before.buf@,
            before.pos as int,
            front + u16_wire(0) + data.wire,
        ));
        Self::close_data(buffer, pos, Ghost(before), Ghost(front), Ghost(data.wire));
        assert(head(domain@, code, ttl).followed_by(sized(data)).wire =~= front + u16_wire(
            data.wire.len() as u16,
        ) + data.wire);
        Ok(())
    }

    /// Writes a record whose data is two names and five numbers.
    fn write_soa_data(
        buffer: &mut BytePacketBuffer,
        domain: &str,
        code: u16,
        mname: &str,
        rname: &str,
        numbers: [u32; 5],
        ttl: u32,
    ) -> (r: Result<(), DnsError>)
        ensures
            wrote(
                old(buffer),
                final(buffer),
                r,
                head(domain@, code, ttl).followed_by(
                    sized(
                        name_piece(mname@).followed_by(name_piece(rname@)).followed_by(
                            Piece::plain(numbers_wire(numbers@)),
                        ),
                    ),
                ),
            ),
    {
        let ghost before = *buffer;
        let ghost front = head(domain@, code, ttl).wire;
        let ghost data = name_piece(mname@).followed_by(name_piece(rname@)).followed_by(
            Piece::plain(numbers_wire(numbers@)),
        );
        proof {
            lemma_name_piece(domain@);
            lemma_name_piece(mname@);
            lemma_name_piece(rname@);
        }
        let ghost start = before.pos as int;
        let ghost m = name_piece(mname@).wire;
        let ghost n = name_piece(rname@).wire;
        Self::write_head(buffer, domain, code, ttl)?;
        let pos: usize = buffer.pos();
        buffer.write_u16(0)?;
        assert(buffer.buf@ =~= overlay(before.buf@, start, front + u16_wire(0)));
        buffer.write_qname(mname)?;
        assert(buffer.buf@ =~= overlay(before.buf@, start, front + u16_wire(0) + m));
        buffer.write_qname(rname)?;
        let ghost names = front + u16_wire(0) + m + n;
        assert(buffer.buf@ =~= overlay(before.buf@, start, names));
        buffer.write_u32(numbers[0])?;
        assert(buffer.buf@ =~= overlay(before.buf@, start, names + u32_wire(numbers@[0])));
        buffer.write_u32(numbers[1])?;
        assert(buffer.buf@ =~= overlay(
            before.buf@,
            start,
            names + (u32_wire(numbers@[0]) + u32_wire(numbers@[1])),
        ));
        buffer.write_u32(numbers[2])?;
        assert(buffer.buf@ =~= overlay(
            before.buf@,
            start,
            names + (u32_wire(numbers@[0]) + u32_wire(numbers@[1]) + u32_wire(numbers@[2])),
        ));
        buffer.write_u32(numbers[3])?;
        assert(buffer.buf@ =~= overlay(
            before.buf@,
            start,
            names + (u32_wire(numbers@[0]) + u32_wire(numbers@[1]) + u32_wire(numbers@[2])
                + u32_wire(numbers@[3])),
        ));
        buffer.write_u32(numbers[4])?;
        assert(buffer.buf@ =~= overlay(
            before.buf@,
            before.pos as int,
            front + u16_wire(0) + data.wire,
        ));
        Self::close_data(buffer, pos, Ghost(before), Ghost(front), Ghost(data.wire));
        assert(head(domain@, code, ttl).followed_by(sized(data)).wire =~= front + u16_wire(
            data.wire.len() as u16,
        ) + data.wire);
        Ok(())
    }

    /// Writes a record whose data is the eight segments of an address.
    fn write_aaaa(
        buffer: &mut BytePacketBuffer,
        domain: &str,
        addr: &Ipv6Address,
        ttl: u32,
    ) -> (r: Result<(), DnsError>)
        ensures
            wrote(
                old(buffer),
                final(buffer),
                r,
                (RecordView::Aaaa { domain: domain@, addr: *addr, ttl }).piece(),
            ),
    {
        let ghost before = *buffer;
        let ghost total = (RecordView::Aaaa { domain: domain@, addr: *addr, ttl }).piece();
        proof {
            lemma_name_piece(domain@);
        }
        let ghost start = before.pos as int;
        let ghost mut done = head(domain@, 28, ttl).wire + u16_wire(16);
        Self::write_head(buffer, domain, QueryType::Aaaa.to_num(), ttl)?;
        buffer.write_u16(16)?;
        assert(buffer.buf@ =~= overlay(before.buf@, start, done));
        let segments = addr.segments();
        let mut i: usize = 0;
        while i < 8
            invariant
                i <= 8,
                before == *old(buffer),
                start == before.pos,
                segments == addr.segments,
                total == (RecordView::Aaaa { domain: domain@, addr: *addr, ttl }).piece(),
                name_piece(domain@).sound(),
                name_piece(domain@).bad is None,
                buffer.holds_after(&before, done),
                buffer.pos <= CAPACITY,
                done == head(domain@, 28, ttl).wire + u16_wire(16) + segments_wire(segments@, i as int),
                done.len() == head(domain@, 28, ttl).wire.len() + 2 + 2 * i,
                total.wire.len() == head(domain@, 28, ttl).wire.len() + 18,
                total.bad is None,
            decreases 8 - i,
        {
            buffer.write_u16(segments[i])?;
            proof {
                done = done + u16_wire(segments@[i as int]);
                assert(buffer.buf@ =~= overlay(before.buf@, start, done));
                assert(segments_wire(segments@, i + 1) =~= segments_wire(segments@, i as int) + u16_wire(
                    segments@[i as int],
                ));
                assert(done =~= head(domain@, 28, ttl).wire + u16_wire(16) + segments_wire(
                    segments@,
                    i + 1,
                ));
            }
            i += 1;
        }
        assert(total.wire =~= done) by {
            lemma_segments_wire(*addr);
        }
        Ok(())
    }

    /// Writes the record at the cursor.
    fn write_fields(&self, buffer: &mut BytePacketBuffer) -> (r: Result<(), DnsError>)
        ensures
            wrote(old(buffer), final(buffer), r, self@.piece()),
    {
        match self {
            DnsRecord::A { domain, addr, ttl } => {
                Self::write_a(buffer, domain.as_str(), addr, *ttl)
            },
            DnsRecord::Unknown { .. } => {
                assert(buffer.buf@ =~= overlay(buffer.buf@, buffer.pos as int, self@.piece().wire));
                Ok(())
            },
            DnsRecord::NS { domain, host, ttl } => Self::write_name_data(
                buffer,
                domain.as_str(),
                QueryType::NS.to_num(),
                host.as_str(),
                *ttl,
            ),
            DnsRecord::Cname { domain, host, ttl } => Self::write_name_data(
                buffer,
                domain.as_str(),
                QueryType::Cname.to_num(),
                host.as_str(),
                *ttl,
            ),
            DnsRecord::Soa {
                domain,
                mname,
                rname,
                serial,
                refresh,
                retry,
                expire,
                minimum,
                ttl,
            } => {
                let numbers: [u32; 5] = [*serial, *refresh, *retry, *expire, *minimum];
                Self::write_soa_data(
                    buffer,
                    domain.as_str(),
                    QueryType::Soa.to_num(),
                    mname.as_str(),
                    rname.as_str(),
                    numbers,
                    *ttl,
                )
            },
            DnsRecord::MX { domain, priority, host, ttl } => Self::write_mx_data(
                buffer,
                domain.as_str(),
                QueryType::MX.to_num(),
                *priority,
                host.as_str(),
                *ttl,
            ),
            DnsRecord::Txt { domain, text, ttl } => Self::write_name_data(
                buffer,
                domain.as_str(),
                QueryType::Txt.to_num(),
                text.as_str(),
                *ttl,
            ),
            DnsRecord::Aaaa { domain, addr, ttl } => {
                Self::write_aaaa(buffer, domain.as_str(), addr, *ttl)
            },
        }
    }

    /// Writes the record at the cursor: owner name, type code, class 1, time to live, then the
    /// data behind its length. A record of an undecoded type is not written. Returns the
    /// number of bytes written. On failure what was written up to there stays written.
    pub fn write(&self, buffer: &mut BytePacketBuffer) -> (r: Result<usize, DnsError>)
        ensures
            match self@.piece().outcome(old(buffer).pos as int) {
                Ok(()) => {
                    &&& r == Ok::<usize, DnsError>(self@.piece().wire.len() as usize)
                    &&& final(buffer).holds_after(old(buffer), self@.piece().wire)
                },
                Err(e) => r == Err::<usize, DnsError>(e) && final(buffer).continues(old(buffer)),
            },
    {
        let start_pos: usize = buffer.pos();
        self.write_fields(buffer)?;
        Ok(buffer.pos() - start_pos)
    }

    /// Reads the name under the cursor.
    fn read_name(buffer: &mut BytePacketBuffer) -> (r: Result<String, DnsError>)
        ensures
            old(buffer).wf() ==> final(buffer).wf(),
            final(buffer).buf == old(buffer).buf,
            match name_at(old(buffer).buf@, old(buffer).pos as int) {
                Ok((name, cursor)) => r is Ok && r->Ok_0@ == name && final(buffer).pos == cursor,
                Err(e) => r == Err::<String, DnsError>(e) && final(buffer).pos == old(buffer).pos,
            },
    {
        let mut name = String::new();
        buffer.read_qname(&mut name)?;
        assert(name@ =~= name_at(old(buffer).buf@, old(buffer).pos as int)->Ok_0.0);
        Ok(name)
    }

    /// Reads the data of an address record from under the cursor.
    fn read_a(buffer: &mut BytePacketBuffer, domain: String, ttl: u32) -> (r: Result<
        DnsRecord,
        DnsError,
    >)
        ensures
            decoded(
                old(buffer),
                final(buffer),
                r,
                within(
                    old(buffer).pos + 4,
                    RecordView::A {
                        domain: domain@,
                        addr: ipv4_at(old(buffer).buf@, old(buffer).pos as int),
                        ttl,
                    },
                ),
            ),
    {
        let ghost d = buffer.pos as int;
        let ghost buf = buffer.buf@;
        let raw_addr: u32 = buffer.read_u32()?;
        proof {
            lemma_u32_parts(raw_addr, buf[d], buf[d + 1], buf[d + 2], buf[d + 3]);
        }
        let addr = Ipv4Address::new(
            ((raw_addr >> 24) & 0xFF) as u8,
            ((raw_addr >> 16) & 0xFF) as u8,
            ((raw_addr >> 8) & 0xFF) as u8,
            (raw_addr & 0xFF) as u8,
        );
        Ok(DnsRecord::A { domain, addr, ttl })
    }

    /// Reads the data of an IPv6 address record from under the cursor.
    fn read_aaaa(buffer: &mut BytePacketBuffer, domain: String, ttl: u32) -> (r: Result<
        DnsRecord,
        DnsError,
    >)
        ensures
            decoded(
                old(buffer),
                final(buffer),
                r,
                within(
                    old(buffer).pos + 16,
                    RecordView::Aaaa {
                        domain: domain@,
                        addr: ipv6_at(old(buffer).buf@, old(buffer).pos as int),
                        ttl,
                    },
                ),
            ),
    {
        let ghost d = buffer.pos as int;
        let ghost buf = buffer.buf@;
        if buffer.pos() > CAPACITY - 16 {
            return Err(DnsError::EndOfBuffer);
        }
        let raw_addr1: u32 = buffer.read_u32()?;
        let raw_addr2: u32 = buffer.read_u32()?;
        let raw_addr3: u32 = buffer.read_u32()?;
        let raw_addr4: u32 = buffer.read_u32()?;
        proof {
            lemma_u32_parts(raw_addr1, buf[d], buf[d + 1], buf[d + 2], buf[d + 3]);
            lemma_u32_parts(raw_addr2, buf[d + 4], buf[d + 5], buf[d + 6], buf[d + 7]);
            lemma_u32_parts(raw_addr3, buf[d + 8], buf[d + 9], buf[d + 10], buf[d + 11]);
            lemma_u32_parts(raw_addr4, buf[d + 12], buf[d + 13], buf[d + 14], buf[d + 15]);
        }
        let addr = Ipv6Address::new(
            ((raw_addr1 >> 16) & 0xFFFF) as u16,
            (raw_addr1 & 0xFFFF) as u16,
            ((raw_addr2 >> 16) & 0xFFFF) as u16,
            (raw_addr2 & 0xFFFF) as u16,
            ((raw_addr3 >> 16) & 0xFFFF) as u16,
            (raw_addr3 & 0xFFFF) as u16,
            ((raw_addr4 >> 16) & 0xFFFF) as u16,
            (raw_addr4 & 0xFFFF) as u16,
        );
        Ok(DnsRecord::Aaaa { domain, addr, ttl })
    }

    /// Reads the data of a start-of-authority record from under the cursor.
    fn read_soa(buffer: &mut BytePacketBuffer, domain: String, ttl: u32) -> (r: Result<
        DnsRecord,
        DnsError,
    >)
        ensures
            decoded(
                old(buffer),
                final(buffer),
                r,
                data_at(old(buffer).buf@, old(buffer).pos as int, domain@, 6, ttl, 0),
            ),
    {
        let mname = Self::read_name(buffer)?;
        let rname = Self::read_name(buffer)?;
        if buffer.pos() > CAPACITY - 20 {
            return Err(DnsError::EndOfBuffer);
        }
        let serial: u32 = buffer.read_u32()?;
        let refresh: u32 = buffer.read_u32()?;
        let retry: u32 = buffer.read_u32()?;
        let expire: u32 = buffer.read_u32()?;
        let minimum: u32 = buffer.read_u32()?;
        Ok(DnsRecord::Soa { domain, mname, rname, serial, refresh, retry, expire, minimum, ttl })
    }

    /// Reads the data of a record from under the cursor, as its type calls for.
    fn read_data(
        buffer: &mut BytePacketBuffer,
        domain: String,
        qtype_num: u16,
        ttl: u32,
        data_len: u16,
    ) -> (r: Result<DnsRecord, DnsError>)
        ensures
            decoded(
                old(buffer),
                final(buffer),
                r,
                data_at(old(buffer).buf@, old(buffer).pos as int, domain@, qtype_num, ttl, data_len),
            ),
    {
        let qtype = QueryType::from_num(qtype_num);
        match qtype {
            QueryType::A => Self::read_a(buffer, domain, ttl),
            QueryType::Aaaa => Self::read_aaaa(buffer, domain, ttl),
            QueryType::NS => {
                let ns = Self::read_name(buffer)?;
                Ok(DnsRecord::NS { domain, host: ns, ttl })
            },
            QueryType::Cname => {
                let cname = Self::read_name(buffer)?;
                Ok(DnsRecord::Cname { domain, host: cname, ttl })
            },
            QueryType::Soa => Self::read_soa(buffer, domain, ttl),
            QueryType::MX => {
                let priority: u16 = buffer.read_u16()?;
                let mx = Self::read_name(buffer)?;
                Ok(DnsRecord::MX { domain, priority, host: mx, ttl })
            },
            QueryType::Txt => {
                let txt = Self::read_name(buffer)?;
                Ok(DnsRecord::Txt { domain, text: txt, ttl })
            },
            QueryType::Unknown(_) => {
                buffer.step(data_len as usize)?;
                Ok(DnsRecord::Unknown { domain, qtype: qtype_num, data_len, ttl })
            },
        }
    }

    /// Reads the record under the cursor; on failure the cursor is anywhere.
    fn read_fields(buffer: &mut BytePacketBuffer) -> (r: Result<DnsRecord, DnsError>)
        ensures
            decoded(
                old(buffer),
                final(buffer),
                r,
                record_at(old(buffer).buf@, old(buffer).pos as int),
            ),
    {
        let domain = Self::read_name(buffer)?;
        if buffer.pos() > CAPACITY - 10 {
            return Err(DnsError::EndOfBuffer);
        }
        let qtype_num: u16 = buffer.read_u16()?;
        let _ = buffer.read_u16()?;
        let ttl: u32 = buffer.read_u32()?;
        let data_len: u16 = buffer.read_u16()?;
        Self::read_data(buffer, domain, qtype_num, ttl, data_len)
    }

    /// Decodes the record under the cursor and moves the cursor behind it: owner name, type
    /// code, class, time to live, data length, then the data as the type calls for. The data
    /// of a type that is not decoded is skipped. On failure the cursor stays where it was.
    pub fn read(buffer: &mut BytePacketBuffer) -> (r: Result<DnsRecord, DnsError>)
        ensures
            decoded(
                old(buffer),
                final(buffer),
                r,
                record_at(old(buffer).buf@, old(buffer).pos as int),
            ),
            r is Err ==> final(buffer).pos == old(buffer).pos,
    {
        let start: usize = buffer.pos();
        let r = Self::read_fields(buffer);
        if r.is_err() {
            buffer.pos = start;
        }
        r
    }
}

} // verus!