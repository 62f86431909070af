use vstd::prelude::*;
use crate::protocol::byte_packet_buffer::{wrote, BytePacketBuffer};
use crate::protocol::error::DnsError;
use crate::protocol::resultcode::ResultCode;
use crate::protocol::wire::{overlay, u16_at, u16_wire, Piece, CAPACITY};

verus! {

/// Number of bytes of a header on the wire.
pub const HEADER_LEN: usize = 12;

/// The fixed start of every message.
#[derive(Clone, Copy, Debug, PartialEq, Eq)]
pub struct DnsHeader {
    pub id: u16,
    pub recursion_desired: bool,
    pub truncated_message: bool,
    pub authoritative_answer: bool,
    /// Four bits; only the low four are written.
    pub opcode: u8,
    pub response: bool,
    pub rescode: ResultCode,
    pub recursion_available: bool,
    pub questions: u16,
    pub answers: u16,
    pub authoritative_entries: u16,
    pub resource_entries: u16,
}

/// One bit for a flag.
pub open spec fn bit(flag: bool) -> u8 {
    if flag {
        1
    } else {
        0
    }
}

/// The first flag byte: response, opcode, authoritative, truncated, recursion desired, from
/// the highest bit down.
pub open spec fn flags_hi(h: DnsHeader) -> u8 {
    bit(h.recursion_desired) | (bit(h.truncated_message) << 1) | (bit(h.authoritative_answer) << 2)
        | ((h.opcode & 0x0F) << 3) | (bit(h.response) << 7)
}

/// The second flag byte: recursion available in the highest bit, three bits left zero, the
/// response code in the low four.
pub open spec fn flags_lo(h: DnsHeader) -> u8 {
    h.rescode.code() | (bit(h.recursion_available) << 7)
}

/// The twelve bytes of a header.
pub open spec fn header_wire(h: DnsHeader) -> Seq<u8> {
    u16_wire(h.id) + seq![flags_hi(h), flags_lo(h)] + u16_wire(h.questions) + u16_wire(h.answers)
        + u16_wire(h.authoritative_entries) + u16_wire(h.resource_entries)
}

/// The header whose twelve bytes stand at offset `pos` of `buf`.
pub open spec fn header_of(buf: Seq<u8>, pos: int) -> DnsHeader {
    let a = buf[pos + 2];
    let b = buf[pos + 3];
    DnsHeader {
        id: u16_at(buf, pos),
        recursion_desired: (a & 0x01) > 0,
        truncated_message: (a & 0x02) > 0,
        authoritative_answer: (a & 0x04) > 0,
        opcode: (a >> 3) & 0x0F,
        response: (a & 0x80) > 0,
        rescode: ResultCode::of_code(b & 0x0F),
        recursion_available: (b & 0x80) > 0,
        questions: u16_at(buf, pos + 4),
        answers: u16_at(buf, pos + 6),
        authoritative_entries: u16_at(buf, pos + 8),
        resource_entries: u16_at(buf, pos + 10),
    }
}

/// The header that stands at offset `pos` of the datagram `buf`, and where the cursor stands
/// behind it.
pub open spec fn header_at(buf: Seq<u8>, pos: int) -> Result<(DnsHeader, int), DnsError> {
    if pos + HEADER_LEN > CAPACITY {
        Err(DnsError::EndOfBuffer)
    } else {
        Ok((header_of(buf, pos), pos + HEADER_LEN))
    }
}

/// One bit for a flag.
fn flag_bit(flag: bool) -> (r: u8)
    ensures
        r == bit(flag),
{
    if flag {
        1
    } else {
        0
    }
}

impl DnsHeader {
    /// The header of a query with no flags set and all counts zero.
    pub open spec fn blank() -> DnsHeader {
        DnsHeader {
            id: 0,
            recursion_desired: false,
            truncated_message: false,
            authoritative_answer: false,
            opcode: 0,
            response: false,
            rescode: ResultCode::NoError,
            recursion_available: false,
            questions: 0,
            answers: 0,
            authoritative_entries: 0,
            resource_entries: 0,
        }
    }

    /// A header of a query with no flags set and all counts zero.
    #[verifier::when_used_as_spec(blank)]
    pub fn new() -> (r: DnsHeader)
        ensures
            r == DnsHeader::blank(),
    {
        DnsHeader {
            id: 0,
            recursion_desired: false,
            truncated_message: false,
            authoritative_answer: false,
            opcode: 0,
            response: false,
            rescode: ResultCode::NoError,
            recursion_available: false,
            questions: 0,
            answers: 0,
            authoritative_entries: 0,
            resource_entries: 0,
        }
    }

    /// Decodes the twelve bytes under the cursor into `self` and moves the cursor behind
    /// them. On failure nothing changes.
    pub fn read(&mut self, buffer: &mut BytePacketBuffer) -> (r: Result<(), DnsError>)
        ensures
            old(buffer).wf() ==> final(buffer).wf(),
            final(buffer).buf == old(buffer).buf,
            match header_at(old(buffer).buf@, old(buffer).pos as int) {
                Ok((header, cursor)) => {
                    &&& r is Ok
                    &&& *final(self) == header
                    &&& final(buffer).pos == cursor
                },
                Err(e) => {
                    &&& r == Err::<(), DnsError>(e)
                    &&& *final(self) == *old(self)
                    &&& final(buffer).pos == old(buffer).pos
                },
            },
    {
        if buffer.pos() > CAPACITY - HEADER_LEN {
            return Err(DnsError::EndOfBuffer);
        }
        let id: u16 = buffer.read_u16()?;
        let a: u8 = buffer.read()?;
        let b: u8 = buffer.read()?;
        let questions: u16 = buffer.read_u16()?;
        let answers: u16 = buffer.read_u16()?;
        let authoritative_entries: u16 = buffer.read_u16()?;
        let resource_entries: u16 = buffer.read_u16()?;
        self.id = id;
        self.recursion_desired = (a & (1 << 0)) > 0;
        self.truncated_message = (a & (1 << 1)) > 0;
        self.authoritative_answer = (a & (1 << 2)) > 0;
        self.opcode = (a >> 3) & 0x0F;
        self.response = (a & (1 << 7)) > 0;
        self.rescode = ResultCode::from_num(b & 0x0F);
        self.recursion_available = (b & (1 << 7)) > 0;
        self.questions = questions;
        self.answers = answers;
        self.authoritative_entries = authoritative_entries;
        self.resource_entries = resource_entries;
        assert((1u8 << 0) == 0x01 && (1u8 << 1) == 0x02 && (1u8 << 2) == 0x04 && (1u8 << 7) == 0x80)
            by (bit_vector);
        Ok(())
    }

    /// Writes the header as twelve bytes at the cursor.
    pub fn write(&self, buffer: &mut BytePacketBuffer) -> (r: Result<(), DnsError>)
        ensures
            wrote(old(buffer), final(buffer), r, Piece::plain(header_wire(*self))),
    {
        let ghost before = *buffer;
        let ghost start = before.pos as int;
        let ghost flags = seq![flags_hi(*self), flags_lo(*self)];
        buffer.write_u16(self.id)?;
        buffer.write_u8(
            flag_bit(self.recursion_desired) | (flag_bit(self.truncated_message) << 1) | (flag_bit(
                self.authoritative_answer,
            ) << 2) | ((self.opcode & 0x0F) << 3) | (flag_bit(self.response) << 7),
        )?;
        assert(buffer.buf@ =~= overlay(before.buf@, start, u16_wire(self.id) + seq![flags_hi(*self)]));
        buffer.write_u8(self.rescode.to_num() | (flag_bit(self.recursion_available) << 7))?;
        assert(buffer.buf@ =~= overlay(before.buf@, start, u16_wire(self.id) + flags));
        buffer.write_u16(self.questions)?;
        assert(buffer.buf@ =~= overlay(
            before.buf@,
            start,
            u16_wire(self.id) + flags + u16_wire(self.questions),
        ));
        buffer.write_u16(self.answers)?;
        assert(buffer.buf@ =~= overlay(
            before.buf@,
            start,
            u16_wire(self.id) + flags + u16_wire(self.questions) + u16_wire(self.answers),
        ));
        buffer.write_u16(self.authoritative_entries)?;
        assert(buffer.buf@ =~= overlay(
            before.buf@,
            start,
            u16_wire(self.id) + flags + u16_wire(self.questions) + u16_wire(self.answers) + u16_wire(
                self.authoritative_entries,
            ),
        ));
        buffer.write_u16(self.resource_entries)?;
        assert(buffer.buf@ =~= overlay(before.buf@, start, header_wire(*self)));
        Ok(())
    }
}

} // verus!
