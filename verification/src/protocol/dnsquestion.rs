use vstd::prelude::*;
use vstd::string::StringExecFns;
use crate::protocol::byte_packet_buffer::{wrote, BytePacketBuffer};
use crate::protocol::error::DnsError;
use crate::protocol::name::{lemma_name_piece, name_at, name_piece};
use crate::protocol::querytype::QueryType;
use crate::protocol::wire::{overlay, u16_at, u16_wire, Piece, CAPACITY};

verus! {

/// What a message asks: a name and a type.
#[derive(Debug, Clone, PartialEq, Eq)]
pub struct DnsQuestion {
    pub name: String,
    pub qtype: QueryType,
}

/// A question as a value.
pub struct QuestionView {
    pub name: Seq<char>,
    pub qtype: QueryType,
}

impl View for DnsQuestion {
    type V = QuestionView;

    open spec fn view(&self) -> QuestionView {
        QuestionView { name: self.name@, qtype: self.qtype }
    }
}

impl QuestionView {
    /// The question as it is written: name, type code, class 1.
    pub open spec fn piece(self) -> Piece {
        name_piece(self.name).followed_by(Piece::plain(u16_wire(self.qtype.code()) + u16_wire(1)))
    }
}

/// The question that stands at offset `pos` of the datagram `buf`, and where the cursor
/// stands behind it: a name, a type code, and a class that is not looked at.
pub open spec fn question_at(buf: Seq<u8>, pos: int) -> Result<(QuestionView, int), DnsError> {
    match name_at(buf, pos) {
        Ok((name, p)) => if p + 4 > CAPACITY {
            Err(DnsError::EndOfBuffer)
        } else {
            Ok((QuestionView { name, qtype: QueryType::of_code(u16_at(buf, p)) }, p + 4))
        },
        Err(e) => Err(e),
    }
}

impl DnsQuestion {
    pub fn new(name: String, qtype: QueryType) -> (r: DnsQuestion)
        ensures
            r.name == name,
            r.qtype == qtype,
    {
        DnsQuestion { name, qtype }
    }

    /// Decodes the question under the cursor and moves the cursor behind it. The name is
    /// appended to the name that `self` holds, the type replaces its type. On failure nothing
    /// changes.
    pub fn read(&mut self, buffer: &mut BytePacketBuffer) -> (r: Result<(), DnsError>)
        ensures
            old(buffer).wf() ==> final(buffer).wf(),
            final(buffer).buf == old(buffer).buf,
            match question_at(old(buffer).buf@, old(buffer).pos as int) {
                Ok((question, cursor)) => {
                    &&& r is Ok
                    &&& final(self).name@ == old(self).name@ + question.name
                    &&& final(self).qtype == question.qtype
                    &&& final(buffer).pos == cursor
                },
                Err(e) => {
                    &&& r == Err::<(), DnsError>(e)
                    &&& final(self)@ == old(self)@
                    &&& final(buffer).pos == old(buffer).pos
                },
            },
    {
        let start: usize = buffer.pos();
        let mut name = String::new();
        buffer.read_qname(&mut name)?;
        if buffer.pos() > CAPACITY - 4 {
            buffer.pos = start;
            return Err(DnsError::EndOfBuffer);
        }
        let code: u16 = buffer.read_u16()?;
        let _ = buffer.read_u16()?;
        assert(name@ =~= name_at(old(buffer).buf@, old(buffer).pos as int)->Ok_0.0);
        self.name.append(name.as_str());
        self.qtype = QueryType::from_num(code);
        Ok(())
    }

    /// Writes the question at the cursor: name, type code, class 1.
    pub fn write(&self, buffer: &mut BytePacketBuffer) -> (r: Result<(), DnsError>)
        ensures
            wrote(old(buffer), final(buffer), r, self@.piece()),
    {
        let ghost before = *buffer;
        proof {
            lemma_name_piece(self.name@);
        }
        buffer.write_qname(self.name.as_str())?;
        let typenum: u16 = self.qtype.to_num();
        buffer.write_u16(typenum)?;
        assert(buffer.buf@ =~= overlay(
            before.buf@,
            before.pos as int,
            name_piece(self.name@).wire + u16_wire(typenum),
        ));
        buffer.write_u16(1)?;
        assert(buffer.buf@ =~= overlay(before.buf@, before.pos as int, self@.piece().wire));
        Ok(())
    }
}

} // verus!
