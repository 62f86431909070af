use vstd::prelude::*;
use crate::protocol::address::Ipv4Address;
use crate::protocol::byte_packet_buffer::{
    lemma_wrote_nothing, lemma_wrote_seq, wrote, BytePacketBuffer,
};
use crate::protocol::dnsheader::{header_at, header_wire, DnsHeader};
use crate::protocol::dnsquestion::{question_at, DnsQuestion, QuestionView};
use crate::protocol::dnsrecord::{lemma_record_piece, record_at, DnsRecord, RecordView};
use crate::protocol::error::DnsError;
use crate::protocol::name::lemma_name_piece;
use crate::protocol::querytype::QueryType;
use crate::protocol::text::{ends_with, is_suffix, same_text};
use crate::protocol::wire::{
    concat, lemma_concat_first, lemma_concat_sound, lemma_concat_step, lemma_outcome_seq, Piece,
};

verus! {

/// A message: a header and four sections.
#[derive(Clone, Debug, PartialEq, Eq)]
pub struct DnsPacket {
    pub header: DnsHeader,
    pub questions: Vec<DnsQuestion>,
    pub answers: Vec<DnsRecord>,
    pub authorities: Vec<DnsRecord>,
    pub resources: Vec<DnsRecord>,
}

/// A message as a value.
pub struct PacketView {
    pub header: DnsHeader,
    pub questions: Seq<QuestionView>,
    pub answers: Seq<RecordView>,
    pub authorities: Seq<RecordView>,
    pub resources: Seq<RecordView>,
}

/// The questions as values.
pub open spec fn question_views(questions: Seq<DnsQuestion>) -> Seq<QuestionView> {
    questions.map_values(|q: DnsQuestion| q@)
}

/// The records as values.
pub open spec fn record_views(records: Seq<DnsRecord>) -> Seq<RecordView> {
    records.map_values(|r: DnsRecord| r@)
}

impl View for DnsPacket {
    type V = PacketView;

    open spec fn view(&self) -> PacketView {
        PacketView {
            header: self.header,
            questions: question_views(self.questions@),
            answers: record_views(self.answers@),
            authorities: record_views(self.authorities@),
            resources: record_views(self.resources@),
        }
    }
}

/// The count that a header holds for a section of `len` entries: its low sixteen bits.
pub open spec fn count_of(len: nat) -> u16 {
    (len % 0x1_0000) as u16
}

/// Each question as it is written.
pub open spec fn question_pieces(questions: Seq<QuestionView>) -> Seq<Piece> {
    questions.map_values(|q: QuestionView| q.piece())
}

/// Each record as it is written.
pub open spec fn record_pieces(records: Seq<RecordView>) -> Seq<Piece> {
    records.map_values(|r: RecordView| r.piece())
}

/// The questions as they are written, one behind the other.
#[verifier::opaque]
pub open spec fn questions_piece(questions: Seq<QuestionView>) -> Piece {
    concat(question_pieces(questions))
}

/// The records as they are written, one behind the other.
#[verifier::opaque]
pub open spec fn records_piece(records: Seq<RecordView>) -> Piece {
    concat(record_pieces(records))
}

impl PacketView {
    /// The header with each count set to the length of its section.
    pub open spec fn counted_header(self) -> DnsHeader {
        DnsHeader {
            questions: count_of(self.questions.len()),
            answers: count_of(self.answers.len()),
            authoritative_entries: count_of(self.authorities.len()),
            resource_entries: count_of(self.resources.len()),
            ..self.header
        }
    }

    /// The message with each count of its header set to the length of its section.
    pub open spec fn counted(self) -> PacketView {
        PacketView { header: self.counted_header(), ..self }
    }

    /// The message as it is written: header, questions, answers, authority, additional.
    pub open spec fn piece(self) -> Piece {
        Piece::plain(header_wire(self.header))
            .followed_by(questions_piece(self.questions))
            .followed_by(records_piece(self.answers))
            .followed_by(records_piece(self.authorities))
            .followed_by(records_piece(self.resources))
    }
}

/// The `count` questions that stand one behind the other from offset `pos` of the datagram
/// `buf`, and where the cursor stands behind them.
pub open spec fn questions_at(
    buf: Seq<u8>,
    pos: int,
    count: nat,
) -> Result<(Seq<QuestionView>, int), DnsError>
    decreases count,
{
    if count == 0 {
        Ok((Seq::empty(), pos))
    } else {
        match question_at(buf, pos) {
            Ok((first, p)) => match questions_at(buf, p, (count - 1) as nat) {
                Ok((others, end)) => Ok((seq![first] + others, end)),
                Err(e) => Err(e),
            },
            Err(e) => Err(e),
        }
    }
}

/// The `count` records that stand one behind the other from offset `pos` of the datagram
/// `buf`, and where the cursor stands behind them.
pub open spec fn records_at(
    buf: Seq<u8>,
    pos: int,
    count: nat,
) -> Result<(Seq<RecordView>, int), DnsError>
    decreases count,
{
    if count == 0 {
        Ok((Seq::empty(), pos))
    } else {
        match record_at(buf, pos) {
            Ok((first, p)) => match records_at(buf, p, (count - 1) as nat) {
                Ok((others, end)) => Ok((seq![first] + others, end)),
                Err(e) => Err(e),
            },
            Err(e) => Err(e),
        }
    }
}

/// The message that stands at offset `pos` of the datagram `buf`, and where the cursor
/// stands behind it: the header, then as many questions, answers, authority records and
/// additional records as the header counts.
pub open spec fn packet_at(buf: Seq<u8>, pos: int) -> Result<(PacketView, int), DnsError> {
    match header_at(buf, pos) {
        Ok((header, q)) => match questions_at(buf, q, header.questions as nat) {
            Ok((questions, a)) => match records_at(buf, a, header.answers as nat) {
                Ok((answers, u)) => match records_at(buf, u, header.authoritative_entries as nat) {
                    Ok((authorities, x)) => match records_at(buf, x, header.resource_entries as nat) {
                        Ok((resources, end)) => Ok(
                            (PacketView { header, questions, answers, authorities, resources }, end),
                        ),
                        Err(e) => Err(e),
                    },
                    Err(e) => Err(e),
                },
                Err(e) => Err(e),
            },
            Err(e) => Err(e),
        },
        Err(e) => Err(e),
    }
}

/// The address of the first address record at or behind index `from` of `records`.
pub open spec fn first_address(records: Seq<RecordView>, from: int) -> Option<Ipv4Address>
    decreases records.len() - from,
{
    if from < 0 || from >= records.len() {
        None
    } else {
        match records[from] {
            RecordView::A { addr, .. } => Some(addr),
            _ => first_address(records, from + 1),
        }
    }
}

/// The address of the first address record at or behind index `from` of `records` whose owner
/// is `host`.
pub open spec fn address_of(
    records: Seq<RecordView>,
    host: Seq<char>,
    from: int,
) -> Option<Ipv4Address>
    decreases records.len() - from,
{
    if from < 0 || from >= records.len() {
        None
    } else {
        match records[from] {
            RecordView::A { domain, addr, .. } => if domain == host {
                Some(addr)
            } else {
                address_of(records, host, from + 1)
            },
            _ => address_of(records, host, from + 1),
        }
    }
}

/// A name server for a zone: the zone and the host name of the server.
pub struct Delegation {
    pub zone: Seq<char>,
    pub host: Seq<char>,
}

/// The name servers that `authorities` names for a zone that `qname` ends with, in the order
/// of the records.
pub open spec fn delegations(authorities: Seq<RecordView>, qname: Seq<char>) -> Seq<Delegation>
    decreases authorities.len(),
{
    if authorities.len() == 0 {
        Seq::empty()
    } else {
        let before = delegations(authorities.drop_last(), qname);
        match authorities.last() {
            RecordView::NS { domain, host, .. } => if is_suffix(domain, qname) {
                before.push(Delegation { zone: domain, host })
            } else {
                before
            },
            _ => before,
        }
    }
}

/// The first address that `records` holds for one of the name servers at or behind index
/// `from` of `servers`: the servers count in their order, and for each the records in theirs.
pub open spec fn glue(
    servers: Seq<Delegation>,
    records: Seq<RecordView>,
    from: int,
) -> Option<Ipv4Address>
    decreases servers.len() - from,
{
    if from < 0 || from >= servers.len() {
        None
    } else {
        match address_of(records, servers[from].host, 0) {
            Some(addr) => Some(addr),
            None => glue(servers, records, from + 1),
        }
    }
}

/// Oversized labels of a question begin inside it.
pub proof fn lemma_question_piece(q: QuestionView)
    ensures
        q.piece().sound(),
        q.piece().wire.len() >= 6,
{
    lemma_name_piece(q.name);
}

/// A row of questions is its first question followed by the others; a row of none is
/// nothing.
pub proof fn lemma_questions_first(questions: Seq<QuestionView>)
    ensures
        questions.len() == 0 ==> questions_piece(questions) == Piece::plain(Seq::empty()),
        questions.len() > 0 ==> questions_piece(questions) == questions[0].piece().followed_by(
            questions_piece(questions.drop_first()),
        ),
{
    reveal(questions_piece);
    if questions.len() > 0 {
        let ps = question_pieces(questions);
        lemma_concat_first(ps);
        assert(ps.drop_first() =~= question_pieces(questions.drop_first()));
    }
}

/// A row of records is its first record followed by the others; a row of none is nothing.
pub proof fn lemma_records_first(records: Seq<RecordView>)
    ensures
        records.len() == 0 ==> records_piece(records) == Piece::plain(Seq::empty()),
        records.len() > 0 ==> records_piece(records) == records[0].piece().followed_by(
            records_piece(records.drop_first()),
        ),
{
    reveal(records_piece);
    if records.len() > 0 {
        let ps = record_pieces(records);
        lemma_concat_first(ps);
        assert(ps.drop_first() =~= record_pieces(records.drop_first()));
    }
}

/// Oversized labels of a row of questions begin inside it.
pub proof fn lemma_questions_piece(questions: Seq<QuestionView>)
    ensures
        questions_piece(questions).sound(),
{
    reveal(questions_piece);
    let pieces = question_pieces(questions);
    assert forall|i: int| 0 <= i < pieces.len() implies (#[trigger] pieces[i]).sound() by {
        lemma_question_piece(questions[i]);
    }
    lemma_concat_sound(pieces);
}

/// Oversized labels of a row of records begin inside it.
pub proof fn lemma_records_piece(records: Seq<RecordView>)
    ensures
        records_piece(records).sound(),
{
    reveal(records_piece);
    let pieces = record_pieces(records);
    assert forall|i: int| 0 <= i < pieces.len() implies (#[trigger] pieces[i]).sound() by {
        lemma_record_piece(records[i]);
    }
    lemma_concat_sound(pieces);
}

impl Default for DnsPacket {
    fn default() -> (r: DnsPacket)
        ensures
            r.header == DnsHeader::new(),
            r.questions@.len() == 0,
            r.answers@.len() == 0,
            r.authorities@.len() == 0,
            r.resources@.len() == 0,
    {
        DnsPacket::new()
    }
}

impl DnsPacket {
    /// A message with a fresh header and empty sections.
    pub fn new() -> (r: DnsPacket)
        ensures
            r.header == DnsHeader::new(),
            r.questions@.len() == 0,
            r.answers@.len() == 0,
            r.authorities@.len() == 0,
            r.resources@.len() == 0,
    {
        DnsPacket {
            header: DnsHeader::new(),
            questions: Vec::new(),
            answers: Vec::new(),
            authorities: Vec::new(),
            resources: Vec::new(),
        }
    }

    /// Reads `count` questions from under the cursor.
    fn read_questions(
        buffer: &mut BytePacketBuffer,
        count: u16,
    ) -> (r: Result<Vec<DnsQuestion>, DnsError>)
        ensures
            old(buffer).wf() ==> final(buffer).wf(),
            final(buffer).buf == old(buffer).buf,
            match questions_at(old(buffer).buf@, old(buffer).pos as int, count as nat) {
                Ok((questions, cursor)) => {
                    &&& r is Ok
                    &&& question_views(r->Ok_0@) == questions
                    &&& final(buffer).pos == cursor
                },
                Err(e) => r == Err::<Vec<DnsQuestion>, DnsError>(e),
            },
    {
        let ghost whole = questions_at(old(buffer).buf@, old(buffer).pos as int, count as nat);
        let mut questions: Vec<DnsQuestion> = Vec::new();
        let mut i: u16 = 0;
        assert(question_views(questions@) =~= Seq::empty());
        while i < count
            invariant
                i <= count,
                buffer.buf == old(buffer).buf,
                old(buffer).wf() ==> buffer.wf(),
                whole == questions_at(old(buffer).buf@, old(buffer).pos as int, count as nat),
                match questions_at(buffer.buf@, buffer.pos as int, (count - i) as nat) {
                    Ok((others, end)) => whole == Ok::<(Seq<QuestionView>, int), DnsError>(
                        (question_views(questions@) + others, end),
                    ),
                    Err(e) => whole == Err::<(Seq<QuestionView>, int), DnsError>(e),
                },
            decreases count - i,
        {
            let ghost done = question_views(questions@);
            let mut question = DnsQuestion::new(String::new(), QueryType::Unknown(0));
            question.read(buffer)?;
            proof {
                assert(question.name@ =~= question@.name);
                let others = questions_at(buffer.buf@, buffer.pos as int, (count - i - 1) as nat);
                assert(question_views(questions@.push(question)) =~= done.push(question@));
                if others is Ok {
                    let rest = others->Ok_0.0;
                    assert(done.push(question@) + rest =~= done + (seq![question@] + rest));
                }
            }
            questions.push(question);
            i += 1;
        }
        assert(question_views(questions@) + Seq::empty() =~= question_views(questions@));
        Ok(questions)
    }

    /// Reads `count` records from under the cursor.
    fn read_records(
        buffer: &mut BytePacketBuffer,
        count: u16,
    ) -> (r: Result<Vec<DnsRecord>, DnsError>)
        ensures
            old(buffer).wf() ==> final(buffer).wf(),
            final(buffer).buf == old(buffer).buf,
            match records_at(old(buffer).buf@, old(buffer).pos as int, count as nat) {
                Ok((records, cursor)) => {
                    &&& r is Ok
                    &&& record_views(r->Ok_0@) == records
                    &&& final(buffer).pos == cursor
                },
                Err(e) => r == Err::<Vec<DnsRecord>, DnsError>(e),
            },
    {
        let ghost whole = records_at(old(buffer).buf@, old(buffer).pos as int, count as nat);
        let mut records: Vec<DnsRecord> = Vec::new();
        let mut i: u16 = 0;
        assert(record_views(records@) =~= Seq::empty());
        while i < count
            invariant
                i <= count,
                buffer.buf == old(buffer).buf,
                old(buffer).wf() ==> buffer.wf(),
                whole == records_at(old(buffer).buf@, old(buffer).pos as int, count as nat),
                match records_at(buffer.buf@, buffer.pos as int, (count - i) as nat) {
                    Ok((others, end)) => whole == Ok::<(Seq<RecordView>, int), DnsError>(
                        (record_views(records@) + others, end),
                    ),
                    Err(e) => whole == Err::<(Seq<RecordView>, int), DnsError>(e),
                },
            decreases count - i,
        {
            let ghost done = record_views(records@);
            let rec = DnsRecord::read(buffer)?;
            proof {
                let others = records_at(buffer.buf@, buffer.pos as int, (count - i - 1) as nat);
                assert(record_views(records@.push(rec)) =~= done.push(rec@));
                if others is Ok {
                    let rest = others->Ok_0.0;
                    assert(done.push(rec@) + rest =~= done + (seq![rec@] + rest));
                }
            }
            records.push(rec);
            i += 1;
        }
        assert(record_views(records@) + Seq::empty() =~= record_views(records@));
        Ok(records)
    }

    /// Reads a message from under the cursor; on failure the cursor is anywhere.
    fn read_sections(buffer: &mut BytePacketBuffer) -> (r: Result<DnsPacket, DnsError>)
        ensures
            old(buffer).wf() ==> final(buffer).wf(),
            final(buffer).buf == old(buffer).buf,
            match packet_at(old(buffer).buf@, old(buffer).pos as int) {
                Ok((packet, cursor)) => {
                    &&& r is Ok
                    &&& r->Ok_0@ == packet
                    &&& final(buffer).pos == cursor
                },
                Err(e) => r == Err::<DnsPacket, DnsError>(e),
            },
    {
        let mut header = DnsHeader::new();
        header.read(buffer)?;
        let questions = Self::read_questions(buffer, header.questions)?;
        let answers = Self::read_records(buffer, header.answers)?;
        let authorities = Self::read_records(buffer, header.authoritative_entries)?;
        let resources = Self::read_records(buffer, header.resource_entries)?;
        Ok(DnsPacket { header, questions, answers, authorities, resources })
    }

    /// Decodes the message under the cursor and moves the cursor behind it: the header, then
    /// as many questions, answers, authority records and additional records as the header
    /// counts. On failure the cursor stays where it was.
    pub fn from_buffer(buffer: &mut BytePacketBuffer) -> (r: Result<DnsPacket, DnsError>)
        ensures
            old(buffer).wf() ==> final(buffer).wf(),
            final(buffer).buf == old(buffer).buf,
            match packet_at(old(buffer).buf@, old(buffer).pos as int) {
                Ok((packet, cursor)) => {
                    &&& r is Ok
                    &&& r->Ok_0@ == packet
                    &&& final(buffer).pos == cursor
                },
                Err(e) => {
                    &&& r == Err::<DnsPacket, DnsError>(e)
                    &&& final(buffer).pos == old(buffer).pos
                },
            },
    {
        let start: usize = buffer.pos();
        let r = Self::read_sections(buffer);
        if r.is_err() {
            buffer.pos = start;
        }
        r
    }

    /// Writes the questions one behind the other at the cursor.
    fn write_questions(
        questions: &Vec<DnsQuestion>,
        buffer: &mut BytePacketBuffer,
    ) -> (r: Result<(), DnsError>)
        ensures
            wrote(old(buffer), final(buffer), r, questions_piece(question_views(questions@))),
    {
        let ghost before = *buffer;
        let ghost pieces = question_pieces(question_views(questions@));
        proof {
            reveal(questions_piece);
            assert(pieces.take(0) =~= Seq::<Piece>::empty());
            lemma_wrote_nothing(&before);
            assert forall|j: int| 0 <= j < pieces.len() implies (#[trigger] pieces[j]).sound() by {
                lemma_question_piece(question_views(questions@)[j]);
            }
        }
        let mut i: usize = 0;
        while i < questions.len()
            invariant
                i <= questions@.len(),
                pieces == question_pieces(question_views(questions@)),
                forall|j: int| 0 <= j < pieces.len() ==> (#[trigger] pieces[j]).sound(),
                before == *old(buffer),
                wrote(&before, buffer, Ok(()), concat(pieces.take(i as int))),
            decreases questions@.len() - i,
        {
            let ghost mid = *buffer;
            let r = questions[i].write(buffer);
            proof {
                reveal(questions_piece);
                assert(pieces[i as int] == questions@[i as int]@.piece());
                lemma_concat_step(pieces, i as int, before.pos as int);
                lemma_wrote_seq(&before, &mid, buffer, r, concat(pieces.take(i as int)), pieces[i as int]);
            }
            if r.is_err() {
                return r;
            }
            i += 1;
        }
        proof {
            reveal(questions_piece);
            reveal(records_piece);
            assert(pieces.take(i as int) =~= pieces);
        }
        Ok(())
    }

    /// Writes the records one behind the other at the cursor.
    fn write_records(
        records: &Vec<DnsRecord>,
        buffer: &mut BytePacketBuffer,
    ) -> (r: Result<(), DnsError>)
        ensures
            wrote(old(buffer), final(buffer), r, records_piece(record_views(records@))),
    {
        let ghost before = *buffer;
        let ghost pieces = record_pieces(record_views(records@));
        proof {
            reveal(records_piece);
            assert(pieces.take(0) =~= Seq::<Piece>::empty());
            lemma_wrote_nothing(&before);
            assert forall|j: int| 0 <= j < pieces.len() implies (#[trigger] pieces[j]).sound() by {
                lemma_record_piece(record_views(records@)[j]);
            }
        }
        let mut i: usize = 0;
        while i < records.len()
            invariant
                i <= records@.len(),
                pieces == record_pieces(record_views(records@)),
                forall|j: int| 0 <= j < pieces.len() ==> (#[trigger] pieces[j]).sound(),
                before == *old(buffer),
                wrote(&before, buffer, Ok(()), concat(pieces.take(i as int))),
            decreases records@.len() - i,
        {
            let ghost mid = *buffer;
            let r = Self::write_record(&records[i], buffer);
            proof {
                reveal(records_piece);
                assert(pieces[i as int] == records@[i as int]@.piece());
                lemma_concat_step(pieces, i as int, before.pos as int);
                lemma_wrote_seq(&before, &mid, buffer, r, concat(pieces.take(i as int)), pieces[i as int]);
            }
            if r.is_err() {
                return r;
            }
            i += 1;
        }
        proof {
            reveal(questions_piece);
            reveal(records_piece);
            assert(pieces.take(i as int) =~= pieces);
        }
        Ok(())
    }

    /// Writes one record at the cursor.
    fn write_record(record: &DnsRecord, buffer: &mut BytePacketBuffer) -> (r: Result<(), DnsError>)
        ensures
            wrote(old(buffer), final(buffer), r, record@.piece()),
    {
        let _ = record.write(buffer)?;
        Ok(())
    }

    /// Writes a header and four sections one behind the other at the cursor.
    fn write_sections(
        header: &DnsHeader,
        questions: &Vec<DnsQuestion>,
        answers: &Vec<DnsRecord>,
        authorities: &Vec<DnsRecord>,
        resources: &Vec<DnsRecord>,
        buffer: &mut BytePacketBuffer,
    ) -> (r: Result<(), DnsError>)
        ensures
            wrote(
                old(buffer),
                final(buffer),
                r,
                (PacketView {
                    header: *header,
                    questions: question_views(questions@),
                    answers: record_views(answers@),
                    authorities: record_views(authorities@),
                    resources: record_views(resources@),
                }).piece(),
            ),
    {
        let ghost start = *buffer;
        let ghost at = start.pos as int;
        let ghost head = Piece::plain(header_wire(*header));
        let ghost asked = questions_piece(question_views(questions@));
        let ghost answered = records_piece(record_views(answers@));
        let ghost vouched = records_piece(record_views(authorities@));
        let ghost added = records_piece(record_views(resources@));
        let ghost upto_questions = head.followed_by(asked);
        let ghost upto_answers = upto_questions.followed_by(answered);
        let ghost upto_authorities = upto_answers.followed_by(vouched);
        proof {
            lemma_questions_piece(question_views(questions@));
            lemma_records_piece(record_views(answers@));
            lemma_records_piece(record_views(authorities@));
            lemma_records_piece(record_views(resources@));
            lemma_outcome_seq(head, asked, at);
            lemma_outcome_seq(upto_questions, answered, at);
            lemma_outcome_seq(upto_answers, vouched, at);
            lemma_outcome_seq(upto_authorities, added, at);
        }
        let r = header.write(buffer);
        if r.is_err() {
            return r;
        }
        let ghost mid = *buffer;
        let r = Self::write_questions(questions, buffer);
        proof {
            lemma_wrote_seq(&start, &mid, buffer, r, head, asked);
        }
        if r.is_err() {
            return r;
        }
        let ghost mid = *buffer;
        let r = Self::write_records(answers, buffer);
        proof {
            lemma_wrote_seq(&start, &mid, buffer, r, upto_questions, answered);
        }
        if r.is_err() {
            return r;
        }
        let ghost mid = *buffer;
        let r = Self::write_records(authorities, buffer);
        proof {
            lemma_wrote_seq(&start, &mid, buffer, r, upto_answers, vouched);
        }
        if r.is_err() {
            return r;
        }
        let ghost mid = *buffer;
        let r = Self::write_records(resources, buffer);
        proof {
            lemma_wrote_seq(&start, &mid, buffer, r, upto_authorities, added);
        }
        r
    }

    /// Sets each count of the header to the length of its section, then writes the message at
    /// the cursor: header, questions, answers, authority records, additional records. On
    /// failure what was written up to there stays written.
    pub fn write(&mut self, buffer: &mut BytePacketBuffer) -> (r: Result<(), DnsError>)
        ensures
            final(self).header == old(self)@.counted_header(),
            final(self).questions == old(self).questions,
            final(self).answers == old(self).answers,
            final(self).authorities == old(self).authorities,
            final(self).resources == old(self).resources,
            wrote(old(buffer), final(buffer), r, old(self)@.counted().piece()),
    {
        let questions: usize = self.questions.len();
        let answers: usize = self.answers.len();
        let authorities: usize = self.authorities.len();
        let resources: usize = self.resources.len();
        self.header.questions = questions as u16;
        self.header.answers = answers as u16;
        self.header.authoritative_entries = authorities as u16;
        self.header.resource_entries = resources as u16;
        proof {
            assert(questions as u16 == (questions % 0x1_0000) as u16) by (bit_vector);
            assert(answers as u16 == (answers % 0x1_0000) as u16) by (bit_vector);
            assert(authorities as u16 == (authorities % 0x1_0000) as u16) by (bit_vector);
            assert(resources as u16 == (resources % 0x1_0000) as u16) by (bit_vector);
            assert(self@ == old(self)@.counted());
        }
        Self::write_sections(
            &self.header,
            &self.questions,
            &self.answers,
            &self.authorities,
            &self.resources,
            buffer,
        )
    }

    /// The address of the first address record among the answers. Where a name has several
    /// addresses any of them serves; the first is taken.
    pub fn get_random_a(&self) -> (r: Option<Ipv4Address>)
        ensures
            r == first_address(self@.answers, 0),
    {
        let mut i: usize = 0;
        while i < self.answers.len()
            invariant
                i <= self.answers@.len(),
                first_address(self@.answers, 0) == first_address(self@.answers, i as int),
            decreases self.answers@.len() - i,
        {
            match &self.answers[i] {
                DnsRecord::A { addr, .. } => {
                    return Some(*addr);
                },
                _ => {},
            }
            i += 1;
        }
        None
    }

    /// The name servers that the authority section names for a zone that `qname` ends with:
    /// each as its zone and its host name, in the order of the records.
    pub fn get_ns<'a>(&'a self, qname: &'a str) -> (r: Vec<(&'a str, &'a str)>)
        ensures
            r@.len() == delegations(self@.authorities, qname@).len(),
            forall|i: int|
                0 <= i < r@.len() ==> {
                    &&& (#[trigger] r@[i]).0@ == delegations(self@.authorities, qname@)[i].zone
                    &&& r@[i].1@ == delegations(self@.authorities, qname@)[i].host
                },
    {
        let mut found: Vec<(&'a str, &'a str)> = Vec::new();
        let mut i: usize = 0;
        let ghost mut seen = self@.authorities.take(0);
        assert(seen =~= Seq::empty());
        while i < self.authorities.len()
            invariant
                i <= self.authorities@.len(),
                seen == self@.authorities.take(i as int),
                found@.len() == delegations(seen, qname@).len(),
                forall|k: int|
                    0 <= k < found@.len() ==> {
                        &&& (#[trigger] found@[k]).0@ == delegations(seen, qname@)[k].zone
                        &&& found@[k].1@ == delegations(seen, qname@)[k].host
                    },
            decreases self.authorities@.len() - i,
        {
            proof {
                let longer = self@.authorities.take(i + 1);
                assert(longer.drop_last() =~= seen);
                assert(longer.last() == self.authorities@[i as int]@);
                seen = longer;
            }
            match &self.authorities[i] {
                DnsRecord::NS { domain, host, .. } => {
                    if ends_with(qname, domain.as_str()) {
                        found.push((domain.as_str(), host.as_str()));
                    }
                },
                _ => {},
            }
            i += 1;
        }
        assert(self@.authorities.take(i as int) =~= self@.authorities);
        found
    }

    /// The address of the first address record at or behind index `from` of the additional
    /// section whose owner is `host`.
    fn address_for(&self, host: &str) -> (r: Option<Ipv4Address>)
        ensures
            r == address_of(self@.resources, host@, 0),
    {
        let mut i: usize = 0;
        while i < self.resources.len()
            invariant
                i <= self.resources@.len(),
                address_of(self@.resources, host@, 0) == address_of(self@.resources, host@, i as int),
            decreases self.resources@.len() - i,
        {
            match &self.resources[i] {
                DnsRecord::A { domain, addr, .. } => {
                    if same_text(domain.as_str(), host) {
                        return Some(*addr);
                    }
                },
                _ => {},
            }
            i += 1;
        }
        None
    }

    /// The address of a name server for `qname` that the message itself supplies: the first
    /// address record of the additional section for one of the name servers of the authority
    /// section, the servers counting in their order.
    pub fn get_resolved_ns(&self, qname: &str) -> (r: Option<Ipv4Address>)
        ensures
            r == glue(delegations(self@.authorities, qname@), self@.resources, 0),
    {
        let servers = self.get_ns(qname);
        let ghost all = delegations(self@.authorities, qname@);
        let mut i: usize = 0;
        while i < servers.len()
            invariant
                i <= servers@.len(),
                servers@.len() == all.len(),
                all == delegations(self@.authorities, qname@),
                forall|k: int| 0 <= k < servers@.len() ==> (#[trigger] servers@[k]).1@ == all[k].host,
                glue(all, self@.resources, 0) == glue(all, self@.resources, i as int),
            decreases servers@.len() - i,
        {
            match self.address_for(servers[i].1) {
                Some(addr) => {
                    return Some(addr);
                },
                None => {},
            }
            i += 1;
        }
        None
    }

    /// The host name of the first name server that the authority section names for a zone
    /// that `qname` ends with.
    pub fn get_unresolved_ns<'a>(&'a self, qname: &'a str) -> (r: Option<&'a str>)
        ensures
            match r {
                Some(host) => {
                    &&& delegations(self@.authorities, qname@).len() > 0
                    &&& host@ == delegations(self@.authorities, qname@)[0].host
                },
                None => delegations(self@.authorities, qname@).len() == 0,
            },
    {
        let servers = self.get_ns(qname);
        if servers.len() > 0 {
            Some(servers[0].1)
        } else {
            None
        }
    }
}

} // verus!
