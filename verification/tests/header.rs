use dns_resolver::protocol::byte_packet_buffer::BytePacketBuffer;
use dns_resolver::protocol::dnsheader::DnsHeader;
use dns_resolver::protocol::error::DnsError;
use dns_resolver::protocol::querytype::QueryType;
use dns_resolver::protocol::resultcode::ResultCode;

#[test]
fn new_header_is_blank() {
    let header = DnsHeader::new();
    assert_eq!(header.id, 0);
    assert!(!header.recursion_desired);
    assert!(!header.truncated_message);
    assert!(!header.authoritative_answer);
    assert_eq!(header.opcode, 0);
    assert!(!header.response);
    assert_eq!(header.rescode, ResultCode::NoError);
    assert!(!header.recursion_available);
    assert_eq!(header.questions, 0);
    assert_eq!(header.answers, 0);
    assert_eq!(header.authoritative_entries, 0);
    assert_eq!(header.resource_entries, 0);
}

#[test]
fn header_is_written_as_twelve_bytes() {
    let mut header = DnsHeader::new();
    header.id = 0x1234;
    header.recursion_desired = true;
    header.questions = 1;
    let mut buffer = BytePacketBuffer::new();
    assert_eq!(header.write(&mut buffer), Ok(()));
    assert_eq!(buffer.pos(), 12);
    assert_eq!(&buffer.buf[0..12], &[0x12, 0x34, 0x01, 0x00, 0, 1, 0, 0, 0, 0, 0, 0]);
}

#[test]
fn header_flags_are_packed_bit_by_bit() {
    let mut header = DnsHeader::new();
    header.id = 0xBEEF;
    header.response = true;
    header.opcode = 2;
    header.authoritative_answer = true;
    header.recursion_desired = true;
    header.recursion_available = true;
    header.rescode = ResultCode::NXDomain;
    header.questions = 0x0102;
    header.answers = 0x0304;
    header.authoritative_entries = 0x0506;
    header.resource_entries = 0x0708;
    let mut buffer = BytePacketBuffer::new();
    buffer.pos = 3;
    assert_eq!(header.write(&mut buffer), Ok(()));
    assert_eq!(&buffer.buf[3..15], &[0xBE, 0xEF, 0x95, 0x83, 1, 2, 3, 4, 5, 6, 7, 8]);
    assert_eq!(buffer.pos(), 15);
}

#[test]
fn each_flag_has_its_bit() {
    let cases: [(fn(&mut DnsHeader), u8, u8); 5] = [
        (|h| h.recursion_desired = true, 0x01, 0x00),
        (|h| h.truncated_message = true, 0x02, 0x00),
        (|h| h.authoritative_answer = true, 0x04, 0x00),
        (|h| h.response = true, 0x80, 0x00),
        (|h| h.recursion_available = true, 0x00, 0x80),
    ];
    for (set, hi, lo) in cases {
        let mut header = DnsHeader::new();
        set(&mut header);
        let mut buffer = BytePacketBuffer::new();
        header.write(&mut buffer).unwrap();
        assert_eq!(buffer.buf[2], hi);
        assert_eq!(buffer.buf[3], lo);
    }
    let mut header = DnsHeader::new();
    header.opcode = 15;
    header.rescode = ResultCode::Refused;
    let mut buffer = BytePacketBuffer::new();
    header.write(&mut buffer).unwrap();
    assert_eq!(buffer.buf[2], 0x78);
    assert_eq!(buffer.buf[3], 0x05);
}

#[test]
fn only_four_bits_of_the_opcode_are_written() {
    let mut header = DnsHeader::new();
    header.opcode = 0x1F;
    let mut buffer = BytePacketBuffer::new();
    header.write(&mut buffer).unwrap();
    assert_eq!(buffer.buf[2], 0x78);
}

#[test]
fn header_is_read_from_twelve_bytes() {
    let mut buffer = BytePacketBuffer::new();
    buffer.buf[0..12].copy_from_slice(&[0x86, 0x2A, 0x81, 0x80, 0, 1, 0, 2, 0, 3, 0, 4]);
    let mut header = DnsHeader::new();
    assert_eq!(header.read(&mut buffer), Ok(()));
    assert_eq!(buffer.pos(), 12);
    assert_eq!(header.id, 0x862A);
    assert!(header.response);
    assert_eq!(header.opcode, 0);
    assert!(!header.authoritative_answer);
    assert!(!header.truncated_message);
    assert!(header.recursion_desired);
    assert!(header.recursion_available);
    assert_eq!(header.rescode, ResultCode::NoError);
    assert_eq!(header.questions, 1);
    assert_eq!(header.answers, 2);
    assert_eq!(header.authoritative_entries, 3);
    assert_eq!(header.resource_entries, 4);
}

#[test]
fn reserved_bits_are_not_looked_at() {
    let mut buffer = BytePacketBuffer::new();
    buffer.buf[3] = 0x72;
    let mut header = DnsHeader::new();
    header.read(&mut buffer).unwrap();
    assert!(!header.recursion_available);
    assert_eq!(header.rescode, ResultCode::ServFail);
}

#[test]
fn header_round_trips_for_every_flag_combination() {
    let codes = [
        ResultCode::NoError,
        ResultCode::FormErr,
        ResultCode::ServFail,
        ResultCode::NXDomain,
        ResultCode::NotImp,
        ResultCode::Refused,
    ];
    for bits in 0u8..32 {
        for opcode in 0u8..16 {
            for rescode in codes {
                let header = DnsHeader {
                    id: 0xA55A,
                    recursion_desired: bits & 1 != 0,
                    truncated_message: bits & 2 != 0,
                    authoritative_answer: bits & 4 != 0,
                    opcode,
                    response: bits & 8 != 0,
                    rescode,
                    recursion_available: bits & 16 != 0,
                    questions: 1,
                    answers: 0xFFFF,
                    authoritative_entries: 0x8000,
                    resource_entries: 7,
                };
                let mut buffer = BytePacketBuffer::new();
                buffer.pos = 100;
                header.write(&mut buffer).unwrap();
                assert_eq!(buffer.pos(), 112);
                buffer.pos = 100;
                let mut back = DnsHeader::new();
                back.read(&mut buffer).unwrap();
                assert_eq!(back, header);
                assert_eq!(buffer.pos(), 112);
            }
        }
    }
}

#[test]
fn header_needs_twelve_bytes() {
    let mut buffer = BytePacketBuffer::new();
    buffer.pos = 500;
    let mut header = DnsHeader::new();
    header.id = 9;
    assert_eq!(header.read(&mut buffer), Ok(()));
    assert_eq!(header.id, 0);
    assert_eq!(buffer.pos(), 512);
    buffer.pos = 501;
    header.id = 9;
    assert_eq!(header.read(&mut buffer), Err(DnsError::EndOfBuffer));
    assert_eq!(header.id, 9);
    assert_eq!(buffer.pos(), 501);
    assert_eq!(header.write(&mut buffer), Err(DnsError::EndOfBuffer));
    buffer.pos = 500;
    assert_eq!(header.write(&mut buffer), Ok(()));
    assert_eq!(buffer.pos(), 512);
}

#[test]
fn query_type_codes() {
    assert_eq!(QueryType::A.to_num(), 1);
    assert_eq!(QueryType::NS.to_num(), 2);
    assert_eq!(QueryType::Cname.to_num(), 5);
    assert_eq!(QueryType::Soa.to_num(), 6);
    assert_eq!(QueryType::MX.to_num(), 15);
    assert_eq!(QueryType::Txt.to_num(), 16);
    assert_eq!(QueryType::Aaaa.to_num(), 28);
    assert_eq!(QueryType::Unknown(999).to_num(), 999);
    assert_eq!(QueryType::from_num(1), QueryType::A);
    assert_eq!(QueryType::from_num(2), QueryType::NS);
    assert_eq!(QueryType::from_num(5), QueryType::Cname);
    assert_eq!(QueryType::from_num(6), QueryType::Soa);
    assert_eq!(QueryType::from_num(15), QueryType::MX);
    assert_eq!(QueryType::from_num(16), QueryType::Txt);
    assert_eq!(QueryType::from_num(28), QueryType::Aaaa);
    assert_eq!(QueryType::from_num(0), QueryType::Unknown(0));
    assert_eq!(QueryType::from_num(3), QueryType::Unknown(3));
    assert_eq!(QueryType::from_num(65535), QueryType::Unknown(65535));
}

#[test]
fn every_type_code_round_trips() {
    for num in 0..=u16::MAX {
        assert_eq!(QueryType::from_num(num).to_num(), num);
    }
}

#[test]
fn result_codes() {
    assert_eq!(ResultCode::from_num(0), ResultCode::NoError);
    assert_eq!(ResultCode::from_num(1), ResultCode::FormErr);
    assert_eq!(ResultCode::from_num(2), ResultCode::ServFail);
    assert_eq!(ResultCode::from_num(3), ResultCode::NXDomain);
    assert_eq!(ResultCode::from_num(4), ResultCode::NotImp);
    assert_eq!(ResultCode::from_num(5), ResultCode::Refused);
    assert_eq!(ResultCode::from_num(6), ResultCode::NoError);
    assert_eq!(ResultCode::from_num(15), ResultCode::NoError);
    assert_eq!(ResultCode::from_num(255), ResultCode::NoError);
    assert_eq!(ResultCode::NoError.to_num(), 0);
    assert_eq!(ResultCode::FormErr.to_num(), 1);
    assert_eq!(ResultCode::ServFail.to_num(), 2);
    assert_eq!(ResultCode::NXDomain.to_num(), 3);
    assert_eq!(ResultCode::NotImp.to_num(), 4);
    assert_eq!(ResultCode::Refused.to_num(), 5);
}
