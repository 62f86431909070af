use dns_resolver::protocol::address::{Ipv4Address, Ipv6Address};
use dns_resolver::protocol::byte_packet_buffer::BytePacketBuffer;
use dns_resolver::protocol::dnsquestion::DnsQuestion;
use dns_resolver::protocol::dnsrecord::DnsRecord;
use dns_resolver::protocol::error::DnsError;
use dns_resolver::protocol::querytype::QueryType;

fn written(record: &DnsRecord) -> Vec<u8> {
    let mut buffer = BytePacketBuffer::new();
    let len = record.write(&mut buffer).unwrap();
    assert_eq!(len, buffer.pos());
    buffer.buf[0..len].to_vec()
}

fn read_back(record: &DnsRecord) -> DnsRecord {
    let mut buffer = BytePacketBuffer::new();
    buffer.pos = 7;
    let len = record.write(&mut buffer).unwrap();
    assert_eq!(buffer.pos(), 7 + len);
    buffer.pos = 7;
    let back = DnsRecord::read(&mut buffer).unwrap();
    assert_eq!(buffer.pos(), 7 + len);
    back
}

#[test]
fn addresses_keep_their_parts() {
    let v4 = Ipv4Address::new(198, 41, 0, 4);
    assert_eq!(v4.octets(), [198, 41, 0, 4]);
    assert_eq!(v4, Ipv4Address { octets: [198, 41, 0, 4] });
    let v6 = Ipv6Address::new(0x2001, 0xdb8, 0, 0, 0, 0, 0, 1);
    assert_eq!(v6.segments(), [0x2001, 0xdb8, 0, 0, 0, 0, 0, 1]);
}

#[test]
fn a_record_wire_form() {
    let record = DnsRecord::A { domain: "a.b".to_string(), addr: Ipv4Address::new(1, 2, 3, 4), ttl: 300 };
    assert_eq!(
        written(&record),
        vec![1, b'a', 1, b'b', 0, 0, 1, 0, 1, 0, 0, 0x01, 0x2C, 0, 4, 1, 2, 3, 4]
    );
    assert_eq!(read_back(&record), record);
}

#[test]
fn ns_record_wire_form() {
    let record = DnsRecord::NS { domain: "b".to_string(), host: "ns.b".to_string(), ttl: 1 };
    assert_eq!(
        written(&record),
        vec![1, b'b', 0, 0, 2, 0, 1, 0, 0, 0, 1, 0, 6, 2, b'n', b's', 1, b'b', 0]
    );
    assert_eq!(read_back(&record), record);
}

#[test]
fn cname_record_wire_form() {
    let record = DnsRecord::Cname { domain: "w".to_string(), host: "x".to_string(), ttl: 0xFFFFFFFF };
    assert_eq!(
        written(&record),
        vec![1, b'w', 0, 0, 5, 0, 1, 0xFF, 0xFF, 0xFF, 0xFF, 0, 3, 1, b'x', 0]
    );
    assert_eq!(read_back(&record), record);
}

#[test]
fn mx_record_wire_form() {
    let record = DnsRecord::MX { domain: "b".to_string(), priority: 10, host: "m.b".to_string(), ttl: 60 };
    assert_eq!(
        written(&record),
        vec![1, b'b', 0, 0, 15, 0, 1, 0, 0, 0, 60, 0, 7, 0, 10, 1, b'm', 1, b'b', 0]
    );
    assert_eq!(read_back(&record), record);
}

#[test]
fn txt_record_wire_form() {
    let record = DnsRecord::Txt { domain: "t".to_string(), text: "hello".to_string(), ttl: 5 };
    assert_eq!(
        written(&record),
        vec![1, b't', 0, 0, 16, 0, 1, 0, 0, 0, 5, 0, 7, 5, b'h', b'e', b'l', b'l', b'o', 0]
    );
    assert_eq!(read_back(&record), record);
}

#[test]
fn soa_record_wire_form() {
    let record = DnsRecord::Soa {
        domain: "z".to_string(),
        mname: "a".to_string(),
        rname: "b".to_string(),
        serial: 0x01020304,
        refresh: 2,
        retry: 3,
        expire: 4,
        minimum: 5,
        ttl: 6,
    };
    let mut expected = vec![1, b'z', 0, 0, 6, 0, 1, 0, 0, 0, 6, 0, 26, 1, b'a', 0, 1, b'b', 0];
    expected.extend_from_slice(&[1, 2, 3, 4, 0, 0, 0, 2, 0, 0, 0, 3, 0, 0, 0, 4, 0, 0, 0, 5]);
    assert_eq!(written(&record), expected);
    assert_eq!(read_back(&record), record);
}

#[test]
fn aaaa_record_wire_form() {
    let record = DnsRecord::Aaaa {
        domain: "v6".to_string(),
        addr: Ipv6Address::new(0x2001, 0x0db8, 0, 0x00ff, 0xff00, 0, 0x1234, 1),
        ttl: 7,
    };
    let mut expected = vec![2, b'v', b'6', 0, 0, 28, 0, 1, 0, 0, 0, 7, 0, 16];
    expected.extend_from_slice(&[0x20, 0x01, 0x0d, 0xb8, 0, 0, 0, 0xff, 0xff, 0, 0, 0, 0x12, 0x34, 0, 1]);
    assert_eq!(written(&record), expected);
    assert_eq!(read_back(&record), record);
}

#[test]
fn unknown_record_is_not_written() {
    let record = DnsRecord::Unknown { domain: "u".to_string(), qtype: 99, data_len: 3, ttl: 1 };
    let mut buffer = BytePacketBuffer::new();
    buffer.pos = 512;
    assert_eq!(record.write(&mut buffer), Ok(0));
    assert_eq!(buffer.pos(), 512);
    buffer.pos = 9;
    assert_eq!(record.write(&mut buffer), Ok(0));
    assert_eq!(buffer.pos(), 9);
    assert!(buffer.buf.iter().all(|b| *b == 0));
}

#[test]
fn unknown_record_is_skipped_on_read() {
    let mut buffer = BytePacketBuffer::new();
    let bytes = [1, b'u', 0, 0, 99, 0, 1, 0, 0, 0, 9, 0, 3, 0xAA, 0xBB, 0xCC, 0x11];
    buffer.buf[0..bytes.len()].copy_from_slice(&bytes);
    let record = DnsRecord::read(&mut buffer).unwrap();
    assert_eq!(record, DnsRecord::Unknown { domain: "u".to_string(), qtype: 99, data_len: 3, ttl: 9 });
    assert_eq!(buffer.pos(), 16);
    assert_eq!(buffer.read(), Ok(0x11));
}

#[test]
fn unknown_record_may_not_run_to_the_end() {
    let mut buffer = BytePacketBuffer::new();
    let bytes = [0, 0, 99, 0, 1, 0, 0, 0, 9, 0, 3];
    buffer.buf[498..509].copy_from_slice(&bytes);
    buffer.pos = 498;
    assert_eq!(DnsRecord::read(&mut buffer), Err(DnsError::EndOfBuffer));
    assert_eq!(buffer.pos(), 498);
    buffer.buf[508] = 2;
    let record = DnsRecord::read(&mut buffer).unwrap();
    assert_eq!(record, DnsRecord::Unknown { domain: String::new(), qtype: 99, data_len: 2, ttl: 9 });
    assert_eq!(buffer.pos(), 511);
}

#[test]
fn record_read_ignores_class_and_length_of_known_types() {
    let mut buffer = BytePacketBuffer::new();
    let bytes = [1, b'A', 0, 0, 1, 0xFF, 0xFF, 0, 0, 0, 1, 0x12, 0x34, 9, 8, 7, 6];
    buffer.buf[0..bytes.len()].copy_from_slice(&bytes);
    let record = DnsRecord::read(&mut buffer).unwrap();
    assert_eq!(record, DnsRecord::A { domain: "a".to_string(), addr: Ipv4Address::new(9, 8, 7, 6), ttl: 1 });
    assert_eq!(buffer.pos(), 17);
}

#[test]
fn record_read_expands_pointers_in_data() {
    let mut buffer = BytePacketBuffer::new();
    let bytes = [3, b'c', b'o', b'm', 0, 0xC0, 0, 0, 2, 0, 1, 0, 0, 0, 1, 0, 5, 2, b'n', b's', 0xC0, 0];
    buffer.buf[0..bytes.len()].copy_from_slice(&bytes);
    buffer.pos = 5;
    let record = DnsRecord::read(&mut buffer).unwrap();
    assert_eq!(record, DnsRecord::NS { domain: "com".to_string(), host: "ns.com".to_string(), ttl: 1 });
    assert_eq!(buffer.pos(), 22);
}

#[test]
fn record_read_fails_where_the_buffer_ends() {
    let record = DnsRecord::A { domain: "a.b".to_string(), addr: Ipv4Address::new(1, 2, 3, 4), ttl: 300 };
    let mut buffer = BytePacketBuffer::new();
    buffer.pos = 493;
    assert_eq!(record.write(&mut buffer), Ok(19));
    assert_eq!(buffer.pos(), 512);
    buffer.pos = 493;
    assert_eq!(DnsRecord::read(&mut buffer), Ok(record.clone()));
    assert_eq!(buffer.pos(), 512);
    let mut short = BytePacketBuffer::new();
    short.pos = 494;
    assert_eq!(record.write(&mut short), Err(DnsError::EndOfBuffer));
    short.buf[494..499].copy_from_slice(&[1, b'a', 1, b'b', 0]);
    short.buf[500] = 1;
    short.pos = 494;
    assert_eq!(DnsRecord::read(&mut short), Err(DnsError::EndOfBuffer));
    assert_eq!(short.pos(), 494);
}

#[test]
fn record_read_passes_on_a_pointer_loop() {
    let mut buffer = BytePacketBuffer::new();
    let bytes = [1, b'a', 0, 0, 5, 0, 1, 0, 0, 0, 1, 0, 2, 0xC0, 13];
    buffer.buf[0..bytes.len()].copy_from_slice(&bytes);
    assert_eq!(DnsRecord::read(&mut buffer), Err(DnsError::CompressionLoop));
    assert_eq!(buffer.pos(), 0);
}

#[test]
fn record_write_rejects_long_labels() {
    let long = "y".repeat(64);
    let in_domain = DnsRecord::A { domain: long.clone(), addr: Ipv4Address::new(1, 2, 3, 4), ttl: 1 };
    let mut buffer = BytePacketBuffer::new();
    assert_eq!(in_domain.write(&mut buffer), Err(DnsError::LabelTooLong));
    assert_eq!(buffer.pos(), 0);
    let in_host = DnsRecord::MX { domain: "d".to_string(), priority: 1, host: format!("m.{}", long), ttl: 1 };
    let mut other = BytePacketBuffer::new();
    assert_eq!(in_host.write(&mut other), Err(DnsError::LabelTooLong));
    assert_eq!(other.pos(), 3 + 10 + 2 + 2);
    let mut full = BytePacketBuffer::new();
    full.pos = 500;
    assert_eq!(in_host.write(&mut full), Err(DnsError::EndOfBuffer));
    let in_rname = DnsRecord::Soa {
        domain: "d".to_string(),
        mname: "m".to_string(),
        rname: long,
        serial: 0,
        refresh: 0,
        retry: 0,
        expire: 0,
        minimum: 0,
        ttl: 0,
    };
    let mut third = BytePacketBuffer::new();
    assert_eq!(in_rname.write(&mut third), Err(DnsError::LabelTooLong));
}

#[test]
fn record_with_name_data_wants_a_byte_behind_it() {
    let record = DnsRecord::NS { domain: "b".to_string(), host: "ns.b".to_string(), ttl: 1 };
    let mut buffer = BytePacketBuffer::new();
    buffer.pos = 493;
    assert_eq!(record.write(&mut buffer), Ok(19));
    assert_eq!(buffer.pos(), 512);
    buffer.pos = 493;
    assert_eq!(DnsRecord::read(&mut buffer), Err(DnsError::EndOfBuffer));
    let mut roomy = BytePacketBuffer::new();
    roomy.pos = 492;
    assert_eq!(record.write(&mut roomy), Ok(19));
    roomy.pos = 492;
    assert_eq!(DnsRecord::read(&mut roomy), Ok(record));
}

#[test]
fn question_wire_form() {
    let question = DnsQuestion::new("google.com".to_string(), QueryType::MX);
    assert_eq!(question.name, "google.com");
    assert_eq!(question.qtype, QueryType::MX);
    let mut buffer = BytePacketBuffer::new();
    assert_eq!(question.write(&mut buffer), Ok(()));
    assert_eq!(&buffer.buf[0..16], b"\x06google\x03com\x00\x00\x0F\x00\x01");
    assert_eq!(buffer.pos(), 16);
}

#[test]
fn question_is_read_and_class_dropped() {
    let mut buffer = BytePacketBuffer::new();
    buffer.buf[0..9].copy_from_slice(&[2, b'I', b'O', 0, 0, 28, 0xAB, 0xCD, 0x77]);
    let mut question = DnsQuestion::new(String::new(), QueryType::Unknown(0));
    assert_eq!(question.read(&mut buffer), Ok(()));
    assert_eq!(question, DnsQuestion::new("io".to_string(), QueryType::Aaaa));
    assert_eq!(buffer.pos(), 8);
}

#[test]
fn question_read_appends_the_name() {
    let mut buffer = BytePacketBuffer::new();
    buffer.buf[0..8].copy_from_slice(&[2, b'i', b'o', 0, 0x12, 0x34, 0, 1]);
    let mut question = DnsQuestion::new("www.".to_string(), QueryType::A);
    assert_eq!(question.read(&mut buffer), Ok(()));
    assert_eq!(question, DnsQuestion::new("www.io".to_string(), QueryType::Unknown(0x1234)));
}

#[test]
fn question_read_changes_nothing_on_failure() {
    let mut buffer = BytePacketBuffer::new();
    buffer.buf[505..509].copy_from_slice(&[2, b'i', b'o', 0]);
    buffer.pos = 505;
    let mut question = DnsQuestion::new("kept".to_string(), QueryType::Txt);
    assert_eq!(question.read(&mut buffer), Err(DnsError::EndOfBuffer));
    assert_eq!(question, DnsQuestion::new("kept".to_string(), QueryType::Txt));
    assert_eq!(buffer.pos(), 505);
    buffer.buf[504..508].copy_from_slice(&[2, b'i', b'o', 0]);
    buffer.buf[508..512].copy_from_slice(&[0, 1, 0, 1]);
    buffer.pos = 504;
    assert_eq!(question.read(&mut buffer), Ok(()));
    assert_eq!(question, DnsQuestion::new("keptio".to_string(), QueryType::A));
    assert_eq!(buffer.pos(), 512);
}

#[test]
fn question_write_fails_as_its_name_does() {
    let question = DnsQuestion::new("z".repeat(70), QueryType::A);
    let mut buffer = BytePacketBuffer::new();
    assert_eq!(question.write(&mut buffer), Err(DnsError::LabelTooLong));
    let short = DnsQuestion::new("ab".to_string(), QueryType::A);
    buffer.pos = 505;
    assert_eq!(short.write(&mut buffer), Err(DnsError::EndOfBuffer));
    buffer.pos = 504;
    assert_eq!(short.write(&mut buffer), Ok(()));
    assert_eq!(buffer.pos(), 512);
}
