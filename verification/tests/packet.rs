use dns_resolver::protocol::address::{Ipv4Address, Ipv6Address};
use dns_resolver::protocol::byte_packet_buffer::BytePacketBuffer;
use dns_resolver::protocol::dnsheader::DnsHeader;
use dns_resolver::protocol::dnspacket::DnsPacket;
use dns_resolver::protocol::dnsquestion::DnsQuestion;
use dns_resolver::protocol::dnsrecord::DnsRecord;
use dns_resolver::protocol::error::DnsError;
use dns_resolver::protocol::querytype::QueryType;
use dns_resolver::protocol::resultcode::ResultCode;

fn a(domain: &str, addr: [u8; 4]) -> DnsRecord {
    DnsRecord::A { domain: domain.to_string(), addr: Ipv4Address { octets: addr }, ttl: 3600 }
}

fn ns(domain: &str, host: &str) -> DnsRecord {
    DnsRecord::NS { domain: domain.to_string(), host: host.to_string(), ttl: 172800 }
}

fn sample() -> DnsPacket {
    let mut packet = DnsPacket::new();
    packet.header.id = 0x1D2C;
    packet.header.response = true;
    packet.header.recursion_desired = true;
    packet.header.recursion_available = true;
    packet.header.authoritative_answer = true;
    packet.header.opcode = 5;
    packet.header.rescode = ResultCode::Refused;
    packet.questions.push(DnsQuestion::new("www.example.com".to_string(), QueryType::A));
    packet.answers.push(DnsRecord::Cname {
        domain: "www.example.com".to_string(),
        host: "example.com".to_string(),
        ttl: 30,
    });
    packet.answers.push(a("example.com", [93, 184, 216, 34]));
    packet.answers.push(DnsRecord::Aaaa {
        domain: "example.com".to_string(),
        addr: Ipv6Address::new(0x2606, 0x2800, 0x220, 1, 0x248, 0x1893, 0x25c8, 0x1946),
        ttl: 31,
    });
    packet.authorities.push(ns("example.com", "a.iana-servers.net"));
    packet.authorities.push(DnsRecord::Soa {
        domain: "example.com".to_string(),
        mname: "ns.icann.org".to_string(),
        rname: "noc.dns.icann.org".to_string(),
        serial: 2024010101,
        refresh: 7200,
        retry: 3600,
        expire: 1209600,
        minimum: 3600,
        ttl: 32,
    });
    packet.resources.push(DnsRecord::MX {
        domain: "example.com".to_string(),
        priority: 10,
        host: "mail.example.com".to_string(),
        ttl: 33,
    });
    packet.resources.push(DnsRecord::Txt {
        domain: "example.com".to_string(),
        text: "v=spf1.-all".to_string(),
        ttl: 34,
    });
    packet.resources.push(a("a.iana-servers.net", [199, 43, 135, 53]));
    packet
}

#[test]
fn new_packet_is_empty() {
    let packet = DnsPacket::new();
    assert_eq!(packet.header, DnsHeader::new());
    assert!(packet.questions.is_empty());
    assert!(packet.answers.is_empty());
    assert!(packet.authorities.is_empty());
    assert!(packet.resources.is_empty());
    assert_eq!(DnsPacket::default(), packet);
}

#[test]
fn packet_round_trips() {
    let mut packet = sample();
    let mut buffer = BytePacketBuffer::new();
    assert_eq!(packet.write(&mut buffer), Ok(()));
    let end = buffer.pos();
    assert!(end < 512);
    assert_eq!(packet.header.questions, 1);
    assert_eq!(packet.header.answers, 3);
    assert_eq!(packet.header.authoritative_entries, 2);
    assert_eq!(packet.header.resource_entries, 3);
    buffer.seek(0).unwrap();
    let back = DnsPacket::from_buffer(&mut buffer).unwrap();
    assert_eq!(back, packet);
    assert_eq!(buffer.pos(), end);
}

#[test]
fn write_sets_the_counts_whatever_they_were() {
    let mut packet = DnsPacket::new();
    packet.header.questions = 9;
    packet.header.answers = 9;
    packet.header.authoritative_entries = 9;
    packet.header.resource_entries = 9;
    packet.answers.push(a("x", [1, 1, 1, 1]));
    let mut buffer = BytePacketBuffer::new();
    assert_eq!(packet.write(&mut buffer), Ok(()));
    assert_eq!(packet.header.questions, 0);
    assert_eq!(packet.header.answers, 1);
    assert_eq!(packet.header.authoritative_entries, 0);
    assert_eq!(packet.header.resource_entries, 0);
    assert_eq!(&buffer.buf[4..12], &[0, 0, 0, 1, 0, 0, 0, 0]);
    assert_eq!(buffer.pos(), 12 + 17);
}

#[test]
fn write_sets_the_counts_even_when_it_fails() {
    let mut packet = DnsPacket::new();
    packet.questions.push(DnsQuestion::new("q".repeat(64), QueryType::A));
    packet.answers.push(a("x", [1, 1, 1, 1]));
    let mut buffer = BytePacketBuffer::new();
    assert_eq!(packet.write(&mut buffer), Err(DnsError::LabelTooLong));
    assert_eq!(packet.header.questions, 1);
    assert_eq!(packet.header.answers, 1);
    assert_eq!(buffer.pos(), 12);
}

#[test]
fn query_packet_wire_form() {
    let mut packet = DnsPacket::new();
    packet.header.id = 6666;
    packet.header.recursion_desired = true;
    packet.questions.push(DnsQuestion::new("google.com".to_string(), QueryType::A));
    let mut buffer = BytePacketBuffer::new();
    packet.write(&mut buffer).unwrap();
    assert_eq!(buffer.pos(), 28);
    assert_eq!(
        &buffer.buf[0..28],
        b"\x1A\x0A\x01\x00\x00\x01\x00\x00\x00\x00\x00\x00\x06google\x03com\x00\x00\x01\x00\x01"
    );
}

#[test]
fn captured_response_is_decoded() {
    let bytes: [u8; 44] = [
        0x86, 0x2a, 0x81, 0x80, 0x00, 0x01, 0x00, 0x01, 0x00, 0x00, 0x00, 0x00, 0x06, 0x67, 0x6f, 0x6f,
        0x67, 0x6c, 0x65, 0x03, 0x63, 0x6f, 0x6d, 0x00, 0x00, 0x01, 0x00, 0x01, 0xc0, 0x0c, 0x00, 0x01,
        0x00, 0x01, 0x00, 0x00, 0x01, 0x25, 0x00, 0x04, 0xd8, 0x3a, 0xd3, 0x8e,
    ];
    let mut buffer = BytePacketBuffer::new();
    buffer.buf[0..44].copy_from_slice(&bytes);
    let packet = DnsPacket::from_buffer(&mut buffer).unwrap();
    assert_eq!(buffer.pos(), 44);
    assert_eq!(packet.header.id, 0x862a);
    assert!(packet.header.response);
    assert!(packet.header.recursion_desired);
    assert!(packet.header.recursion_available);
    assert_eq!(packet.header.rescode, ResultCode::NoError);
    assert_eq!(packet.questions, vec![DnsQuestion::new("google.com".to_string(), QueryType::A)]);
    assert_eq!(
        packet.answers,
        vec![DnsRecord::A { domain: "google.com".to_string(), addr: Ipv4Address::new(216, 58, 211, 142), ttl: 293 }]
    );
    assert!(packet.authorities.is_empty());
    assert!(packet.resources.is_empty());
}

#[test]
fn sections_are_read_as_the_header_counts() {
    let mut packet = DnsPacket::new();
    packet.answers.push(a("one", [1, 0, 0, 1]));
    packet.answers.push(a("two", [2, 0, 0, 2]));
    packet.authorities.push(a("three", [3, 0, 0, 3]));
    let mut buffer = BytePacketBuffer::new();
    packet.write(&mut buffer).unwrap();
    let end = buffer.pos();
    assert_eq!(&buffer.buf[4..12], &[0, 0, 0, 2, 0, 1, 0, 0]);
    buffer.buf[7] = 1;
    buffer.buf[9] = 1;
    buffer.buf[11] = 1;
    buffer.seek(0).unwrap();
    let back = DnsPacket::from_buffer(&mut buffer).unwrap();
    assert_eq!(buffer.pos(), end);
    assert!(back.questions.is_empty());
    assert_eq!(back.answers, vec![a("one", [1, 0, 0, 1])]);
    assert_eq!(back.authorities, vec![a("two", [2, 0, 0, 2])]);
    assert_eq!(back.resources, vec![a("three", [3, 0, 0, 3])]);
    assert_eq!(back.header.answers, 1);
    assert_eq!(back.header.authoritative_entries, 1);
    assert_eq!(back.header.resource_entries, 1);
}

#[test]
fn from_buffer_fails_when_a_count_promises_too_much() {
    let mut buffer = BytePacketBuffer::new();
    buffer.buf[5] = 1;
    buffer.buf[7] = 200;
    buffer.pos = 0;
    assert_eq!(DnsPacket::from_buffer(&mut buffer), Err(DnsError::EndOfBuffer));
    assert_eq!(buffer.pos(), 0);
}

#[test]
fn from_buffer_needs_a_header() {
    let mut buffer = BytePacketBuffer::new();
    buffer.pos = 501;
    assert_eq!(DnsPacket::from_buffer(&mut buffer), Err(DnsError::EndOfBuffer));
    assert_eq!(buffer.pos(), 501);
    buffer.pos = 500;
    assert_eq!(DnsPacket::from_buffer(&mut buffer), Ok(DnsPacket::new()));
    assert_eq!(buffer.pos(), 512);
}

#[test]
fn packet_too_large_for_a_datagram_fails() {
    let mut packet = DnsPacket::new();
    for i in 0..40u8 {
        packet.answers.push(a("some.host.example.com", [10, 0, 0, i]));
    }
    let mut buffer = BytePacketBuffer::new();
    assert_eq!(packet.write(&mut buffer), Err(DnsError::EndOfBuffer));
    assert_eq!(packet.header.answers, 40);
    assert!(buffer.pos() <= 512);
    assert_eq!(&buffer.buf[6..8], &[0, 40]);
}

#[test]
fn packet_that_fills_the_datagram() {
    let mut packet = DnsPacket::new();
    let mut left = 512 - 12;
    while left >= 2 * 17 {
        packet.answers.push(a("x", [1, 2, 3, 4]));
        left -= 17;
    }
    let filler = "y".repeat(left - 16);
    packet.answers.push(a(&filler, [5, 6, 7, 8]));
    let mut buffer = BytePacketBuffer::new();
    assert_eq!(packet.write(&mut buffer), Ok(()));
    assert_eq!(buffer.pos(), 512);
    buffer.pos = 0;
    assert_eq!(DnsPacket::from_buffer(&mut buffer), Ok(packet));
    assert_eq!(buffer.pos(), 512);
}

#[test]
fn unknown_records_are_counted_but_not_written() {
    let mut packet = DnsPacket::new();
    packet.answers.push(DnsRecord::Unknown { domain: "u".to_string(), qtype: 99, data_len: 0, ttl: 0 });
    let mut buffer = BytePacketBuffer::new();
    assert_eq!(packet.write(&mut buffer), Ok(()));
    assert_eq!(buffer.pos(), 12);
    assert_eq!(packet.header.answers, 1);
}

#[test]
fn first_address_among_answers() {
    let mut packet = DnsPacket::new();
    assert_eq!(packet.get_random_a(), None);
    packet.answers.push(ns("com", "a.gtld-servers.net"));
    assert_eq!(packet.get_random_a(), None);
    packet.answers.push(a("x", [1, 1, 1, 1]));
    packet.answers.push(a("x", [2, 2, 2, 2]));
    assert_eq!(packet.get_random_a(), Some(Ipv4Address::new(1, 1, 1, 1)));
    packet.resources.push(a("y", [9, 9, 9, 9]));
    packet.answers.clear();
    assert_eq!(packet.get_random_a(), None);
}

#[test]
fn name_servers_for_a_name() {
    let mut packet = DnsPacket::new();
    packet.authorities.push(ns("com", "a.gtld-servers.net"));
    packet.authorities.push(ns("org", "a0.org.afilias-nst.info"));
    packet.authorities.push(a("com", [1, 2, 3, 4]));
    packet.authorities.push(ns("google.com", "ns1.google.com"));
    packet.authorities.push(ns("", "a.root-servers.net"));
    packet.answers.push(ns("com", "not.in.authority"));
    assert_eq!(
        packet.get_ns("www.google.com"),
        vec![("com", "a.gtld-servers.net"), ("google.com", "ns1.google.com"), ("", "a.root-servers.net")]
    );
    assert_eq!(packet.get_ns("example.org"), vec![("org", "a0.org.afilias-nst.info"), ("", "a.root-servers.net")]);
    assert_eq!(packet.get_ns("telecom"), vec![("com", "a.gtld-servers.net"), ("", "a.root-servers.net")]);
    assert_eq!(packet.get_unresolved_ns("www.google.com"), Some("a.gtld-servers.net"));
    assert_eq!(packet.get_unresolved_ns("example.org"), Some("a0.org.afilias-nst.info"));
    packet.authorities.pop();
    assert_eq!(packet.get_unresolved_ns("example.net"), None);
    assert!(packet.get_ns("example.net").is_empty());
}

#[test]
fn glue_for_a_name_server() {
    let mut packet = DnsPacket::new();
    packet.authorities.push(ns("com", "a.gtld-servers.net"));
    packet.authorities.push(ns("com", "b.gtld-servers.net"));
    packet.authorities.push(ns("org", "c.org-servers.net"));
    assert_eq!(packet.get_resolved_ns("google.com"), None);
    packet.resources.push(a("c.org-servers.net", [3, 3, 3, 3]));
    assert_eq!(packet.get_resolved_ns("google.com"), None);
    assert_eq!(packet.get_resolved_ns("example.org"), Some(Ipv4Address::new(3, 3, 3, 3)));
    packet.resources.push(DnsRecord::Aaaa {
        domain: "a.gtld-servers.net".to_string(),
        addr: Ipv6Address::new(1, 2, 3, 4, 5, 6, 7, 8),
        ttl: 1,
    });
    assert_eq!(packet.get_resolved_ns("google.com"), None);
    packet.resources.push(a("b.gtld-servers.net", [2, 2, 2, 2]));
    assert_eq!(packet.get_resolved_ns("google.com"), Some(Ipv4Address::new(2, 2, 2, 2)));
    packet.resources.push(a("a.gtld-servers.net", [1, 1, 1, 1]));
    packet.resources.push(a("a.gtld-servers.net", [1, 1, 1, 2]));
    assert_eq!(packet.get_resolved_ns("google.com"), Some(Ipv4Address::new(1, 1, 1, 1)));
    packet.answers.push(a("a.gtld-servers.net", [7, 7, 7, 7]));
    assert_eq!(packet.get_resolved_ns("google.com"), Some(Ipv4Address::new(1, 1, 1, 1)));
}
