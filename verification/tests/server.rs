use dns_resolver::protocol::address::Ipv4Address;
use dns_resolver::protocol::dnspacket::DnsPacket;
use dns_resolver::protocol::dnsquestion::DnsQuestion;
use dns_resolver::protocol::dnsrecord::DnsRecord;
use dns_resolver::protocol::error::DnsError;
use dns_resolver::protocol::querytype::QueryType;
use dns_resolver::protocol::resultcode::ResultCode;
use dns_resolver::server::{accept, complete, Intake};

fn request(questions: &[(&str, QueryType)], recursion_desired: bool) -> DnsPacket {
    let mut packet = DnsPacket::new();
    packet.header.id = 4242;
    packet.header.recursion_desired = recursion_desired;
    packet.header.opcode = 3;
    packet.header.truncated_message = true;
    for (name, qtype) in questions {
        packet.questions.push(DnsQuestion::new(name.to_string(), *qtype));
    }
    packet
}

fn reply_so_far(id: u16, recursion_desired: bool, rescode: ResultCode) -> DnsPacket {
    let mut packet = DnsPacket::new();
    packet.header.id = id;
    packet.header.response = true;
    packet.header.recursion_available = true;
    packet.header.recursion_desired = recursion_desired;
    packet.header.rescode = rescode;
    packet
}

#[test]
fn request_with_a_question_is_resolved() {
    match accept(request(&[("example.com", QueryType::A)], true)) {
        Intake::Resolve(reply, question) => {
            assert_eq!(reply, reply_so_far(4242, true, ResultCode::NoError));
            assert_eq!(question, DnsQuestion::new("example.com".to_string(), QueryType::A));
        }
        other => panic!("expected a question to resolve, got {:?}", other),
    }
}

#[test]
fn reply_copies_the_wish_for_recursion() {
    match accept(request(&[("example.com", QueryType::A)], false)) {
        Intake::Resolve(reply, _) => assert!(!reply.header.recursion_desired),
        other => panic!("expected a question to resolve, got {:?}", other),
    }
}

#[test]
fn last_question_is_taken() {
    match accept(request(&[("one.com", QueryType::A), ("two.com", QueryType::MX)], true)) {
        Intake::Resolve(_, question) => {
            assert_eq!(question, DnsQuestion::new("two.com".to_string(), QueryType::MX));
        }
        other => panic!("expected a question to resolve, got {:?}", other),
    }
}

#[test]
fn request_without_question_is_malformed() {
    match accept(request(&[], true)) {
        Intake::Reject(reply, reason) => {
            assert_eq!(reason, DnsError::MalformedRequest);
            assert_eq!(reply, reply_so_far(4242, true, ResultCode::FormErr));
        }
        other => panic!("expected a rejection, got {:?}", other),
    }
}

#[test]
fn reply_takes_over_what_the_resolver_found() {
    let question = DnsQuestion::new("example.com".to_string(), QueryType::A);
    let mut found = DnsPacket::new();
    found.header.id = 6666;
    found.header.rescode = ResultCode::NXDomain;
    found.header.authoritative_answer = true;
    found.questions.push(DnsQuestion::new("other".to_string(), QueryType::A));
    let one = DnsRecord::A { domain: "example.com".to_string(), addr: Ipv4Address::new(1, 2, 3, 4), ttl: 9 };
    let two = DnsRecord::NS { domain: "com".to_string(), host: "ns.com".to_string(), ttl: 8 };
    let three = DnsRecord::A { domain: "ns.com".to_string(), addr: Ipv4Address::new(5, 6, 7, 8), ttl: 7 };
    found.answers.push(one.clone());
    found.answers.push(one.clone());
    found.authorities.push(two.clone());
    found.resources.push(three.clone());
    let reply = complete(reply_so_far(4242, false, ResultCode::NoError), question.clone(), Ok(found));
    let mut expected = reply_so_far(4242, false, ResultCode::NXDomain);
    expected.questions.push(question);
    expected.answers = vec![one.clone(), one];
    expected.authorities = vec![two];
    expected.resources = vec![three];
    assert_eq!(reply, expected);
}

#[test]
fn failed_resolution_is_a_server_failure() {
    let question = DnsQuestion::new("example.com".to_string(), QueryType::A);
    let reply = complete(
        reply_so_far(4242, true, ResultCode::NoError),
        question,
        Err(DnsError::TransportFailure),
    );
    assert_eq!(reply, reply_so_far(4242, true, ResultCode::ServFail));
}

#[test]
fn errors_have_messages() {
    assert_eq!(DnsError::EndOfBuffer.message(), "End of buffer");
    assert_eq!(DnsError::LabelTooLong.message(), "Label too long");
    assert_eq!(DnsError::CompressionLoop.message(), "Limit of jumps exceeded! Possible loop detected.");
    assert_eq!(DnsError::TransportFailure.message(), "Transport failure");
    assert_eq!(DnsError::MalformedRequest.message(), "Malformed request");
}
