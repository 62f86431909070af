use dns_resolver::protocol::address::Ipv4Address;
use dns_resolver::protocol::dnspacket::DnsPacket;
use dns_resolver::protocol::dnsquestion::DnsQuestion;
use dns_resolver::protocol::dnsrecord::DnsRecord;
use dns_resolver::protocol::error::DnsError;
use dns_resolver::protocol::querytype::QueryType;
use dns_resolver::protocol::resultcode::ResultCode;
use dns_resolver::resolver::{root_server, Progress, Query, Resolver, DNS_PORT, QUERY_ID};

const ROOT: Ipv4Address = Ipv4Address { octets: [198, 41, 0, 4] };

fn a(domain: &str, addr: [u8; 4]) -> DnsRecord {
    DnsRecord::A { domain: domain.to_string(), addr: Ipv4Address { octets: addr }, ttl: 60 }
}

fn ns(domain: &str, host: &str) -> DnsRecord {
    DnsRecord::NS { domain: domain.to_string(), host: host.to_string(), ttl: 60 }
}

fn answer(domain: &str, addr: [u8; 4]) -> DnsPacket {
    let mut packet = DnsPacket::new();
    packet.header.response = true;
    packet.answers.push(a(domain, addr));
    packet
}

fn referral(zone: &str, host: &str, glue: Option<[u8; 4]>) -> DnsPacket {
    let mut packet = DnsPacket::new();
    packet.header.response = true;
    packet.authorities.push(ns(zone, host));
    if let Some(addr) = glue {
        packet.resources.push(a(host, addr));
    }
    packet
}

fn query(server: [u8; 4], name: &str, qtype: QueryType) -> Query {
    Query { server: Ipv4Address { octets: server }, name: name.to_string(), qtype }
}

fn asked(progress: Progress) -> (Resolver, Query) {
    match progress {
        Progress::Ask(resolver, query) => (resolver, query),
        other => panic!("expected another query, got {:?}", other),
    }
}

fn done(progress: Progress) -> DnsPacket {
    match progress {
        Progress::Done(packet) => packet,
        other => panic!("expected the end, got {:?}", other),
    }
}

#[test]
fn resolution_begins_at_the_root() {
    assert_eq!(root_server(), ROOT);
    assert_eq!(DNS_PORT, 53);
    let (resolver, first) = Resolver::start(root_server(), 16, "www.example.com", QueryType::Aaaa);
    assert_eq!(first, query([198, 41, 0, 4], "www.example.com", QueryType::Aaaa));
    assert_eq!(resolver.depth(), 1);
    let other = Ipv4Address::new(10, 0, 0, 1);
    let (_, first) = Resolver::start(other, 0, "x", QueryType::A);
    assert_eq!(first.server, other);
}

#[test]
fn query_message_asks_one_question_with_recursion_desired() {
    let packet = query([1, 2, 3, 4], "example.com", QueryType::MX).packet();
    assert_eq!(packet.header.id, QUERY_ID);
    assert_eq!(packet.header.id, 6666);
    assert!(packet.header.recursion_desired);
    assert!(!packet.header.response);
    assert_eq!(packet.header.questions, 1);
    assert_eq!(packet.questions, vec![DnsQuestion::new("example.com".to_string(), QueryType::MX)]);
    assert!(packet.answers.is_empty());
    assert!(packet.authorities.is_empty());
    assert!(packet.resources.is_empty());
}

#[test]
fn answer_ends_the_resolution() {
    let (resolver, _) = Resolver::start(ROOT, 16, "example.com", QueryType::A);
    let response = answer("example.com", [93, 184, 216, 34]);
    assert_eq!(done(resolver.step(Ok(response.clone()))), response);
}

#[test]
fn answer_with_an_error_code_does_not_end_by_itself() {
    let (resolver, _) = Resolver::start(ROOT, 16, "example.com", QueryType::A);
    let mut response = answer("example.com", [93, 184, 216, 34]);
    response.header.rescode = ResultCode::ServFail;
    response.authorities.push(ns("com", "ns.com"));
    response.resources.push(a("ns.com", [5, 5, 5, 5]));
    let (_, next) = asked(resolver.step(Ok(response)));
    assert_eq!(next, query([5, 5, 5, 5], "example.com", QueryType::A));
}

#[test]
fn nxdomain_ends_the_resolution() {
    let (resolver, _) = Resolver::start(ROOT, 16, "nope.example.com", QueryType::A);
    let mut response = referral("example.com", "ns.example.com", Some([1, 2, 3, 4]));
    response.header.rescode = ResultCode::NXDomain;
    assert_eq!(done(resolver.step(Ok(response.clone()))), response);
}

#[test]
fn referral_with_glue_goes_to_the_glue_address() {
    let (resolver, _) = Resolver::start(ROOT, 16, "www.example.com", QueryType::A);
    let response = referral("com", "a.gtld-servers.net", Some([192, 5, 6, 30]));
    let (resolver, next) = asked(resolver.step(Ok(response)));
    assert_eq!(next, query([192, 5, 6, 30], "www.example.com", QueryType::A));
    assert_eq!(resolver.depth(), 1);
    let last = answer("www.example.com", [93, 184, 216, 34]);
    assert_eq!(done(resolver.step(Ok(last.clone()))), last);
}

#[test]
fn referral_without_glue_looks_the_name_server_up() {
    let (resolver, _) = Resolver::start(ROOT, 16, "www.example.com", QueryType::Txt);
    let response = referral("example.com", "ns.elsewhere.net", None);
    let (resolver, next) = asked(resolver.step(Ok(response)));
    assert_eq!(next, query([198, 41, 0, 4], "ns.elsewhere.net", QueryType::A));
    assert_eq!(resolver.depth(), 2);
    let (resolver, next) =
        asked(resolver.step(Ok(referral("net", "a.gtld-servers.net", Some([192, 5, 6, 30])))));
    assert_eq!(next, query([192, 5, 6, 30], "ns.elsewhere.net", QueryType::A));
    assert_eq!(resolver.depth(), 2);
    let (resolver, next) = asked(resolver.step(Ok(answer("ns.elsewhere.net", [7, 7, 7, 7]))));
    assert_eq!(next, query([7, 7, 7, 7], "www.example.com", QueryType::Txt));
    assert_eq!(resolver.depth(), 1);
    let mut last = DnsPacket::new();
    last.answers.push(DnsRecord::Txt { domain: "www.example.com".to_string(), text: "hi".to_string(), ttl: 1 });
    assert_eq!(done(resolver.step(Ok(last.clone()))), last);
}

#[test]
fn response_without_answers_or_name_servers_is_final() {
    let (resolver, _) = Resolver::start(ROOT, 16, "www.example.com", QueryType::A);
    let mut response = DnsPacket::new();
    response.header.response = true;
    response.header.rescode = ResultCode::Refused;
    response.resources.push(a("stray.example.com", [1, 1, 1, 1]));
    assert_eq!(done(resolver.step(Ok(response.clone()))), response);
}

#[test]
fn name_servers_of_other_zones_do_not_count() {
    let (resolver, _) = Resolver::start(ROOT, 16, "www.example.com", QueryType::A);
    let response = referral("org", "ns.org", Some([1, 1, 1, 1]));
    assert_eq!(done(resolver.step(Ok(response.clone()))), response);
}

#[test]
fn failure_ends_the_whole_resolution() {
    let (resolver, _) = Resolver::start(ROOT, 16, "www.example.com", QueryType::A);
    match resolver.step(Err(DnsError::TransportFailure)) {
        Progress::Failed(e) => assert_eq!(e, DnsError::TransportFailure),
        other => panic!("expected a failure, got {:?}", other),
    }
    let (resolver, _) = Resolver::start(ROOT, 16, "www.example.com", QueryType::A);
    let (resolver, _) = asked(resolver.step(Ok(referral("example.com", "ns.elsewhere.net", None))));
    assert_eq!(resolver.depth(), 2);
    match resolver.step(Err(DnsError::EndOfBuffer)) {
        Progress::Failed(e) => assert_eq!(e, DnsError::EndOfBuffer),
        other => panic!("expected a failure, got {:?}", other),
    }
}

#[test]
fn name_server_without_address_falls_back_to_the_referral() {
    let (resolver, _) = Resolver::start(ROOT, 16, "www.example.com", QueryType::A);
    let first = referral("example.com", "ns.elsewhere.net", None);
    let (resolver, _) = asked(resolver.step(Ok(first.clone())));
    let mut empty = DnsPacket::new();
    empty.header.rescode = ResultCode::NXDomain;
    assert_eq!(done(resolver.step(Ok(empty))), first);
}

#[test]
fn fall_back_passes_through_every_waiting_lookup() {
    let (resolver, _) = Resolver::start(ROOT, 16, "www.example.com", QueryType::A);
    let first = referral("example.com", "ns.one.net", None);
    let (resolver, next) = asked(resolver.step(Ok(first.clone())));
    assert_eq!(next, query([198, 41, 0, 4], "ns.one.net", QueryType::A));
    let second = referral("one.net", "ns.two.org", None);
    let (resolver, next) = asked(resolver.step(Ok(second)));
    assert_eq!(next, query([198, 41, 0, 4], "ns.two.org", QueryType::A));
    assert_eq!(resolver.depth(), 3);
    let stall = DnsPacket::new();
    assert_eq!(done(resolver.step(Ok(stall))), first);
}

#[test]
fn address_of_inner_name_server_resumes_the_middle_lookup() {
    let (resolver, _) = Resolver::start(ROOT, 16, "www.example.com", QueryType::A);
    let (resolver, _) = asked(resolver.step(Ok(referral("example.com", "ns.one.net", None))));
    let (resolver, _) = asked(resolver.step(Ok(referral("one.net", "ns.two.org", None))));
    let (resolver, next) = asked(resolver.step(Ok(answer("ns.two.org", [2, 2, 2, 2]))));
    assert_eq!(next, query([2, 2, 2, 2], "ns.one.net", QueryType::A));
    assert_eq!(resolver.depth(), 2);
    let (resolver, next) = asked(resolver.step(Ok(answer("ns.one.net", [1, 1, 1, 1]))));
    assert_eq!(next, query([1, 1, 1, 1], "www.example.com", QueryType::A));
    assert_eq!(resolver.depth(), 1);
}

#[test]
fn nesting_stops_at_the_depth_limit() {
    let (resolver, _) = Resolver::start(ROOT, 0, "www.example.com", QueryType::A);
    let first = referral("example.com", "ns.one.net", None);
    assert_eq!(done(resolver.step(Ok(first.clone()))), first);
    let (resolver, _) = Resolver::start(ROOT, 1, "www.example.com", QueryType::A);
    let (resolver, _) = asked(resolver.step(Ok(first.clone())));
    assert_eq!(resolver.depth(), 2);
    let second = referral("one.net", "ns.two.org", None);
    assert_eq!(done(resolver.step(Ok(second))), first);
    let (resolver, _) = Resolver::start(ROOT, 1, "www.example.com", QueryType::A);
    let (resolver, _) = asked(resolver.step(Ok(first)));
    let (resolver, next) = asked(resolver.step(Ok(referral("one.net", "ns.two.org", Some([9, 9, 9, 9])))));
    assert_eq!(next, query([9, 9, 9, 9], "ns.one.net", QueryType::A));
    assert_eq!(resolver.depth(), 2);
}

#[test]
fn first_name_server_and_first_address_are_taken() {
    let (resolver, _) = Resolver::start(ROOT, 16, "www.example.com", QueryType::A);
    let mut response = DnsPacket::new();
    response.authorities.push(ns("com", "a.gtld-servers.net"));
    response.authorities.push(ns("com", "b.gtld-servers.net"));
    let (resolver, next) = asked(resolver.step(Ok(response)));
    assert_eq!(next, query([198, 41, 0, 4], "a.gtld-servers.net", QueryType::A));
    let mut addresses = DnsPacket::new();
    addresses.answers.push(ns("x", "y"));
    addresses.answers.push(a("a.gtld-servers.net", [1, 0, 0, 1]));
    addresses.answers.push(a("a.gtld-servers.net", [1, 0, 0, 2]));
    let (_, next) = asked(resolver.step(Ok(addresses)));
    assert_eq!(next, query([1, 0, 0, 1], "www.example.com", QueryType::A));
}

#[test]
fn depth_never_exceeds_the_limit() {
    for limit in 0..4usize {
        let (mut resolver, _) = Resolver::start(ROOT, limit, "www.example.net", QueryType::A);
        let mut hops = 0;
        loop {
            assert!(resolver.depth() <= limit + 1);
            assert!(hops <= limit);
            let host = format!("ns{}.elsewhere.net", hops);
            match resolver.step(Ok(referral("net", &host, None))) {
                Progress::Ask(next, query) => {
                    assert_eq!(query, Query { server: ROOT, name: host, qtype: QueryType::A });
                    resolver = next;
                    hops += 1;
                }
                Progress::Done(_) => break,
                Progress::Failed(e) => panic!("unexpected failure {:?}", e),
            }
        }
        assert_eq!(hops, limit);
    }
}
