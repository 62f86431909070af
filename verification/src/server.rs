use vstd::prelude::*;
use crate::protocol::dnsheader::DnsHeader;
use crate::protocol::dnspacket::{DnsPacket, PacketView};
use crate::protocol::dnsquestion::{DnsQuestion, QuestionView};
use crate::protocol::error::DnsError;
use crate::protocol::resultcode::ResultCode;
use crate::resolver::reply_view;

verus! {

/// What to do with a request.
#[derive(Debug, Clone)]
pub enum Intake {
    /// Resolve the question, then complete the reply with what the resolution gives.
    Resolve(DnsPacket, DnsQuestion),
    /// Send the reply as it is: the request cannot be served, for the reason given.
    Reject(DnsPacket, DnsError),
}

/// The header of the reply to a request with the header `request`: the same id and the same
/// wish for recursion, marked as a response from a server that offers recursion.
pub open spec fn reply_header(request: DnsHeader, rescode: ResultCode) -> DnsHeader {
    DnsHeader {
        id: request.id,
        recursion_desired: request.recursion_desired,
        response: true,
        recursion_available: true,
        rescode,
        ..DnsHeader::blank()
    }
}

/// A message with the header `header` and nothing else.
pub open spec fn bare(header: DnsHeader) -> PacketView {
    PacketView {
        header,
        questions: Seq::empty(),
        answers: Seq::empty(),
        authorities: Seq::empty(),
        resources: Seq::empty(),
    }
}

/// What is done with the request `request`: a request without a question is rejected as
/// malformed, with a reply that says so; otherwise its last question is to be resolved.
pub open spec fn intake(request: PacketView) -> (PacketView, Result<QuestionView, DnsError>) {
    if request.questions.len() == 0 {
        (bare(reply_header(request.header, ResultCode::FormErr)), Err(DnsError::MalformedRequest))
    } else {
        (bare(reply_header(request.header, ResultCode::NoError)), Ok(request.questions.last()))
    }
}

/// The reply `reply` completed with the outcome of resolving `question`: with the question,
/// the response code and the records of the resolver's response, or, where resolving failed,
/// with the response code for a server failure and nothing else.
pub open spec fn completed(
    reply: PacketView,
    question: QuestionView,
    outcome: Result<PacketView, DnsError>,
) -> PacketView {
    match outcome {
        Ok(result) => PacketView {
            header: DnsHeader { rescode: result.header.rescode, ..reply.header },
            questions: reply.questions.push(question),
            answers: reply.answers + result.answers,
            authorities: reply.authorities + result.authorities,
            resources: reply.resources + result.resources,
        },
        Err(_) => PacketView {
            header: DnsHeader { rescode: ResultCode::ServFail, ..reply.header },
            ..reply
        },
    }
}

/// Begins the reply to `request` and says whether there is a question to resolve.
pub fn accept(request: DnsPacket) -> (r: Intake)
    ensures
        match r {
            Intake::Resolve(reply, question) => {
                intake(request@) == (reply@, Ok::<QuestionView, DnsError>(question@))
            },
            Intake::Reject(reply, reason) => {
                intake(request@) == (reply@, Err::<QuestionView, DnsError>(reason))
            },
        },
{
    let mut request = request;
    let ghost asked = request@;
    let mut packet = DnsPacket::new();
    packet.header.id = request.header.id;
    packet.header.response = true;
    packet.header.recursion_available = true;
    packet.header.recursion_desired = request.header.recursion_desired;
    proof {
        assert(packet@.questions =~= Seq::empty());
        assert(packet@.answers =~= Seq::empty());
        assert(packet@.authorities =~= Seq::empty());
        assert(packet@.resources =~= Seq::empty());
    }
    match request.questions.pop() {
        Some(question) => Intake::Resolve(packet, question),
        None => {
            packet.header.rescode = ResultCode::FormErr;
            Intake::Reject(packet, DnsError::MalformedRequest)
        },
    }
}

/// Completes the reply `reply` with the outcome of resolving `question`.
pub fn complete(
    reply: DnsPacket,
    question: DnsQuestion,
    outcome: Result<DnsPacket, DnsError>,
) -> (r: DnsPacket)
    ensures
        r@ == completed(reply@, question@, reply_view(outcome)),
{
    let mut packet = reply;
    match outcome {
        Ok(result) => {
            let mut result = result;
            packet.questions.push(question);
            packet.header.rescode = result.header.rescode;
            packet.answers.append(&mut result.answers);
            packet.authorities.append(&mut result.authorities);
            packet.resources.append(&mut result.resources);
            proof {
                let want = completed(reply@, question@, reply_view(outcome));
                assert(packet@.questions =~= want.questions);
                assert(packet@.answers =~= want.answers);
                assert(packet@.authorities =~= want.authorities);
                assert(packet@.resources =~= want.resources);
            }
        },
        Err(_) => {
            packet.header.rescode = ResultCode::ServFail;
        },
    }
    packet
}

} // verus!
