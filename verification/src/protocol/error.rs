use vstd::prelude::*;

verus! {

/// The ways in which decoding, encoding or resolving can fail.
#[derive(Clone, Copy, Debug, PartialEq, Eq, Structural)]
pub enum DnsError {
    /// A read, write or seek would have touched an offset outside the datagram.
    EndOfBuffer,
    /// A label of more than 63 bytes was handed to the name encoder.
    LabelTooLong,
    /// More than five compression pointers were followed while decoding one name.
    CompressionLoop,
    /// The environment failed to send or to receive a datagram.
    TransportFailure,
    /// An inbound message carried no question.
    MalformedRequest,
}

impl DnsError {
    /// What went wrong, in words.
    pub open spec fn text(self) -> Seq<char> {
        match self {
            DnsError::EndOfBuffer => "End of buffer"@,
            DnsError::LabelTooLong => "Label too long"@,
            DnsError::CompressionLoop => "Limit of jumps exceeded! Possible loop detected."@,
            DnsError::TransportFailure => "Transport failure"@,
            DnsError::MalformedRequest => "Malformed request"@,
        }
    }

    /// What went wrong, in words.
    pub fn message(self) -> (r: &'static str)
        ensures
            r@ == self.text(),
    {
        match self {
            DnsError::EndOfBuffer => "End of buffer",
            DnsError::LabelTooLong => "Label too long",
            DnsError::CompressionLoop => "Limit of jumps exceeded! Possible loop detected.",
            DnsError::TransportFailure => "Transport failure",
            DnsError::MalformedRequest => "Malformed request",
        }
    }
}

} // verus!
