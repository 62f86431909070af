use vstd::prelude::*;

verus! {

/// The type of a question or of a record.
#[derive(PartialEq, Eq, Debug, Clone, Hash, Copy, Structural)]
pub enum QueryType {
    Unknown(u16),
    A,
    NS,
    Cname,
    Soa,
    MX,
    Txt,
    Aaaa,
}

impl QueryType {
    /// The code of the type on the wire.
    pub open spec fn code(self) -> u16 {
        match self {
            QueryType::Unknown(x) => x,
            QueryType::A => 1,
            QueryType::NS => 2,
            QueryType::Cname => 5,
            QueryType::Soa => 6,
            QueryType::MX => 15,
            QueryType::Txt => 16,
            QueryType::Aaaa => 28,
        }
    }

    /// The type that the code `num` stands for.
    pub open spec fn of_code(num: u16) -> QueryType {
        if num == 1 {
            QueryType::A
        } else if num == 2 {
            QueryType::NS
        } else if num == 5 {
            QueryType::Cname
        } else if num == 6 {
            QueryType::Soa
        } else if num == 15 {
            QueryType::MX
        } else if num == 16 {
            QueryType::Txt
        } else if num == 28 {
            QueryType::Aaaa
        } else {
            QueryType::Unknown(num)
        }
    }

    /// No code is written in two ways: an `Unknown` holds a code that has no type of its own.
    pub open spec fn canonical(self) -> bool {
        QueryType::of_code(self.code()) == self
    }

    #[verifier::when_used_as_spec(code)]
    pub fn to_num(self) -> (r: u16)
        ensures
            r == self.code(),
    {
        match self {
            QueryType::Unknown(x) => x,
            QueryType::A => 1,
            QueryType::NS => 2,
            QueryType::Cname => 5,
            QueryType::Soa => 6,
            QueryType::MX => 15,
            QueryType::Txt => 16,
            QueryType::Aaaa => 28,
        }
    }

    #[verifier::when_used_as_spec(of_code)]
    pub fn from_num(num: u16) -> (r: QueryType)
        ensures
            r == QueryType::of_code(num),
    {
        match num {
            1 => QueryType::A,
            2 => QueryType::NS,
            5 => QueryType::Cname,
            6 => QueryType::Soa,
            15 => QueryType::MX,
            16 => QueryType::Txt,
            28 => QueryType::Aaaa,
            _ => QueryType::Unknown(num),
        }
    }

    /// A code read from the wire, written back, is the same code.
    pub proof fn theorem_code_round_trip(num: u16)
        ensures
            QueryType::of_code(num).code() == num,
            QueryType::of_code(num).canonical(),
    {
    }
}

} // verus!
