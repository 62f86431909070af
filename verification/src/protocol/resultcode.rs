use vstd::prelude::*;

verus! {

/// The response code of a message.
#[derive(Copy, Clone, Debug, PartialEq, Eq, Structural)]
pub enum ResultCode {
    NoError,
    FormErr,
    ServFail,
    NXDomain,
    NotImp,
    Refused,
}

impl ResultCode {
    /// The code on the wire.
    pub open spec fn code(self) -> u8 {
        match self {
            ResultCode::NoError => 0,
            ResultCode::FormErr => 1,
            ResultCode::ServFail => 2,
            ResultCode::NXDomain => 3,
            ResultCode::NotImp => 4,
            ResultCode::Refused => 5,
        }
    }

    /// The response code that `num` stands for; a number without a meaning counts as
    /// `NoError`.
    pub open spec fn of_code(num: u8) -> ResultCode {
        if num == 1 {
            ResultCode::FormErr
        } else if num == 2 {
            ResultCode::ServFail
        } else if num == 3 {
            ResultCode::NXDomain
        } else if num == 4 {
            ResultCode::NotImp
        } else if num == 5 {
            ResultCode::Refused
        } else {
            ResultCode::NoError
        }
    }

    #[verifier::when_used_as_spec(of_code)]
    pub fn from_num(num: u8) -> (r: ResultCode)
        ensures
            r == ResultCode::of_code(num),
    {
        match num {
            1 => ResultCode::FormErr,
            2 => ResultCode::ServFail,
            3 => ResultCode::NXDomain,
            4 => ResultCode::NotImp,
            5 => ResultCode::Refused,
            0 => ResultCode::NoError,
            _ => ResultCode::NoError,
        }
    }

    #[verifier::when_used_as_spec(code)]
    pub fn to_num(self) -> (r: u8)
        ensures
            r == self.code(),
    {
        match self {
            ResultCode::NoError => 0,
            ResultCode::FormErr => 1,
            ResultCode::ServFail => 2,
            ResultCode::NXDomain => 3,
            ResultCode::NotImp => 4,
            ResultCode::Refused => 5,
        }
    }

    /// Every response code comes back from its own number.
    pub proof fn lemma_of_code_code(code: ResultCode)
        ensures
            ResultCode::of_code(code.code()) == code,
            code.code() < 16,
    {
    }
}

} // verus!
