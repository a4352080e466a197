//! How a request can fail.
use vstd::prelude::*;
use vstd::string::StringExecFns;

verus! {

/// The kinds of failure that the service reports.
#[derive(Debug, Clone, Copy, PartialEq, Eq, Structural)]
pub enum Code {
    Unknown,
    InvalidArgument,
    PermissionDenied,
    OutOfRange,
    Unauthenticated,
}

/// A failed request: the kind of failure, and what went wrong in words.
#[derive(Debug, PartialEq, Eq)]
pub struct Status {
    pub code: Code,
    pub message: String,
}

/// A failed request as a mathematical value.
#[verifier::ext_equal]
pub struct StatusView {
    pub code: Code,
    pub message: Seq<char>,
}

impl View for Status {
    type V = StatusView;

    open spec fn view(&self) -> StatusView {
        StatusView { code: self.code, message: self.message@ }
    }
}

impl Code {
    /// The number of the kind of failure among the codes of gRPC.
    pub open spec fn spec_number(self) -> i32 {
        match self {
            Code::Unknown => 2,
            Code::InvalidArgument => 3,
            Code::PermissionDenied => 7,
            Code::OutOfRange => 11,
            Code::Unauthenticated => 16,
        }
    }

    /// The number of the kind of failure among the codes of gRPC.
    pub fn number(&self) -> (number: i32)
        ensures
            number == self.spec_number(),
    {
        match self {
            Code::Unknown => 2,
            Code::InvalidArgument => 3,
            Code::PermissionDenied => 7,
            Code::OutOfRange => 11,
            Code::Unauthenticated => 16,
        }
    }
}

/// The text that `tonic` has for a status with this code and this message, and nothing besides.
pub uninterp spec fn status_text(code: i32, message: Seq<char>) -> Seq<char>;

/// `to_string` of a `Status` of `tonic` that `Status::new` made of a code, by its number, and a
/// message: a text that depends on these two alone.
#[verifier::external_body]
fn status_to_string(code: i32, message: &String) -> (text: String)
    ensures
        text@ == status_text(code, message@),
{
    tonic::Status::new(tonic::Code::from_i32(code), message.clone()).to_string()
}

impl Status {
    /// A failure of this kind.
    pub fn new(code: Code, message: &str) -> (status: Status)
        ensures
            status@ == (StatusView { code, message: message@ }),
            status.code == code,
            status.message@ == message@,
    {
        Status { code, message: String::from_str(message) }
    }

    /// The failure in words: its kind and its message.
    pub fn to_string(&self) -> (text: String)
        ensures
            text@ == status_text(self.code.spec_number(), self.message@),
    {
        status_to_string(self.code.number(), &self.message)
    }
}

/// The kinds of failure have the numbers that gRPC gives them, and no two of them the same one.
pub proof fn codes_are_those_of_grpc(code: Code, other: Code)
    ensures
        code is Unknown <==> code.spec_number() == 2,
        code is InvalidArgument <==> code.spec_number() == 3,
        code is PermissionDenied <==> code.spec_number() == 7,
        code is OutOfRange <==> code.spec_number() == 11,
        code is Unauthenticated <==> code.spec_number() == 16,
        code.spec_number() == other.spec_number() ==> code == other,
{
}

/// A failure is its kind and its message.
pub proof fn status_is_code_and_message(status: Status)
    ensures
        status@.code == status.code,
        status@.message == status.message@,
{
}

} // verus!
