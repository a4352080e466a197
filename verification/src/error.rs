//! What can go wrong in the log.
use crate::text::{decimal, push_decimal};
use vstd::prelude::*;
use vstd::string::StringExecFns;

verus! {

/// Why the log refused a request.
#[derive(Debug, PartialEq, Eq)]
pub enum LogError {
    /// There is no segment to append to.
    NoActiveSegment,
    /// No segment holds a record at this offset.
    OffsetOutOfRange(u64),
    /// The index has no such entry, or no room for another one.
    UnexpectedEof,
    /// The store ends before the bytes that were asked for.
    ShortRead,
    /// The stored bytes are not those of a record, for this reason.
    InvalidRecord(String),
    /// What the log is kept in failed, for this reason.
    Outside(String),
}

/// Why the log refused a request, as a mathematical value.
#[verifier::ext_equal]
pub enum ErrorView {
    NoActiveSegment,
    OffsetOutOfRange(u64),
    UnexpectedEof,
    ShortRead,
    InvalidRecord(Seq<char>),
    Outside(Seq<char>),
}

impl View for LogError {
    type V = ErrorView;

    open spec fn view(&self) -> ErrorView {
        match self {
            LogError::NoActiveSegment => ErrorView::NoActiveSegment,
            LogError::OffsetOutOfRange(off) => ErrorView::OffsetOutOfRange(*off),
            LogError::UnexpectedEof => ErrorView::UnexpectedEof,
            LogError::ShortRead => ErrorView::ShortRead,
            LogError::InvalidRecord(reason) => ErrorView::InvalidRecord(reason@),
            LogError::Outside(reason) => ErrorView::Outside(reason@),
        }
    }
}

/// What a call that gives a number gave.
pub open spec fn number_given(result: Result<u64, LogError>) -> Result<u64, ErrorView> {
    match result {
        Ok(number) => Ok(number),
        Err(error) => Err(error@),
    }
}

impl ErrorView {
    /// The text of the error.
    pub open spec fn text(self) -> Seq<char> {
        match self {
            ErrorView::NoActiveSegment => "No active segment"@,
            ErrorView::OffsetOutOfRange(off) => "offset out of range: "@ + decimal(off as nat),
            ErrorView::UnexpectedEof => "Unexpected EOF"@,
            ErrorView::ShortRead => "failed to fill whole buffer"@,
            ErrorView::InvalidRecord(reason) => reason,
            ErrorView::Outside(reason) => reason,
        }
    }
}

impl LogError {
    /// Says in words what went wrong.
    pub fn to_string(&self) -> (text: String)
        ensures
            text@ == self@.text(),
    {
        match self {
            LogError::NoActiveSegment => String::from_str("No active segment"),
            LogError::OffsetOutOfRange(off) => {
                let mut text = String::from_str("offset out of range: ");
                push_decimal(&mut text, *off);
                text
            },
            LogError::UnexpectedEof => String::from_str("Unexpected EOF"),
            LogError::ShortRead => String::from_str("failed to fill whole buffer"),
            LogError::InvalidRecord(reason) => reason.clone(),
            LogError::Outside(reason) => reason.clone(),
        }
    }
}

/// The text of an offset out of range ends with that offset in decimal; an outside failure, or a
/// record that cannot be read, is told in its own words.
pub proof fn errors_say_what_they_hold(off: u64, reason: Seq<char>)
    ensures
        ErrorView::OffsetOutOfRange(off).text() == "offset out of range: "@ + decimal(off as nat),
        ErrorView::InvalidRecord(reason).text() == reason,
        ErrorView::Outside(reason).text() == reason,
        ErrorView::NoActiveSegment.text() == "No active segment"@,
        ErrorView::UnexpectedEof.text() == "Unexpected EOF"@,
        ErrorView::ShortRead.text() == "failed to fill whole buffer"@,
{
}

/// A number that a call gives is the number it gave, and an error the error.
pub proof fn given_number_is_itself(result: Result<u64, LogError>)
    ensures
        result matches Ok(number) ==> number_given(result) == Ok::<u64, ErrorView>(number),
        result matches Err(error) ==> number_given(result) == Err::<u64, ErrorView>(error@),
        result == Err::<u64, LogError>(LogError::NoActiveSegment) ==> number_given(result) == Err::<
            u64,
            ErrorView,
        >(ErrorView::NoActiveSegment),
        result == Err::<u64, LogError>(LogError::UnexpectedEof) ==> number_given(result) == Err::<
            u64,
            ErrorView,
        >(ErrorView::UnexpectedEof),
{
}

/// An error holds what it was given.
pub proof fn errors_hold_what_they_are_given(off: u64, reason: String)
    ensures
        LogError::OffsetOutOfRange(off)@ == ErrorView::OffsetOutOfRange(off),
        LogError::InvalidRecord(reason)@ == ErrorView::InvalidRecord(reason@),
        LogError::Outside(reason)@ == ErrorView::Outside(reason@),
        LogError::NoActiveSegment@ is NoActiveSegment,
        LogError::UnexpectedEof@ is UnexpectedEof,
        LogError::ShortRead@ is ShortRead,
{
}

} // verus!
