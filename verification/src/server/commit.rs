//! What the services ask of a log.
use crate::error::{number_given, ErrorView, LogError};
use crate::record::{viewed, Record, RecordView};
use vstd::prelude::*;

verus! {

/// A log that records can be appended to and read from. What an append or a read asks for, and
/// what it does, is for the log to say; one that says nothing asks for nothing and promises
/// nothing.
pub trait CommitLog {
    /// Whether this record can be handed to the log.
    open spec fn takes(&self, record: RecordView) -> bool {
        true
    }

    /// Whether an append of `record` can give this result and leave the log as `after`.
    open spec fn appends(
        &self,
        record: RecordView,
        result: Result<u64, ErrorView>,
        after: &Self,
    ) -> bool {
        true
    }

    /// Whether this offset can be asked for.
    open spec fn looks_up(&self, offset: u64) -> bool {
        true
    }

    /// Whether a read of `offset` can give this result and leave the log as `after`.
    open spec fn reads(
        &self,
        offset: u64,
        result: Result<RecordView, ErrorView>,
        after: &Self,
    ) -> bool {
        true
    }

    /// Appends a record, and gives the offset that it was stored under.
    fn append(&mut self, record: Record) -> (result: Result<u64, LogError>)
        requires
            old(self).takes(record@),
        ensures
            old(self).appends(record@, number_given(result), final(self)),
    ;

    /// The record at `offset`.
    fn read(&mut self, offset: u64) -> (result: Result<Record, LogError>)
        requires
            old(self).looks_up(offset),
        ensures
            old(self).reads(offset, viewed(result), final(self)),
    ;
}

} // verus!
