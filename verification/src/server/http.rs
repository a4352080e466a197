//! The service over HTTP, on a log in memory.
use crate::record::{Record, RecordView};
use crate::server::log::{found, Log, OffsetNotFound};
use vstd::prelude::*;

verus! {

/// The status of a reply that the service itself failed on.
pub const INTERNAL_SERVER_ERROR: u16 = 500;

/// The status of a reply to a request for what is not there.
pub const NOT_FOUND: u16 = 404;

/// The service and its log.
pub struct HttpServer {
    pub log: Log,
}

/// A request to append a record.
pub struct ProduceRequest {
    pub record: Record,
}

/// The offset that a record was stored under.
#[derive(Debug, Clone, Copy, PartialEq, Eq, Structural)]
pub struct ProduceResponse {
    pub offset: u64,
}

/// A request for the record at an offset.
#[derive(Debug, Clone, Copy, PartialEq, Eq, Structural)]
pub struct ConsumeRequest {
    pub offset: u64,
}

/// The record that was asked for.
#[derive(Debug, PartialEq, Eq)]
pub struct ConsumeResponse {
    pub record: Record,
}

/// The reply to a request to append, by what became of the record: where that failed, the text of
/// the failure.
pub fn produce_reply(appended: Result<u64, String>) -> (reply: Result<
    ProduceResponse,
    (u16, String),
>)
    ensures
        reply == match appended {
            Ok(offset) => Ok(ProduceResponse { offset }),
            Err(text) => Err((INTERNAL_SERVER_ERROR, text)),
        },
        reply matches Ok(response) ==> appended == Ok::<u64, String>(response.offset),
        reply matches Err((status, text)) ==> status == 500 && appended == Err::<u64, String>(text),
{
    match appended {
        Ok(offset) => Ok(ProduceResponse { offset }),
        Err(text) => Err((INTERNAL_SERVER_ERROR, text)),
    }
}

/// The reply to a request for a record, by what was found: where that failed, the text of the
/// failure.
pub fn consume_reply(read: Result<Record, String>) -> (reply: Result<
    ConsumeResponse,
    (u16, String),
>)
    ensures
        reply == match read {
            Ok(record) => Ok(ConsumeResponse { record }),
            Err(text) => Err((NOT_FOUND, text)),
        },
        reply matches Ok(response) ==> read == Ok::<Record, String>(response.record),
        reply matches Err((status, text)) ==> status == 404 && read == Err::<Record, String>(text),
{
    match read {
        Ok(record) => Ok(ConsumeResponse { record }),
        Err(text) => Err((NOT_FOUND, text)),
    }
}

impl HttpServer {
    /// A service on an empty log.
    pub fn new() -> (server: HttpServer)
        ensures
            server.log@ == Seq::<RecordView>::empty(),
    {
        HttpServer { log: Log::default() }
    }

    /// Appends the record of a request.
    pub fn handle_produce(&mut self, req: ProduceRequest) -> (reply: Result<
        ProduceResponse,
        (u16, String),
    >)
        ensures
            reply matches Ok(response) && response.offset == old(self).log@.len(),
            reply matches Ok(response) && response.offset == old(self).log.records@.len(),
            final(self).log.records@.len() == old(self).log.records@.len() + 1,
            final(self).log.records@.last().value@ == req.record.value@,
            final(self).log.records@.last().offset == old(self).log.records@.len(),
            forall|i: int|
                0 <= i < old(self).log.records@.len() ==> #[trigger] final(self).log.records@[i]
                    == old(self).log.records@[i],
            final(self).log@ == old(self).log@.push(
                RecordView { value: req.record.value@, offset: old(self).log@.len() as u64 },
            ),
    {
        let offset: u64 = self.log.append(req.record);
        produce_reply(Ok(offset))
    }

    /// The record at the offset of a request.
    pub fn handle_consume(&self, req: ConsumeRequest) -> (reply: Result<
        ConsumeResponse,
        (u16, String),
    >)
        ensures
            match reply {
                Ok(response) => found(self.log@, req.offset) == Ok::<RecordView, OffsetNotFound>(
                    response.record@,
                ),
                Err((status, text)) => {
                    &&& found(self.log@, req.offset) is Err
                    &&& status == NOT_FOUND
                    &&& text@ == "offset not found"@
                },
            },
            reply is Ok <==> req.offset < self.log.records@.len(),
            reply matches Err((status, _)) ==> status == 404,
            reply matches Ok(response) ==> response.record.value@
                == self.log.records@[req.offset as int].value@ && response.record.offset
                == self.log.records@[req.offset as int].offset,
    {
        match self.log.read(req.offset) {
            Ok(record) => consume_reply(Ok(record)),
            Err(error) => consume_reply(Err(error.to_string())),
        }
    }
}

} // verus!
