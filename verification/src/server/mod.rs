//! The services that append to a log and read from it.
pub mod certificate;
pub mod commit;
pub mod http;
pub mod laws;
pub mod log;
pub mod status;

use crate::auth::authorizer::{decided, Access, Authorizer};
use crate::error::{ErrorView, LogError};
use crate::log::Log;
use crate::record::{viewed, Record, RecordView};
use certificate::{extract_subject_name, subject_name};
use commit::CommitLog;
use status::{status_text, Code, Status, StatusView};
use vstd::prelude::*;
use vstd::string::StringExecFns;

verus! {

/// The object that stands for all of them.
pub const OBJECT_WILDCARD: &'static str = "*";

/// What a peer does that appends.
pub const PRODUCE_ACTION: &'static str = "produce";

/// What a peer does that reads.
pub const CONSUME_ACTION: &'static str = "consume";

/// A request to append a record.
pub struct ProduceRequest {
    pub record: Option<Record>,
}

/// The offset that a record was stored under.
#[derive(Debug, Clone, Copy, PartialEq, Eq, Structural)]
pub struct ProduceResponse {
    pub offset: u64,
}

/// A request for the record at an offset.
#[derive(Debug, Clone, Copy, PartialEq, Eq, Structural)]
pub struct ConsumeRequest {
    pub offset: u64,
}

/// The record that was asked for.
#[derive(Debug, PartialEq, Eq)]
pub struct ConsumeResponse {
    pub record: Option<Record>,
}

/// What the service works with: the log, and who decides on requests.
pub struct ServerConfig<L> {
    pub commit_log: L,
    pub authorizer: Authorizer,
}

/// The service.
pub struct LogServerService<L> {
    pub config: ServerConfig<L>,
}

/// The certificates that a peer shows, as mathematical values.
pub open spec fn certificates(certs: Seq<Vec<u8>>) -> Seq<Seq<u8>> {
    Seq::new(certs.len(), |i: int| certs[i]@)
}

/// The failure of a peer that shows no certificate.
pub open spec fn no_certificate() -> StatusView {
    StatusView { code: Code::Unauthenticated, message: "No certificate provided"@ }
}

/// The failure of a peer none of whose certificates is good for the request.
pub open spec fn not_authenticated() -> StatusView {
    StatusView { code: Code::Unauthenticated, message: "certificate authentication failed"@ }
}

/// The failure of an append without a record.
pub open spec fn invalid_record() -> StatusView {
    StatusView { code: Code::InvalidArgument, message: "Invalid record provided"@ }
}

/// The failure of a read that finds no record.
pub open spec fn record_not_found() -> StatusView {
    StatusView { code: Code::OutOfRange, message: "record not found"@ }
}

/// Whether a certificate is good for a request: it names a subject to whom the policy grants it.
pub open spec fn is_good(
    authorizer: Authorizer,
    cert: Seq<u8>,
    object: Seq<char>,
    action: Seq<char>,
) -> bool {
    &&& subject_name(cert) matches Some(subject)
    &&& authorizer.outcome(Access { subject, object, action }) == Some(true)
}

/// Whether one of these certificates is good for a request.
pub open spec fn has_good(
    authorizer: Authorizer,
    certs: Seq<Seq<u8>>,
    object: Seq<char>,
    action: Seq<char>,
) -> bool {
    exists|i: int|
        0 <= i < certs.len() && is_good(authorizer, #[trigger] certs[i], object, action)
}

/// Whether a peer that shows these certificates is admitted to a request, or why it is turned away.
pub open spec fn admission(
    authorizer: Authorizer,
    peer_certs: Option<Vec<Vec<u8>>>,
    action: Seq<char>,
) -> Result<(), StatusView> {
    match peer_certs {
        None => Err(no_certificate()),
        Some(certs) => if has_good(
            authorizer,
            certificates(certs@),
            OBJECT_WILDCARD@,
            action,
        ) {
            Ok(())
        } else {
            Err(not_authenticated())
        },
    }
}

/// The reply to a peer, by whether one of its certificates was good for the request.
pub fn auth_reply(granted: bool) -> (result: Result<(), Status>)
    ensures
        decided(result) == if granted {
            Ok(())
        } else {
            Err(not_authenticated())
        },
{
    if granted {
        Ok(())
    } else {
        Err(Status::new(Code::Unauthenticated, "certificate authentication failed"))
    }
}

impl<L> ServerConfig<L> {
    /// What a service needs to work with this log.
    pub fn new(commit_log: L, authorizer: Authorizer) -> (config: ServerConfig<L>)
        ensures
            config.commit_log == commit_log,
            config.authorizer == authorizer,
    {
        ServerConfig { commit_log, authorizer }
    }
}

impl<L> LogServerService<L> {
    /// A service on this log.
    pub fn new(config: ServerConfig<L>) -> (service: LogServerService<L>)
        ensures
            service.config == config,
    {
        LogServerService { config }
    }

    /// Decides whether a peer that shows these certificates may do `action` with `object`.
    pub fn auth(&self, peer_certs: &Vec<Vec<u8>>, object: &str, action: &str) -> (result: Result<
        (),
        Status,
    >)
        ensures
            decided(result) == if has_good(
                self.config.authorizer,
                certificates(peer_certs@),
                object@,
                action@,
            ) {
                Ok(())
            } else {
                Err(not_authenticated())
            },
    {
        let ghost certs = certificates(peer_certs@);
        let n: usize = peer_certs.len();
        let mut i: usize = 0;
        while i < n
            invariant
                i <= n == peer_certs@.len(),
                certs == certificates(peer_certs@),
                forall|j: int|
                    0 <= j < i ==> !is_good(
                        self.config.authorizer,
                        #[trigger] certs[j],
                        object@,
                        action@,
                    ),
            decreases n - i,
        {
            assert(certs[i as int] == peer_certs@[i as int]@);
            match extract_subject_name(peer_certs[i].as_slice()) {
                Some(name) => {
                    assert(subject_name(certs[i as int]) == Some(name@));
                    let granted = self.config.authorizer.authorize(
                        name,
                        String::from_str(object),
                        String::from_str(action),
                    );
                    match granted {
                        Ok(()) => {
                            assert(is_good(
                                self.config.authorizer,
                                certs[i as int],
                                object@,
                                action@,
                            ));
                            return auth_reply(true);
                        },
                        Err(_) => {},
                    }
                },
                None => {},
            }
            i += 1;
        }
        auth_reply(false)
    }

    /// Decides whether a peer may do `action`. One that shows no certificates may not.
    pub fn check_peer(&self, peer_certs: &Option<Vec<Vec<u8>>>, action: &str) -> (result: Result<
        (),
        Status,
    >)
        ensures
            decided(result) == admission(self.config.authorizer, *peer_certs, action@),
    {
        match peer_certs {
            None => Err(Status::new(Code::Unauthenticated, "No certificate provided")),
            Some(certs) => self.auth(certs, OBJECT_WILDCARD, action),
        }
    }
}

/// A reply to an append as a mathematical value.
pub open spec fn produced(reply: Result<ProduceResponse, Status>) -> Result<u64, StatusView> {
    match reply {
        Ok(response) => Ok(response.offset),
        Err(status) => Err(status@),
    }
}

/// What an append gave, as a mathematical value: no reply where the log itself failed.
pub open spec fn outcome_of(
    result: Result<Result<ProduceResponse, Status>, LogError>,
) -> Result<Result<u64, StatusView>, ErrorView> {
    match result {
        Ok(reply) => Ok(produced(reply)),
        Err(error) => Err(error@),
    }
}

/// The record of a request, if it has one.
pub open spec fn record_of(request: ProduceRequest) -> Option<RecordView> {
    match request.record {
        Some(record) => Some(record@),
        None => None,
    }
}

/// A reply to a read as a mathematical value.
pub open spec fn consumed(reply: Result<ConsumeResponse, Status>) -> Result<
    Option<RecordView>,
    StatusView,
> {
    match reply {
        Ok(response) => Ok(
            match response.record {
                Some(record) => Some(record@),
                None => None,
            },
        ),
        Err(status) => Err(status@),
    }
}

/// The reply to a read, by what the log gave.
pub open spec fn read_reply(result: Result<RecordView, ErrorView>) -> Result<
    Option<RecordView>,
    StatusView,
> {
    match result {
        Ok(record) => Ok(Some(record)),
        Err(_) => Err(record_not_found()),
    }
}

/// The failure that a stream sends on: one of unknown kind, with the text of the other.
pub open spec fn sent_on(status: StatusView) -> StatusView {
    StatusView {
        code: Code::Unknown,
        message: status_text(status.code.spec_number(), status.message),
    }
}

/// What a stream of replies to appends sends for what an append gave.
pub open spec fn sent_for(
    outcome: Result<Result<u64, StatusView>, ErrorView>,
) -> Result<Result<u64, StatusView>, ErrorView> {
    match outcome {
        Ok(Err(status)) => Ok(Err(sent_on(status))),
        other => other,
    }
}

/// The next thing to do for a peer that reads a stream of records.
pub enum ConsumeStep {
    /// Send this, and go on with the offset that follows.
    Send(ConsumeResponse),
    /// Ask again for the same offset.
    Retry,
    /// Send this, and end the stream.
    Stop(Status),
}

impl ConsumeStep {
    /// Whether this is what follows on a reply to a read.
    pub open spec fn follows(self, reply: Result<Option<RecordView>, StatusView>) -> bool {
        match reply {
            Ok(record) => {
                &&& self matches ConsumeStep::Send(response)
                &&& consumed(Ok(response)) == Ok::<Option<RecordView>, StatusView>(record)
            },
            Err(status) => if status.code == Code::OutOfRange {
                self is Retry
            } else {
                self matches ConsumeStep::Stop(stop) && stop@ == sent_on(status)
            },
        }
    }
}

/// A failure that a stream sends on for another.
fn send_on(status: &Status) -> (sent: Status)
    ensures
        sent@ == sent_on(status@),
{
    Status { code: Code::Unknown, message: status.to_string() }
}

/// What follows in a stream of records on the reply to a read.
pub fn consume_step(reply: Result<ConsumeResponse, Status>) -> (step: ConsumeStep)
    ensures
        step.follows(consumed(reply)),
        match reply {
            Ok(response) => step == ConsumeStep::Send(response),
            Err(status) => if status.code == Code::OutOfRange {
                step is Retry
            } else {
                &&& step matches ConsumeStep::Stop(stop)
                &&& stop.code == Code::Unknown
                &&& stop.message@ == status_text(status.code.spec_number(), status.message@)
            },
        },
{
    match reply {
        Ok(response) => ConsumeStep::Send(response),
        Err(status) => {
            if status.code == Code::OutOfRange {
                return ConsumeStep::Retry;
            }
            ConsumeStep::Stop(send_on(&status))
        },
    }
}

/// The request that follows one whose record was sent, if the peer took it.
pub fn consume_next(request: ConsumeRequest, taken: bool) -> (next: Option<ConsumeRequest>)
    requires
        taken ==> request.offset < u64::MAX,
    ensures
        next == if taken {
            Some(ConsumeRequest { offset: (request.offset + 1) as u64 })
        } else {
            None
        },
{
    if !taken {
        return None;
    }
    Some(ConsumeRequest { offset: request.offset + 1 })
}

/// What a stream of replies to appends sends for one reply.
pub fn produce_step(reply: Result<ProduceResponse, Status>) -> (sent: Result<
    ProduceResponse,
    Status,
>)
    ensures
        produced(sent) == match produced(reply) {
            Ok(offset) => Ok(offset),
            Err(status) => Err(sent_on(status)),
        },
        reply matches Ok(response) ==> sent == Ok::<ProduceResponse, Status>(response),
        reply matches Err(status) ==> (sent matches Err(other) && other.code == Code::Unknown
            && other.message@ == status_text(status.code.spec_number(), status.message@)),
{
    match reply {
        Ok(response) => Ok(response),
        Err(status) => Err(send_on(&status)),
    }
}

impl<L: CommitLog> LogServerService<L> {
    /// What an append gives and makes of the service, for a peer that was admitted or turned away
    /// like this. Where the log itself fails there is no reply.
    pub open spec fn produces(
        &self,
        admission: Result<(), StatusView>,
        record: Option<RecordView>,
        result: Result<Result<u64, StatusView>, ErrorView>,
        after: &Self,
    ) -> bool {
        match (admission, record) {
            (Err(status), _) => {
                &&& after == self
                &&& result == Ok::<Result<u64, StatusView>, ErrorView>(Err(status))
            },
            (Ok(()), None) => {
                &&& after == self
                &&& result == Ok::<Result<u64, StatusView>, ErrorView>(Err(invalid_record()))
            },
            (Ok(()), Some(record)) => {
                &&& after.config.authorizer == self.config.authorizer
                &&& self.config.commit_log.appends(
                    record,
                    match result {
                        Ok(reply) => Ok(reply->Ok_0),
                        Err(error) => Err(error),
                    },
                    &after.config.commit_log,
                )
                &&& result matches Ok(reply) ==> reply is Ok
            },
        }
    }

    /// What a read gives and makes of the service, for a peer that was admitted or turned away like
    /// this.
    pub open spec fn consumes(
        &self,
        admission: Result<(), StatusView>,
        offset: u64,
        reply: Result<Option<RecordView>, StatusView>,
        after: &Self,
    ) -> bool {
        match admission {
            Err(status) => {
                &&& after == self
                &&& reply == Err::<Option<RecordView>, StatusView>(status)
            },
            Ok(()) => {
                &&& after.config.authorizer == self.config.authorizer
                &&& exists|read: Result<RecordView, ErrorView>|
                    #![trigger read_reply(read)]
                    self.config.commit_log.reads(offset, read, &after.config.commit_log)
                        && reply == read_reply(read)
            },
        }
    }

    /// Appends the record of a request, for a peer that was admitted or turned away like this.
    pub fn produce_for(
        &mut self,
        admission: Result<(), Status>,
        request: ProduceRequest,
    ) -> (result: Result<Result<ProduceResponse, Status>, LogError>)
        requires
            admission is Ok && request.record is Some ==> old(self).config.commit_log.takes(
                record_of(request)->0,
            ),
        ensures
            old(self).produces(
                decided(admission),
                record_of(request),
                outcome_of(result),
                final(self),
            ),
    {
        match admission {
            Err(status) => {
                return Ok(Err(status));
            },
            Ok(()) => {},
        }
        match request.record {
            Some(record) => match self.config.commit_log.append(record) {
                Ok(offset) => Ok(Ok(ProduceResponse { offset })),
                Err(error) => Err(error),
            },
            None => Ok(Err(Status::new(Code::InvalidArgument, "Invalid record provided"))),
        }
    }

    /// Appends the record of a request, if the peer may do that. Gives the error of the log where
    /// the log fails.
    pub fn produce(
        &mut self,
        peer_certs: &Option<Vec<Vec<u8>>>,
        request: ProduceRequest,
    ) -> (result: Result<Result<ProduceResponse, Status>, LogError>)
        requires
            admission(old(self).config.authorizer, *peer_certs, PRODUCE_ACTION@) is Ok
                && request.record is Some ==> old(self).config.commit_log.takes(
                record_of(request)->0,
            ),
        ensures
            old(self).produces(
                admission(old(self).config.authorizer, *peer_certs, PRODUCE_ACTION@),
                record_of(request),
                outcome_of(result),
                final(self),
            ),
    {
        let admission = self.check_peer(peer_certs, PRODUCE_ACTION);
        self.produce_for(admission, request)
    }

    /// The record at the offset of a request, for a peer that was admitted or turned away like
    /// this.
    pub fn consume_for(
        &mut self,
        admission: Result<(), Status>,
        request: ConsumeRequest,
    ) -> (reply: Result<ConsumeResponse, Status>)
        requires
            admission is Ok ==> old(self).config.commit_log.looks_up(request.offset),
        ensures
            old(self).consumes(
                decided(admission),
                request.offset,
                consumed(reply),
                final(self),
            ),
    {
        match admission {
            Err(status) => {
                return Err(status);
            },
            Ok(()) => {},
        }
        let read = self.config.commit_log.read(request.offset);
        let ghost given = viewed(read);
        let reply = match read {
            Ok(record) => Ok(ConsumeResponse { record: Some(record) }),
            Err(_) => Err(Status::new(Code::OutOfRange, "record not found")),
        };
        assert(consumed(reply) == read_reply(given));
        reply
    }

    /// The record at the offset of a request, if the peer may read.
    pub fn consume(
        &mut self,
        peer_certs: &Option<Vec<Vec<u8>>>,
        request: ConsumeRequest,
    ) -> (reply: Result<ConsumeResponse, Status>)
        requires
            admission(old(self).config.authorizer, *peer_certs, CONSUME_ACTION@) is Ok
                ==> old(self).config.commit_log.looks_up(request.offset),
        ensures
            old(self).consumes(
                admission(old(self).config.authorizer, *peer_certs, CONSUME_ACTION@),
                request.offset,
                consumed(reply),
                final(self),
            ),
    {
        let admission = self.check_peer(peer_certs, CONSUME_ACTION);
        self.consume_for(admission, request)
    }

    /// What one turn of a stream of records does next and makes of the service.
    pub open spec fn streams(
        &self,
        peer_certs: Option<Vec<Vec<u8>>>,
        offset: u64,
        step: ConsumeStep,
        after: &Self,
    ) -> bool {
        exists|reply: Result<Option<RecordView>, StatusView>|
            #![trigger step.follows(reply)]
            self.consumes(
                admission(self.config.authorizer, peer_certs, CONSUME_ACTION@),
                offset,
                reply,
                after,
            ) && step.follows(reply)
    }

    /// One turn of a stream of records: reads the record at the offset of the request and says what
    /// to do next.
    pub fn consume_stream(
        &mut self,
        peer_certs: &Option<Vec<Vec<u8>>>,
        request: ConsumeRequest,
    ) -> (step: ConsumeStep)
        requires
            admission(old(self).config.authorizer, *peer_certs, CONSUME_ACTION@) is Ok
                ==> old(self).config.commit_log.looks_up(request.offset),
        ensures
            old(self).streams(*peer_certs, request.offset, step, final(self)),
    {
        let reply = self.consume(peer_certs, request);
        consume_step(reply)
    }

    /// What one turn of a stream of appends replies and makes of the service: for a failure, given
    /// by its text, in place of a request that text; for a request what the append gives, with a
    /// failure sent on.
    pub open spec fn answers(
        &self,
        peer_certs: Option<Vec<Vec<u8>>>,
        item: Result<ProduceRequest, String>,
        reply: Result<Result<u64, StatusView>, ErrorView>,
        after: &Self,
    ) -> bool {
        match item {
            Err(text) => {
                &&& after == self
                &&& reply == Ok::<Result<u64, StatusView>, ErrorView>(
                    Err(StatusView { code: Code::Unknown, message: text@ }),
                )
            },
            Ok(request) => exists|outcome: Result<Result<u64, StatusView>, ErrorView>|
                #![trigger sent_for(outcome)]
                self.produces(
                    admission(self.config.authorizer, peer_certs, PRODUCE_ACTION@),
                    record_of(request),
                    outcome,
                    after,
                ) && reply == sent_for(outcome),
        }
    }

    /// One turn of a stream of appends: the reply to send for the next request of the peer, or for
    /// the failure, given by its text, that came in its place. Gives the error of the log where the
    /// log fails.
    pub fn produce_stream(
        &mut self,
        peer_certs: &Option<Vec<Vec<u8>>>,
        item: Result<ProduceRequest, String>,
    ) -> (result: Result<Result<ProduceResponse, Status>, LogError>)
        requires
            item matches Ok(request) ==> (admission(
                old(self).config.authorizer,
                *peer_certs,
                PRODUCE_ACTION@,
            ) is Ok && request.record is Some ==> old(self).config.commit_log.takes(
                record_of(request)->0,
            )),
        ensures
            old(self).answers(*peer_certs, item, outcome_of(result), final(self)),
    {
        match item {
            Err(text) => Ok(Err(Status { code: Code::Unknown, message: text })),
            Ok(request) => {
                let produced = self.produce(peer_certs, request);
                let ghost outcome = outcome_of(produced);
                let result = match produced {
                    Ok(reply) => Ok(produce_step(reply)),
                    Err(error) => Err(error),
                };
                assert(outcome_of(result) == sent_for(outcome));
                result
            },
        }
    }
}

impl LogServerService<Log> {
    /// One turn of a stream of appends to a log in files; nothing where the log cannot take the
    /// record of a peer that may append.
    pub fn produce_turn(
        &mut self,
        peer_certs: &Option<Vec<Vec<u8>>>,
        item: Result<ProduceRequest, String>,
    ) -> (turn: Option<Result<Result<ProduceResponse, Status>, LogError>>)
        requires
            old(self).config.commit_log.wf(),
        ensures
            match turn {
                Some(result) => old(self).answers(
                    *peer_certs,
                    item,
                    outcome_of(result),
                    final(self),
                ),
                None => {
                    &&& *final(self) == *old(self)
                    &&& admission(old(self).config.authorizer, *peer_certs, PRODUCE_ACTION@) is Ok
                    &&& item matches Ok(request)
                    &&& request.record matches Some(record)
                    &&& !old(self).config.commit_log.takes(record@)
                },
            },
    {
        let ready: bool = match &item {
            Ok(request) => match &request.record {
                Some(record) => self.config.commit_log.is_ready(record),
                None => true,
            },
            Err(_) => true,
        };
        if !ready {
            match self.check_peer(peer_certs, PRODUCE_ACTION) {
                Ok(()) => {
                    return None;
                },
                Err(_) => {},
            }
        }
        Some(self.produce_stream(peer_certs, item))
    }

    /// One turn of a stream of records of a log in files; nothing where the log cannot be asked for
    /// the offset of a peer that may read.
    pub fn consume_turn(
        &mut self,
        peer_certs: &Option<Vec<Vec<u8>>>,
        request: ConsumeRequest,
    ) -> (turn: Option<ConsumeStep>)
        requires
            old(self).config.commit_log.wf(),
        ensures
            match turn {
                Some(step) => old(self).streams(*peer_certs, request.offset, step, final(self)),
                None => {
                    &&& *final(self) == *old(self)
                    &&& admission(old(self).config.authorizer, *peer_certs, CONSUME_ACTION@) is Ok
                    &&& !old(self).config.commit_log.looks_up(request.offset)
                },
            },
    {
        if !self.config.commit_log.is_readable(request.offset) {
            match self.check_peer(peer_certs, CONSUME_ACTION) {
                Ok(()) => {
                    return None;
                },
                Err(_) => {},
            }
        }
        Some(self.consume_stream(peer_certs, request))
    }
}

} // verus!
