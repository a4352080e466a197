//! What holds of the service on a log.
use crate::auth::authorizer::{decided, policy_outcome, Access, Authorizer};
use crate::error::{ErrorView, LogError};
use crate::log::laws::{
    log_append_reads_back, log_append_succeeds_while_the_index_lasts, log_stores_its_offsets,
    log_takes_records,
};
use crate::log::Log;
use crate::record::{Record, RecordView};
use crate::server::certificate::{common_names, subject_name};
use crate::server::commit::CommitLog;
use crate::server::status::{status_text, Code, Status, StatusView};
use crate::server::{
    admission, certificates, consumed, invalid_record, is_good, outcome_of, record_not_found,
    record_of, sent_for, ConsumeResponse, ConsumeStep, LogServerService, ProduceRequest,
    ProduceResponse, CONSUME_ACTION, PRODUCE_ACTION,
};
use vstd::prelude::*;

verus! {

/// An append that is answered with a failure changes nothing. The answer is the one that turned the
/// peer away or, for a peer that was admitted, says that the request has no record.
pub proof fn refused_append_changes_nothing<L: CommitLog>(
    before: LogServerService<L>,
    admission: Result<(), StatusView>,
    record: Option<RecordView>,
    status: StatusView,
    after: LogServerService<L>,
)
    requires
        before.produces(admission, record, Ok(Err(status)), &after),
    ensures
        after == before,
        admission matches Err(refusal) ==> status == refusal,
        admission is Ok ==> record is None && status == invalid_record(),
{
}

/// A read of a peer that is turned away changes nothing and is answered with the reason.
pub proof fn refused_read_changes_nothing<L: CommitLog>(
    before: LogServerService<L>,
    refusal: StatusView,
    offset: u64,
    reply: Result<Option<RecordView>, StatusView>,
    after: LogServerService<L>,
)
    requires
        before.consumes(Err(refusal), offset, reply, &after),
    ensures
        after == before,
        reply == Err::<Option<RecordView>, StatusView>(refusal),
{
}

/// What an admitted peer appends to a consistent log it reads back, under the offset in the reply.
/// The offset after that one has no record yet.
pub proof fn produced_record_is_consumed(
    before: LogServerService<Log>,
    record: RecordView,
    offset: u64,
    after: LogServerService<Log>,
    reply: Result<Option<RecordView>, StatusView>,
    past: Result<Option<RecordView>, StatusView>,
    last: LogServerService<Log>,
)
    requires
        before.config.commit_log.consistent(),
        before.config.commit_log.takes(record),
        before.config.commit_log.segments@.last().next_offset
            - before.config.commit_log.segments@.last().base_offset < 0x1_0000_0000,
        offset < u64::MAX,
        before.produces(Ok(()), Some(record), Ok(Ok(offset)), &after),
        after.consumes(Ok(()), offset, reply, &last),
        after.consumes(Ok(()), (offset + 1) as u64, past, &last),
    ensures
        offset == before.config.commit_log.end(),
        reply == Ok::<Option<RecordView>, StatusView>(
            Some(RecordView { value: record.value, offset }),
        ),
        past == Err::<Option<RecordView>, StatusView>(record_not_found()),
        last == after,
        after.config.commit_log.consistent(),
{
    let log = after.config.commit_log;
    log_append_reads_back(before.config.commit_log, record.value, offset, log);
    log_stores_its_offsets(log, (offset + 1) as u64);
}

/// A turn of a stream on a consistent log sends the record at the offset that is asked for, where
/// the log has it, and asks again where it does not.
pub proof fn stream_sends_offset(
    before: LogServerService<Log>,
    offset: u64,
    reply: Result<Option<RecordView>, StatusView>,
    step: ConsumeStep,
    after: LogServerService<Log>,
)
    requires
        before.config.commit_log.consistent(),
        before.consumes(Ok(()), offset, reply, &after),
        step.follows(reply),
    ensures
        after == before,
        before.config.commit_log.segments@[0].base_offset <= offset
            < before.config.commit_log.end() ==> {
            &&& step matches ConsumeStep::Send(response)
            &&& response.record matches Some(record)
            &&& record@.offset == offset
            &&& before.config.commit_log.stored(offset) == Ok::<RecordView, ErrorView>(record@)
        },
        !(before.config.commit_log.segments@[0].base_offset <= offset
            < before.config.commit_log.end()) ==> step is Retry,
{
    log_stores_its_offsets(before.config.commit_log, offset);
}

/// A peer that is turned away is answered once, with a failure of unknown kind, whatever offset it
/// asks for; the stream ends, and nothing changes.
pub proof fn stream_turns_away<L: CommitLog>(
    before: LogServerService<L>,
    peer_certs: Option<Vec<Vec<u8>>>,
    offset: u64,
    step: ConsumeStep,
    after: LogServerService<L>,
)
    requires
        admission(before.config.authorizer, peer_certs, CONSUME_ACTION@) is Err,
        before.streams(peer_certs, offset, step, &after),
    ensures
        after == before,
        step matches ConsumeStep::Stop(status) && status.code == Code::Unknown,
{
}

/// Whether these can be the turns of a stream that begins at `offset`, while nothing else happens
/// to the service and the peer takes all that is sent.
pub open spec fn are_turns(
    service: LogServerService<Log>,
    peer_certs: Option<Vec<Vec<u8>>>,
    offset: u64,
    steps: Seq<ConsumeStep>,
) -> bool {
    forall|i: int|
        0 <= i < steps.len() ==> service.streams(
            peer_certs,
            (offset + i) as u64,
            #[trigger] steps[i],
            &service,
        )
}

/// A stream on a consistent log sends its records to a peer that may read one by one, in the order
/// of their offsets.
pub proof fn stream_is_in_order(
    service: LogServerService<Log>,
    peer_certs: Option<Vec<Vec<u8>>>,
    offset: u64,
    steps: Seq<ConsumeStep>,
)
    requires
        service.config.commit_log.consistent(),
        admission(service.config.authorizer, peer_certs, CONSUME_ACTION@) is Ok,
        service.config.commit_log.segments@[0].base_offset <= offset,
        offset + steps.len() <= service.config.commit_log.end(),
        are_turns(service, peer_certs, offset, steps),
    ensures
        forall|i: int|
            0 <= i < steps.len() ==> {
                &&& (#[trigger] steps[i]) matches ConsumeStep::Send(response)
                &&& response.record matches Some(record)
                &&& record@.offset == offset + i
                &&& service.config.commit_log.stored((offset + i) as u64) == Ok::<
                    RecordView,
                    ErrorView,
                >(record@)
            },
{
    assert forall|i: int| 0 <= i < steps.len() implies {
        &&& (#[trigger] steps[i]) matches ConsumeStep::Send(response)
        &&& response.record matches Some(record)
        &&& record@.offset == offset + i
        &&& service.config.commit_log.stored((offset + i) as u64) == Ok::<
            RecordView,
            ErrorView,
        >(record@)
    } by {
        let o = (offset + i) as u64;
        assert(service.streams(peer_certs, o, steps[i], &service));
        let reply = choose|reply: Result<Option<RecordView>, StatusView>|
            #![trigger steps[i].follows(reply)]
            service.consumes(
                admission(service.config.authorizer, peer_certs, CONSUME_ACTION@),
                o,
                reply,
                &service,
            ) && steps[i].follows(reply);
        assert(admission(service.config.authorizer, peer_certs, CONSUME_ACTION@) == Ok::<
            (),
            StatusView,
        >(()));
        stream_sends_offset(service, o, reply, steps[i], service);
    }
}

/// Whether these are the states of a service, from before the first to behind the last, and the
/// replies, while it answers these items of a stream of appends one by one.
pub open spec fn are_answers<L: CommitLog>(
    states: Seq<LogServerService<L>>,
    peer_certs: Option<Vec<Vec<u8>>>,
    items: Seq<Result<ProduceRequest, String>>,
    replies: Seq<Result<Result<u64, StatusView>, ErrorView>>,
) -> bool {
    &&& states.len() == items.len() + 1
    &&& replies.len() == items.len()
    &&& forall|i: int|
        #![trigger items[i]]
        0 <= i < items.len() ==> states[i].answers(
            peer_certs,
            items[i],
            replies[i],
            &states[i + 1],
        )
}

/// A stream of appends to a log that does not fail has as many replies as items, in their order.
/// Each is that of its item: the offset where the append of the request gives one, and a failure of
/// unknown kind where it is refused, or where a failure came in place of the request.
pub proof fn every_item_is_answered<L: CommitLog>(
    states: Seq<LogServerService<L>>,
    peer_certs: Option<Vec<Vec<u8>>>,
    items: Seq<Result<ProduceRequest, String>>,
    replies: Seq<Result<Result<u64, StatusView>, ErrorView>>,
)
    requires
        are_answers(states, peer_certs, items, replies),
        forall|i: int| 0 <= i < replies.len() ==> (#[trigger] replies[i]) is Ok,
    ensures
        replies.len() == items.len(),
        forall|i: int|
            #![trigger replies[i]]
            0 <= i < items.len() ==> match items[i] {
                Err(text) => {
                    &&& states[i + 1] == states[i]
                    &&& replies[i] == Ok::<Result<u64, StatusView>, ErrorView>(
                        Err(StatusView { code: Code::Unknown, message: text@ }),
                    )
                },
                Ok(request) => exists|outcome: Result<u64, StatusView>|
                    #![trigger sent_for(Ok(outcome))]
                    states[i].produces(
                        admission(states[i].config.authorizer, peer_certs, PRODUCE_ACTION@),
                        record_of(request),
                        Ok(outcome),
                        &states[i + 1],
                    ) && match outcome {
                        Ok(offset) => replies[i] == Ok::<Result<u64, StatusView>, ErrorView>(
                            Ok(offset),
                        ),
                        Err(_) => replies[i]->Ok_0 is Err && replies[i]->Ok_0->Err_0.code
                            == Code::Unknown,
                    },
            },
{
    assert forall|i: int| #![trigger replies[i]] 0 <= i < items.len() implies match items[i] {
        Err(text) => {
            &&& states[i + 1] == states[i]
            &&& replies[i] == Ok::<Result<u64, StatusView>, ErrorView>(
                Err(StatusView { code: Code::Unknown, message: text@ }),
            )
        },
        Ok(request) => exists|outcome: Result<u64, StatusView>|
            #![trigger sent_for(Ok(outcome))]
            states[i].produces(
                admission(states[i].config.authorizer, peer_certs, PRODUCE_ACTION@),
                record_of(request),
                Ok(outcome),
                &states[i + 1],
            ) && match outcome {
                Ok(offset) => replies[i] == Ok::<Result<u64, StatusView>, ErrorView>(Ok(offset)),
                Err(_) => replies[i]->Ok_0 is Err && replies[i]->Ok_0->Err_0.code == Code::Unknown,
            },
    } by {
        assert(states[i].answers(peer_certs, items[i], replies[i], &states[i + 1]));
        assert(replies[i] is Ok);
        match items[i] {
            Err(_) => {},
            Ok(request) => {
                let outcome = choose|outcome: Result<Result<u64, StatusView>, ErrorView>|
                    #![trigger sent_for(outcome)]
                    states[i].produces(
                        admission(states[i].config.authorizer, peer_certs, PRODUCE_ACTION@),
                        record_of(request),
                        outcome,
                        &states[i + 1],
                    ) && replies[i] == sent_for(outcome);
                assert(outcome == Ok::<Result<u64, StatusView>, ErrorView>(outcome->Ok_0));
                assert(sent_for(Ok(outcome->Ok_0)) == replies[i]);
            },
        }
    }
}

/// The records that a peer that may append sends to a consistent log are given the offsets from the
/// end of the log on, one by one, and each of them is stored under its offset.
pub proof fn appends_are_in_order(
    states: Seq<LogServerService<Log>>,
    peer_certs: Option<Vec<Vec<u8>>>,
    items: Seq<Result<ProduceRequest, String>>,
    replies: Seq<Result<Result<u64, StatusView>, ErrorView>>,
    n: int,
)
    requires
        are_answers(states, peer_certs, items, replies),
        0 <= n <= items.len(),
        states[0].config.commit_log.consistent(),
        admission(states[0].config.authorizer, peer_certs, PRODUCE_ACTION@) is Ok,
        forall|i: int|
            #![trigger items[i]]
            0 <= i < items.len() ==> {
                &&& items[i] matches Ok(request)
                &&& record_of(request) matches Some(record)
                &&& states[i].config.commit_log.takes(record)
                &&& states[i].config.commit_log.segments@.last().next_offset
                    - states[i].config.commit_log.segments@.last().base_offset < 0x1_0000_0000
                &&& replies[i] is Ok
            },
    ensures
        states[n].config.commit_log.consistent(),
        states[n].config.authorizer == states[0].config.authorizer,
        states[n].config.commit_log.end() == states[0].config.commit_log.end() + n,
        forall|i: int|
            #![trigger replies[i]]
            0 <= i < n ==> {
                let offset = (states[0].config.commit_log.end() + i) as u64;
                &&& replies[i] == Ok::<Result<u64, StatusView>, ErrorView>(Ok(offset))
                &&& states[n].config.commit_log.stored(offset) == Ok::<RecordView, ErrorView>(
                    RecordView { value: record_of(items[i]->Ok_0)->0.value, offset },
                )
            },
    decreases n,
{
    if n > 0 {
        let m = n - 1;
        appends_are_in_order(states, peer_certs, items, replies, m);
        let before = states[m].config.commit_log;
        let after = states[n].config.commit_log;
        let request = items[m]->Ok_0;
        let record = record_of(request)->0;
        assert(states[m].answers(peer_certs, items[m], replies[m], &states[m + 1]));
        let admitted = admission(states[m].config.authorizer, peer_certs, PRODUCE_ACTION@);
        let outcome = choose|outcome: Result<Result<u64, StatusView>, ErrorView>|
            #![trigger sent_for(outcome)]
            states[m].produces(admitted, record_of(request), outcome, &states[m + 1])
                && replies[m] == sent_for(outcome);
        let offset = outcome->Ok_0->Ok_0;
        assert(outcome == Ok::<Result<u64, StatusView>, ErrorView>(Ok(offset)));
        log_append_reads_back(before, record.value, offset, after);
        assert forall|i: int| #![trigger replies[i]] 0 <= i < n implies {
            let o = (states[0].config.commit_log.end() + i) as u64;
            &&& replies[i] == Ok::<Result<u64, StatusView>, ErrorView>(Ok(o))
            &&& after.stored(o) == Ok::<RecordView, ErrorView>(
                RecordView { value: record_of(items[i]->Ok_0)->0.value, offset: o },
            )
        } by {
            if i < m {
                let o = (states[0].config.commit_log.end() + i) as u64;
                assert(replies[i] == Ok::<Result<u64, StatusView>, ErrorView>(Ok(o)));
                assert(after.stored(o) == before.stored(o));
            }
        }
    }
}

/// A peer is admitted exactly where the first common name of one of its certificates can be read
/// and the policy grants that subject the action on all objects. A peer without certificates is
/// turned away as such, and any other one as not authenticated.
pub proof fn peer_is_admitted_by_a_granted_name(
    authorizer: Authorizer,
    certs: Vec<Vec<u8>>,
    action: Seq<char>,
)
    ensures
        admission(authorizer, Some(certs), action) is Ok <==> exists|
            i: int,
            names: Seq<Option<Seq<char>>>,
            subject: Seq<char>,
        |
            #![trigger certs@[i], named_first(names, subject)]
            0 <= i < certs@.len() && common_names(certs@[i]@) == Some(names) && named_first(
                names,
                subject,
            ) && policy_outcome(
                authorizer.model(),
                authorizer.policy(),
                Access { subject, object: "*"@, action },
            ) == Some(true),
        admission(authorizer, Some(certs), action) matches Err(status) ==> status.code
            == Code::Unauthenticated && status.message == "certificate authentication failed"@,
        admission(authorizer, None, action) matches Err(status) && status.code
            == Code::Unauthenticated && status.message == "No certificate provided"@,
{
    let shown = certificates(certs@);
    if admission(authorizer, Some(certs), action) is Ok {
        let i = choose|i: int|
            0 <= i < shown.len() && is_good(authorizer, #[trigger] shown[i], "*"@, action);
        assert(shown[i] == certs@[i]@);
        let names = common_names(certs@[i]@)->0;
        let subject = subject_name(certs@[i]@)->0;
        assert(named_first(names, subject));
    }
    if exists|i: int, names: Seq<Option<Seq<char>>>, subject: Seq<char>|
        #![trigger certs@[i], named_first(names, subject)]
        0 <= i < certs@.len() && common_names(certs@[i]@) == Some(names) && named_first(
            names,
            subject,
        ) && policy_outcome(
            authorizer.model(),
            authorizer.policy(),
            Access { subject, object: "*"@, action },
        ) == Some(true) {
        let (i, names, subject) = choose|
            i: int,
            names: Seq<Option<Seq<char>>>,
            subject: Seq<char>,
        |
            #![trigger certs@[i], named_first(names, subject)]
            0 <= i < certs@.len() && common_names(certs@[i]@) == Some(names) && named_first(
                names,
                subject,
            ) && policy_outcome(
                authorizer.model(),
                authorizer.policy(),
                Access { subject, object: "*"@, action },
            ) == Some(true);
        assert(shown[i] == certs@[i]@);
        assert(is_good(authorizer, shown[i], "*"@, action));
    }
}

/// Whether the first of these names is this one.
pub open spec fn named_first(names: Seq<Option<Seq<char>>>, subject: Seq<char>) -> bool {
    names.len() > 0 && names[0] == Some(subject)
}

/// A certificate is good for a request exactly where its subject is granted that action on that
/// object.
pub proof fn good_certificate_is_granted(
    authorizer: Authorizer,
    cert: Seq<u8>,
    subject: Seq<char>,
    object: Seq<char>,
    action: Seq<char>,
)
    requires
        common_names(cert) is Some,
        named_first(common_names(cert)->0, subject),
    ensures
        is_good(authorizer, cert, object, action) <==> policy_outcome(
            authorizer.model(),
            authorizer.policy(),
            Access { subject, object, action },
        ) == Some(true),
{
}

/// A peer that is turned away is answered with the failure that turned it away, and nothing
/// changes, whatever it sends.
pub proof fn refusal_is_answered<L: CommitLog>(
    before: LogServerService<L>,
    refusal: Status,
    request: ProduceRequest,
    result: Result<Result<ProduceResponse, Status>, LogError>,
    offset: u64,
    reply: Result<ConsumeResponse, Status>,
    after: LogServerService<L>,
)
    ensures
        before.produces(decided(Err(refusal)), record_of(request), outcome_of(result), &after) ==> {
            &&& after == before
            &&& result matches Ok(Err(status))
            &&& status.code == refusal.code
            &&& status.message@ == refusal.message@
        },
        before.consumes(decided(Err(refusal)), offset, consumed(reply), &after) ==> {
            &&& after == before
            &&& reply matches Err(status)
            &&& status.code == refusal.code
            &&& status.message@ == refusal.message@
        },
{
}

/// An admitted request without a record is answered as an invalid argument, and nothing changes.
pub proof fn request_without_a_record_is_invalid<L: CommitLog>(
    before: LogServerService<L>,
    request: ProduceRequest,
    result: Result<Result<ProduceResponse, Status>, LogError>,
    after: LogServerService<L>,
)
    requires
        request.record is None,
        before.produces(Ok(()), record_of(request), outcome_of(result), &after),
    ensures
        after == before,
        result matches Ok(Err(status)) && status.code == Code::InvalidArgument && status.message@
            == "Invalid record provided"@,
{
}

/// The reply to an admitted append holds the offset that the log gave, and there is none where the
/// log failed: then its error is given.
pub proof fn reply_holds_the_offset_of_the_log<L: CommitLog>(
    before: LogServerService<L>,
    record: Record,
    result: Result<Result<ProduceResponse, Status>, LogError>,
    after: LogServerService<L>,
)
    requires
        before.produces(
            Ok(()),
            record_of(ProduceRequest { record: Some(record) }),
            outcome_of(result),
            &after,
        ),
    ensures
        match result {
            Ok(Ok(response)) => before.config.commit_log.appends(
                RecordView { value: record.value@, offset: record.offset },
                Ok(response.offset),
                &after.config.commit_log,
            ),
            Ok(Err(_)) => false,
            Err(error) => before.config.commit_log.appends(
                RecordView { value: record.value@, offset: record.offset },
                Err(error@),
                &after.config.commit_log,
            ),
        },
        after.config.authorizer == before.config.authorizer,
{
}

/// The reply to an admitted read of a log in files is the record that the log stores at the offset,
/// and else that there is none; the log stays as it is.
pub proof fn reply_holds_the_stored_record(
    before: LogServerService<Log>,
    offset: u64,
    reply: Result<ConsumeResponse, Status>,
    after: LogServerService<Log>,
)
    requires
        before.consumes(Ok(()), offset, consumed(reply), &after),
    ensures
        after == before,
        match reply {
            Ok(response) => {
                &&& response.record matches Some(record)
                &&& before.config.commit_log.stored(offset) == Ok::<RecordView, ErrorView>(
                    RecordView { value: record.value@, offset: record.offset },
                )
            },
            Err(status) => {
                &&& before.config.commit_log.stored(offset) is Err
                &&& status.code == Code::OutOfRange
                &&& status.message@ == "record not found"@
            },
        },
{
}

/// What an admitted peer appends to a consistent log, where the index has the room, is answered
/// with the offset after the last one, and a read of that offset is answered with that record.
pub proof fn appended_record_is_read_back(
    before: LogServerService<Log>,
    record: Record,
    result: Result<Result<ProduceResponse, Status>, LogError>,
    after: LogServerService<Log>,
    reply: Result<ConsumeResponse, Status>,
    last: LogServerService<Log>,
)
    requires
        before.config.commit_log.consistent(),
        before.config.commit_log.end() < u64::MAX,
        12 * (before.config.commit_log.end()
            - before.config.commit_log.segments@.last().base_offset) + 12
            <= before.config.commit_log.config.segment.max_index_bytes,
        before.config.commit_log.segments@.last().next_offset
            - before.config.commit_log.segments@.last().base_offset < 0x1_0000_0000,
        before.produces(
            Ok(()),
            record_of(ProduceRequest { record: Some(record) }),
            outcome_of(result),
            &after,
        ),
        after.consumes(
            Ok(()),
            before.config.commit_log.segments@.last().next_offset,
            consumed(reply),
            &last,
        ),
    ensures
        result matches Ok(Ok(response)) && response.offset
            == before.config.commit_log.segments@.last().next_offset,
        reply matches Ok(response) && (response.record matches Some(read) && read.value@
            == record.value@ && read.offset
            == before.config.commit_log.segments@.last().next_offset),
{
    let log = before.config.commit_log;
    let then = after.config.commit_log;
    reply_holds_the_offset_of_the_log(before, record, result, after);
    log_takes_records(log, record.value@);
    let given = match result {
        Ok(Ok(response)) => Ok(response.offset),
        Ok(Err(_)) => Ok(0u64),
        Err(error) => Err(error@),
    };
    log_append_succeeds_while_the_index_lasts(log, record.value@, given, then);
    log_append_reads_back(log, record.value@, log.end(), then);
    reply_holds_the_stored_record(after, log.end(), reply, last);
}

/// What follows in a stream on the reply to a read depends on the reply alone. A record is sent on
/// as it is; that there is none is asked again, and only that; any other failure ends the stream,
/// with its number and its message in the text of one of unknown kind.
pub proof fn step_goes_by_the_reply(reply: Result<ConsumeResponse, Status>, step: ConsumeStep)
    requires
        step.follows(consumed(reply)),
    ensures
        step is Send <==> reply is Ok,
        step is Retry <==> (reply matches Err(status) && status.code is OutOfRange),
        step matches ConsumeStep::Send(sent) ==> (reply matches Ok(response) && match (
            sent.record,
            response.record,
        ) {
            (Some(a), Some(b)) => a.value@ == b.value@ && a.offset == b.offset,
            (None, None) => true,
            _ => false,
        }),
        step matches ConsumeStep::Stop(stop) ==> (reply matches Err(status) && stop.code is Unknown
            && stop.message@ == status_text(
            match status.code {
                Code::Unknown => 2,
                Code::InvalidArgument => 3,
                Code::PermissionDenied => 7,
                Code::OutOfRange => 11,
                Code::Unauthenticated => 16,
            },
            status.message@,
        )),
{
}

/// A stream of appends sends an offset as it is, and for a failure one of unknown kind with the
/// number and the message of the other in its text.
pub proof fn sent_reply_goes_by_the_reply(
    reply: Result<ProduceResponse, Status>,
    sent: Result<ProduceResponse, Status>,
)
    requires
        outcome_of(Ok(sent)) == sent_for(outcome_of(Ok(reply))),
    ensures
        sent is Ok <==> reply is Ok,
        sent matches Ok(response) ==> response == reply->Ok_0,
        sent matches Err(status) ==> (reply matches Err(other) && status.code is Unknown
            && status.message@ == status_text(
            match other.code {
                Code::Unknown => 2,
                Code::InvalidArgument => 3,
                Code::PermissionDenied => 7,
                Code::OutOfRange => 11,
                Code::Unauthenticated => 16,
            },
            other.message@,
        )),
{
}

/// A turn of a stream of records sends the record that the log stores at the offset, asks again
/// where the log has none, and ends with a failure of unknown kind for a peer that is turned away.
pub proof fn turn_sends_the_stored_record(
    before: LogServerService<Log>,
    peer_certs: Option<Vec<Vec<u8>>>,
    offset: u64,
    step: ConsumeStep,
    after: LogServerService<Log>,
)
    requires
        before.streams(peer_certs, offset, step, &after),
    ensures
        after == before,
        match step {
            ConsumeStep::Send(response) => {
                &&& admission(before.config.authorizer, peer_certs, "consume"@) is Ok
                &&& response.record matches Some(record)
                &&& before.config.commit_log.stored(offset) == Ok::<RecordView, ErrorView>(
                    RecordView { value: record.value@, offset: record.offset },
                )
            },
            ConsumeStep::Retry => {
                &&& admission(before.config.authorizer, peer_certs, "consume"@) is Ok
                &&& before.config.commit_log.stored(offset) is Err
            },
            ConsumeStep::Stop(status) => {
                &&& admission(before.config.authorizer, peer_certs, "consume"@) matches Err(
                    refusal,
                )
                &&& status.code == Code::Unknown
                &&& status.message@ == status_text(16, refusal.message)
            },
        },
{
}

/// A turn of a stream of appends replies to a failure in place of a request with its text, and to a
/// request of a peer that is turned away with the text of that; both change nothing. To one that is
/// admitted it replies with the offset that the log gives.
pub proof fn turn_replies_to_its_item(
    before: LogServerService<Log>,
    peer_certs: Option<Vec<Vec<u8>>>,
    item: Result<ProduceRequest, String>,
    result: Result<Result<ProduceResponse, Status>, LogError>,
    after: LogServerService<Log>,
)
    requires
        before.answers(peer_certs, item, outcome_of(result), &after),
    ensures
        item matches Err(text) ==> {
            &&& after == before
            &&& result matches Ok(Err(status))
            &&& status.code == Code::Unknown
            &&& status.message@ == text@
        },
        item is Ok && admission(before.config.authorizer, peer_certs, "produce"@) is Err ==> {
            &&& after == before
            &&& result matches Ok(Err(status))
            &&& status.code == Code::Unknown
            &&& status.message@ == status_text(
                16,
                admission(before.config.authorizer, peer_certs, "produce"@)->Err_0.message,
            )
        },
        item is Ok && admission(before.config.authorizer, peer_certs, "produce"@) is Ok ==> {
            match item->Ok_0.record {
                None => {
                    &&& after == before
                    &&& result matches Ok(Err(status))
                    &&& status.code == Code::Unknown
                    &&& status.message@ == status_text(3, "Invalid record provided"@)
                },
                Some(record) => match result {
                    Ok(Ok(response)) => before.config.commit_log.appended(
                        record.value@,
                        Ok(response.offset),
                        &after.config.commit_log,
                    ),
                    Ok(Err(_)) => false,
                    Err(error) => before.config.commit_log.appended(
                        record.value@,
                        Err(error@),
                        &after.config.commit_log,
                    ),
                },
            }
        },
{
}

} // verus!
