//! Records, and the bytes they are stored as.
use crate::error::{ErrorView, LogError};
use crate::text::{ascii, decimal};
use vstd::prelude::*;
use vstd::slice::slice_to_vec;
use vstd::string::StringExecFns;

verus! {

/// A record of the log: what was appended, and the offset it was given.
#[derive(Debug, PartialEq, Eq)]
pub struct Record {
    pub value: Vec<u8>,
    pub offset: u64,
}

/// A record as a mathematical value.
#[verifier::ext_equal]
pub struct RecordView {
    pub value: Seq<u8>,
    pub offset: u64,
}

impl View for Record {
    type V = RecordView;

    open spec fn view(&self) -> RecordView {
        RecordView { value: self.value@, offset: self.offset }
    }
}

impl Clone for Record {
    fn clone(&self) -> (copy: Record)
        ensures
            copy@ == self@,
    {
        Record { value: slice_to_vec(self.value.as_slice()), offset: self.offset }
    }
}

/// What a call that reads a record gave.
pub open spec fn viewed(result: Result<Record, LogError>) -> Result<RecordView, ErrorView> {
    match result {
        Ok(record) => Ok(record@),
        Err(error) => Err(error@),
    }
}

/// Bytes in decimal, with commas between them.
pub open spec fn comma_separated(value: Seq<u8>) -> Seq<char>
    decreases value.len(),
{
    if value.len() == 0 {
        Seq::empty()
    } else if value.len() == 1 {
        decimal(value[0] as nat)
    } else {
        comma_separated(value.drop_last()) + ","@ + decimal(value.last() as nat)
    }
}

/// The bytes that a record is stored as: a JSON object with the value as an array of numbers and
/// the offset as a number.
pub open spec fn record_json(record: RecordView) -> Seq<u8> {
    ascii(
        "{\"value\":["@ + comma_separated(record.value) + "],\"offset\":"@ + decimal(
            record.offset as nat,
        ) + "}"@,
    )
}

/// What `serde_json` reads from `p` as an object of which two members are asked for by their names:
/// the one as an array of bytes and the other as a number, each of them if the object has it; or
/// what it says is wrong.
pub uninterp spec fn json_members(
    p: Seq<u8>,
    bytes: Seq<char>,
    number: Seq<char>,
) -> Result<(Option<Seq<u8>>, Option<u64>), Seq<char>>;

/// What `serde_json` reads from `p` as an array of two: an array of bytes and a number.
pub uninterp spec fn json_pair(p: Seq<u8>) -> Option<(Seq<u8>, u64)>;

/// What a call that reads members gave.
pub open spec fn members_view(
    result: Result<(Option<Vec<u8>>, Option<u64>), String>,
) -> Result<(Option<Seq<u8>>, Option<u64>), Seq<char>> {
    match result {
        Ok((Some(bytes), number)) => Ok((Some(bytes@), number)),
        Ok((None, number)) => Ok((None, number)),
        Err(reason) => Err(reason@),
    }
}

/// Whether both members of this record are read from `p`.
pub open spec fn reads_back(p: Seq<u8>, record: RecordView) -> bool {
    match json_members(p, "value"@, "offset"@) {
        Ok((bytes, number)) => bytes == Some(record.value) && number == Some(record.offset),
        Err(_) => false,
    }
}

/// The record that stored bytes are, or what is wrong with them: an object with its members, or an
/// array of their values.
pub open spec fn json_record(p: Seq<u8>) -> Result<RecordView, Seq<char>> {
    match json_members(p, "value"@, "offset"@) {
        Err(reason) => match json_pair(p) {
            Some((value, offset)) => Ok(RecordView { value, offset }),
            None => Err(reason),
        },
        Ok((None, _)) => Err("missing field `value`"@),
        Ok((_, None)) => Err("missing field `offset`"@),
        Ok((Some(value), Some(offset))) => Ok(RecordView { value, offset }),
    }
}

/// `serde_json::to_vec` on an object with the members `value`, an array of numbers, and `offset`,
/// a number, in this order. Such an object is always written, without blanks and with the numbers
/// in decimal; both members are read back from it as they were.
#[verifier::external_body]
pub(crate) fn encode_record(value: &Vec<u8>, offset: u64) -> (p: Vec<u8>)
    ensures
        p@ == record_json(RecordView { value: value@, offset }),
        reads_back(p@, RecordView { value: value@, offset }),
{
    let mut members = serde_json::Map::new();
    members.insert("value".to_string(), serde_json::Value::from(value.clone()));
    members.insert("offset".to_string(), serde_json::Value::from(offset));
    serde_json::to_vec(&members).unwrap()
}

/// `serde_json::from_slice` to an object, of which two members are taken by their names, with
/// `serde_json::from_value` as an array of bytes and as a `u64`, where the object has them; where
/// one of these calls fails, the text of its error. The outcome depends on the arguments alone. Of
/// members with the same name the last one counts.
#[verifier::external_body]
fn parse_members(p: &[u8], bytes: &str, number: &str) -> (result: Result<
    (Option<Vec<u8>>, Option<u64>),
    String,
>)
    ensures
        json_members(p@, bytes@, number@) == members_view(result),
{
    let read = || -> serde_json::Result<(Option<Vec<u8>>, Option<u64>)> {
        let mut members: serde_json::Map<String, serde_json::Value> = serde_json::from_slice(p)?;
        let bytes = members.remove(bytes).map(serde_json::from_value).transpose()?;
        let number = members.remove(number).map(serde_json::from_value).transpose()?;
        Ok((bytes, number))
    };
    read().map_err(|error| error.to_string())
}

/// `serde_json::from_slice` to a pair of an array of bytes and a `u64`. The outcome depends on the
/// bytes of `p` alone.
#[verifier::external_body]
fn parse_pair(p: &[u8]) -> (pair: Option<(Vec<u8>, u64)>)
    ensures
        match pair {
            Some((bytes, number)) => json_pair(p@) == Some((bytes@, number)),
            None => json_pair(p@) is None,
        },
{
    serde_json::from_slice(p).ok()
}

/// The record that stored bytes are, or what is wrong with them.
pub fn decode_record(p: &[u8]) -> (result: Result<Record, String>)
    ensures
        match result {
            Ok(record) => json_record(p@) == Ok::<RecordView, Seq<char>>(record@),
            Err(reason) => json_record(p@) == Err::<RecordView, Seq<char>>(reason@),
        },
{
    match parse_members(p, "value", "offset") {
        Err(reason) => match parse_pair(p) {
            Some((value, offset)) => Ok(Record { value, offset }),
            None => Err(reason),
        },
        Ok((None, _)) => Err(String::from_str("missing field `value`")),
        Ok((_, None)) => Err(String::from_str("missing field `offset`")),
        Ok((Some(value), Some(offset))) => Ok(Record { value, offset }),
    }
}

/// What is read of a record that was found is its value and its offset.
pub proof fn read_record_is_itself(record: Record)
    ensures
        viewed(Ok(record)) == Ok::<RecordView, ErrorView>(
            RecordView { value: record.value@, offset: record.offset },
        ),
{
}

/// An object with both members is the record with that value and that offset, and nothing else is
/// a record but an array of the two.
pub proof fn members_make_a_record(p: Seq<u8>, value: Seq<u8>, offset: u64)
    ensures
        json_members(p, "value"@, "offset"@) == Ok::<(Option<Seq<u8>>, Option<u64>), Seq<char>>(
            (Some(value), Some(offset)),
        ) ==> json_record(p) == Ok::<RecordView, Seq<char>>(RecordView { value, offset }),
        json_members(p, "value"@, "offset"@) is Ok && (json_members(
            p,
            "value"@,
            "offset"@,
        )->Ok_0.0 is None || json_members(p, "value"@, "offset"@)->Ok_0.1 is None)
            ==> json_record(p) is Err,
        json_members(p, "value"@, "offset"@) is Ok && json_members(
            p,
            "value"@,
            "offset"@,
        )->Ok_0.0 is None ==> json_record(p) == Err::<RecordView, Seq<char>>(
            "missing field `value`"@,
        ),
        json_members(p, "value"@, "offset"@) is Ok && json_members(
            p,
            "value"@,
            "offset"@,
        )->Ok_0.0 is Some && json_members(p, "value"@, "offset"@)->Ok_0.1 is None ==> json_record(p)
            == Err::<RecordView, Seq<char>>("missing field `offset`"@),
        json_members(p, "value"@, "offset"@) matches Err(reason) ==> (json_pair(p) is None
            ==> json_record(p) == Err::<RecordView, Seq<char>>(reason)),
        json_members(p, "value"@, "offset"@) is Err && json_pair(p) == Some((value, offset))
            ==> json_record(p) == Ok::<RecordView, Seq<char>>(RecordView { value, offset }),
{
}

} // verus!
