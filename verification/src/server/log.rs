//! A log in memory.
use crate::record::{Record, RecordView};
use crate::text::{decimal, push_decimal};
use base64::engine::general_purpose;
use base64::{DecodeError, Engine};
use vstd::prelude::*;
use vstd::string::StringExecFns;

verus! {

/// A log in memory.
pub struct Log {
    pub records: Vec<Record>,
}

/// There is no record at the offset that was asked for.
#[derive(Debug, Clone, Copy, PartialEq, Eq, Structural)]
pub struct OffsetNotFound;

impl OffsetNotFound {
    /// Says in words what went wrong.
    pub fn to_string(&self) -> (text: String)
        ensures
            text@ == "offset not found"@,
    {
        String::from_str("offset not found")
    }
}

impl View for Log {
    type V = Seq<RecordView>;

    open spec fn view(&self) -> Seq<RecordView> {
        Seq::new(self.records@.len(), |i: int| self.records@[i]@)
    }
}

impl Default for Log {
    fn default() -> (log: Log)
        ensures
            log@ == Seq::<RecordView>::empty(),
    {
        let log = Log { records: Vec::new() };
        assert(log@ =~= Seq::<RecordView>::empty());
        log
    }
}

/// What a read of the log at `offset` gives.
pub open spec fn found(records: Seq<RecordView>, offset: u64) -> Result<
    RecordView,
    OffsetNotFound,
> {
    if offset < records.len() {
        Ok(records[offset as int])
    } else {
        Err(OffsetNotFound)
    }
}

impl Log {
    /// Adds a record at the end, and gives the offset that it is stored under.
    pub fn append(&mut self, record: Record) -> (offset: u64)
        ensures
            offset == old(self)@.len(),
            offset == old(self).records@.len(),
            final(self).records@.len() == old(self).records@.len() + 1,
            final(self).records@.last().value@ == record.value@,
            final(self).records@.last().offset == offset,
            forall|i: int|
                0 <= i < offset ==> #[trigger] final(self).records@[i] == old(self).records@[i],
            final(self)@ == old(self)@.push(RecordView { value: record.value@, offset }),
    {
        let offset: u64 = self.records.len() as u64;
        let mut record = record;
        record.offset = offset;
        self.records.push(record);
        assert(self@ =~= old(self)@.push(record@));
        offset
    }

    /// The record at `offset`.
    pub fn read(&self, offset: u64) -> (result: Result<Record, OffsetNotFound>)
        ensures
            match result {
                Ok(record) => found(self@, offset) == Ok::<RecordView, OffsetNotFound>(record@),
                Err(error) => found(self@, offset) == Err::<RecordView, OffsetNotFound>(error),
            },
            result is Ok <==> offset < self.records@.len(),
            result matches Ok(record) ==> record.value@ == self.records@[offset as int].value@
                && record.offset == self.records@[offset as int].offset,
    {
        let n: usize = self.records.len();
        if offset >= n as u64 {
            return Err(OffsetNotFound);
        }
        Ok(self.records[offset as usize].clone())
    }
}

/// Every record of a log has the offset at which it stands.
pub open spec fn numbered(records: Seq<RecordView>) -> bool {
    forall|i: int| 0 <= i < records.len() ==> (#[trigger] records[i]).offset == i
}

/// A record that is added is read back under its offset, those before it stay, and all of them keep
/// the offsets at which they stand.
pub proof fn added_record_is_found(before: Seq<RecordView>, value: Seq<u8>, offset: u64)
    requires
        offset == before.len(),
    ensures
        found(before.push(RecordView { value, offset }), offset) == Ok::<
            RecordView,
            OffsetNotFound,
        >(RecordView { value, offset }),
        forall|o: u64|
            o < offset ==> #[trigger] found(before.push(RecordView { value, offset }), o) == found(
                before,
                o,
            ),
        numbered(before) ==> numbered(before.push(RecordView { value, offset })),
{
}

/// Why a text is not the base64 form of any bytes.
#[derive(Debug, Clone, Copy, PartialEq, Eq, Structural)]
pub enum Base64Error {
    /// There is a byte that cannot stand at its place.
    InvalidByte(usize, u8),
    /// There are too few or too many symbols.
    InvalidLength(usize),
    /// The last symbol has bits that belong to no byte.
    InvalidLastSymbol(usize, u8),
    /// The padding is missing or wrong.
    InvalidPadding,
}

impl Base64Error {
    /// The text of the error.
    pub open spec fn text(self) -> Seq<char> {
        match self {
            Base64Error::InvalidByte(at, byte) => "Invalid symbol "@ + decimal(byte as nat)
                + ", offset "@ + decimal(at as nat) + "."@,
            Base64Error::InvalidLength(len) => "Invalid input length: "@ + decimal(len as nat),
            Base64Error::InvalidLastSymbol(at, byte) => "Invalid last symbol "@ + decimal(
                byte as nat,
            ) + ", offset "@ + decimal(at as nat) + "."@,
            Base64Error::InvalidPadding => "Invalid padding"@,
        }
    }

    /// Says in words what went wrong.
    pub fn to_string(&self) -> (text: String)
        ensures
            text@ == self.text(),
    {
        match self {
            Base64Error::InvalidByte(at, byte) => {
                let mut text = String::from_str("Invalid symbol ");
                push_decimal(&mut text, *byte as u64);
                text.append(", offset ");
                push_decimal(&mut text, *at as u64);
                text.append(".");
                text
            },
            Base64Error::InvalidLength(len) => {
                let mut text = String::from_str("Invalid input length: ");
                push_decimal(&mut text, *len as u64);
                text
            },
            Base64Error::InvalidLastSymbol(at, byte) => {
                let mut text = String::from_str("Invalid last symbol ");
                push_decimal(&mut text, *byte as u64);
                text.append(", offset ");
                push_decimal(&mut text, *at as u64);
                text.append(".");
                text
            },
            Base64Error::InvalidPadding => String::from_str("Invalid padding"),
        }
    }
}

/// The symbol for six bits.
pub open spec fn symbol(n: int) -> char {
    if n < 26 {
        (65 + n) as char
    } else if n < 52 {
        (97 + n - 26) as char
    } else if n < 62 {
        (48 + n - 52) as char
    } else if n == 62 {
        '+'
    } else {
        '/'
    }
}

/// Bytes in base64, with padding.
pub open spec fn in_base64(data: Seq<u8>) -> Seq<char>
    decreases data.len(),
{
    if data.len() == 0 {
        Seq::empty()
    } else if data.len() == 1 {
        seq![symbol(data[0] as int / 4), symbol(data[0] as int % 4 * 16), '=', '=']
    } else if data.len() == 2 {
        seq![
            symbol(data[0] as int / 4),
            symbol(data[0] as int % 4 * 16 + data[1] as int / 16),
            symbol(data[1] as int % 16 * 4),
            '=',
        ]
    } else {
        seq![
            symbol(data[0] as int / 4),
            symbol(data[0] as int % 4 * 16 + data[1] as int / 16),
            symbol(data[1] as int % 16 * 4 + data[2] as int / 64),
            symbol(data[2] as int % 64),
        ] + in_base64(data.skip(3))
    }
}

/// What `base64` finds wrong with a text that is not the base64 form of any bytes.
pub uninterp spec fn base64_error(text: Seq<char>) -> Base64Error;

/// `Engine::decode` of `base64` with the engine `STANDARD`, which asks for full padding and for no
/// stray bits: the bytes whose base64 form the text is, or an error where it is that of no bytes.
/// The error depends on the text alone.
#[verifier::external_body]
fn decode(text: &String) -> (result: Result<Vec<u8>, Base64Error>)
    ensures
        match result {
            Ok(data) => text@ == in_base64(data@),
            Err(error) => error == base64_error(text@) && forall|data: Seq<u8>|
                text@ != #[trigger] in_base64(data),
        },
{
    general_purpose::STANDARD.decode(text).map_err(
        |error| match error {
            DecodeError::InvalidByte(at, byte) => Base64Error::InvalidByte(at, byte),
            DecodeError::InvalidLength(len) => Base64Error::InvalidLength(len),
            DecodeError::InvalidLastSymbol(at, byte) => Base64Error::InvalidLastSymbol(at, byte),
            DecodeError::InvalidPadding => Base64Error::InvalidPadding,
        },
    )
}

/// The bytes whose base64 form is the value of a record in a request.
pub fn from_base64(text: &String) -> (result: Result<Vec<u8>, Base64Error>)
    ensures
        match result {
            Ok(data) => text@ == in_base64(data@),
            Err(error) => error == base64_error(text@) && forall|data: Seq<u8>|
                text@ != #[trigger] in_base64(data),
        },
{
    decode(text)
}

/// The text of a failure names the byte and the place, or the length, in decimal.
pub proof fn base64_failures_say_what_they_hold(at: usize, byte: u8)
    ensures
        Base64Error::InvalidByte(at, byte).text() == "Invalid symbol "@ + decimal(byte as nat)
            + ", offset "@ + decimal(at as nat) + "."@,
        Base64Error::InvalidLastSymbol(at, byte).text() == "Invalid last symbol "@ + decimal(
            byte as nat,
        ) + ", offset "@ + decimal(at as nat) + "."@,
        Base64Error::InvalidLength(at).text() == "Invalid input length: "@ + decimal(at as nat),
        Base64Error::InvalidPadding.text() == "Invalid padding"@,
{
}

/// Different bytes have different base64 forms.
pub proof fn base64_is_injective(a: Seq<u8>, b: Seq<u8>)
    requires
        in_base64(a) == in_base64(b),
    ensures
        a == b,
    decreases a.len(),
{
    let s = in_base64(a);
    let t = in_base64(b);
    if a.len() == 0 || b.len() == 0 {
        assert(s.len() == 0 <==> a.len() == 0);
        assert(t.len() == 0 <==> b.len() == 0);
    } else {
        assert(s[0] == t[0] && s[1] == t[1] && s[2] == t[2] && s[3] == t[3]);
        if a.len() >= 3 && b.len() >= 3 {
            assert(s.skip(4) =~= in_base64(a.skip(3)));
            assert(t.skip(4) =~= in_base64(b.skip(3)));
            base64_is_injective(a.skip(3), b.skip(3));
            assert(a =~= seq![a[0], a[1], a[2]] + a.skip(3));
            assert(b =~= seq![b[0], b[1], b[2]] + b.skip(3));
        }
    }
    assert(a =~= b);
}

/// A read finds a record exactly at the offsets below the number of records. At every other offset
/// there is none.
pub proof fn only_stored_offsets_are_found(records: Seq<RecordView>, offset: u64)
    ensures
        offset >= records.len() ==> found(records, offset) == Err::<RecordView, OffsetNotFound>(
            OffsetNotFound,
        ),
        offset < records.len() ==> found(records, offset) is Ok,
{
}

/// In a log whose records have the offsets at which they stand, whatever record a read gives has
/// the offset that was asked for; reads of two offsets never give the same record.
pub proof fn found_record_has_its_offset(
    records: Seq<RecordView>,
    offset: u64,
    other: u64,
)
    requires
        forall|i: int| 0 <= i < records.len() ==> (#[trigger] records[i]).offset == i,
    ensures
        found(records, offset) matches Ok(record) ==> record.offset == offset,
        found(records, offset) is Ok && found(records, offset) == found(records, other) ==> offset
            == other,
{
    if offset < records.len() {
        assert(records[offset as int].offset == offset);
    }
    if other < records.len() {
        assert(records[other as int].offset == other);
    }
}

/// A log holds the values and the offsets of its records, in their order.
pub proof fn log_holds_its_records(log: Log)
    ensures
        log@.len() == log.records@.len(),
        forall|i: int|
            #![trigger log@[i]]
            0 <= i < log.records@.len() ==> log@[i].value == log.records@[i].value@
                && log@[i].offset == log.records@[i].offset,
{
}

} // verus!
