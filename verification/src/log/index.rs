//! The index of a segment: where in the store each of its records begins.
use crate::bytes::{
    be_bytes, be_bytes_len, be_round_trip, be_value, machine_words_fit, read_u32, read_u64,
    write_u32, write_u64,
};
use crate::error::LogError;
use crate::log::config::Config;
use crate::log::file::{copy_bytes, FileImage};
use vstd::prelude::*;
use vstd::slice::slice_subrange;

verus! {

/// How many bytes the offset in an entry takes.
pub const OFF_WIDTH: u64 = 4;

/// How many bytes the position in an entry takes.
pub const POS_WIDTH: u64 = 8;

/// How many bytes an entry takes.
pub const ENT_WIDTH: u64 = OFF_WIDTH + POS_WIDTH;

/// The number by which a read asks for the last entry.
pub const LAST: i64 = -1;

/// Entries in an area of fixed length, of which the first `size` bytes are written.
pub struct Index {
    pub name: String,
    pub mmap: Vec<u8>,
    pub size: u64,
}

/// The bytes of an entry.
pub open spec fn entry_bytes(off: u32, pos: u64) -> Seq<u8> {
    be_bytes(off as nat, OFF_WIDTH as nat) + be_bytes(pos as nat, POS_WIDTH as nat)
}

/// The entry at byte `at`: an offset and a position.
pub open spec fn entry_at(area: Seq<u8>, at: int) -> (nat, nat) {
    (
        be_value(area.subrange(at, at + OFF_WIDTH)),
        be_value(area.subrange(at + OFF_WIDTH, at + ENT_WIDTH)),
    )
}

/// `contents` cut off at `len` bytes, or filled up to them with zeros.
pub open spec fn sized(contents: Seq<u8>, len: nat) -> Seq<u8> {
    Seq::new(
        len,
        |i: int|
            if i < contents.len() {
                contents[i]
            } else {
                0u8
            },
    )
}

/// `area` with `bytes` in place of what stood at `at`.
pub open spec fn overwritten(area: Seq<u8>, at: int, bytes: Seq<u8>) -> Seq<u8> {
    area.take(at) + bytes + area.skip(at + bytes.len())
}

/// `contents` cut off at `len` bytes, or filled up to them with zeros.
fn resized(contents: Vec<u8>, len: usize) -> (area: Vec<u8>)
    ensures
        area@ == sized(contents@, len as nat),
{
    let mut area = contents;
    area.resize(len, 0u8);
    proof {
        assert forall|i: int| 0 <= i < len implies area@[i] == sized(contents@, len as nat)[i] by {
            if len > contents@.len() && i < contents@.len() {
                assert(area@.subrange(0, contents@.len() as int)[i] == contents@[i]);
            } else if len > contents@.len() {
                assert(vstd::pervasive::cloned::<u8>(0u8, area@[i]));
            }
        }
        assert(area@ =~= sized(contents@, len as nat));
    }
    area
}

/// Where an entry begins, by its number: one behind the other, each of `ENT_WIDTH` bytes.
pub open spec fn entry_place(number: int) -> int {
    12 * number
}

/// The number of the entry that a read asks for in an index of `size` bytes: that of the last
/// entry for `LAST`, else the number that is given.
pub open spec fn entry_number(size: u64, inp: i64) -> int {
    if inp == LAST {
        (size as u32) as int / 12 - 1
    } else {
        (inp as u32) as int
    }
}

/// Whether the entry that a read asks for is among the `size` bytes that are written.
pub open spec fn has_entry(size: u64, inp: i64) -> bool {
    size > 0 && entry_place(entry_number(size, inp) + 1) <= size
}

/// What a read needs of an index with `size` bytes written in an area of `len`: there is a last
/// entry where the last one is asked for, and the entry lies in the area.
pub open spec fn readable(len: nat, size: u64, inp: i64) -> bool {
    &&& inp == LAST && size > 0 ==> (size as u32) as int >= ENT_WIDTH
    &&& has_entry(size, inp) ==> entry_place(entry_number(size, inp) + 1) <= len
}

/// Whether the bytes of `area` from `from` up to `to` are zeros.
#[verifier::opaque]
pub open spec fn is_zero(area: Seq<u8>, from: int, to: int) -> bool {
    forall|i: int| from <= i < to ==> #[trigger] area[i] == 0
}

/// Where the last entry, or the part of one, begins among the first `size` bytes.
pub open spec fn last_place(size: int) -> int {
    if size % 12 == 0 {
        size - 12
    } else {
        size - size % 12
    }
}

/// How many of the first `size` bytes of `area` there are without the entries of zeros at their
/// end.
pub open spec fn without_zeros(area: Seq<u8>, size: int) -> int
    decreases size,
{
    if size > 0 && is_zero(area, last_place(size), size) {
        without_zeros(area, last_place(size))
    } else {
        size
    }
}

/// How many bytes of an index file are written. While an index is open its file is as long as the
/// whole area, with zeros behind the entries. Only the first entry can be all zeros; it is there
/// where there are records.
pub open spec fn written(contents: Seq<u8>, has_records: bool) -> int {
    let size = without_zeros(contents, contents.len() as int);
    if size == 0 && has_records && contents.len() >= ENT_WIDTH {
        ENT_WIDTH as int
    } else {
        size
    }
}

/// How many bytes of an index file are written.
pub fn written_size(contents: &Vec<u8>, has_records: bool) -> (size: u64)
    ensures
        size == written(contents@, has_records),
        size <= contents@.len(),
{
    let len: usize = contents.len();
    let mut size: usize = len;
    let mut i: usize = len;
    proof {
        reveal(is_zero);
    }
    // The bytes from `i` up to `size` are zeros.
    while i > 0 && contents[i - 1] == 0
        invariant
            i <= size <= len == contents@.len(),
            is_zero(contents@, i as int, size as int),
            i < size ==> last_place(size as int) < i,
            without_zeros(contents@, size as int) == without_zeros(contents@, len as int),
        decreases i,
    {
        proof {
            reveal(is_zero);
        }
        i = i - 1;
        if i % 12 == 0 {
            assert(last_place(size as int) == i);
            size = i;
        }
    }
    assert(size > 0 ==> !is_zero(contents@, last_place(size as int), size as int)) by {
        if size > 0 {
            assert(last_place(size as int) <= i - 1 < size);
            assert(contents@[i - 1] != 0);
        }
    }
    if size == 0 && has_records && len as u64 >= ENT_WIDTH {
        return ENT_WIDTH;
    }
    size as u64
}

/// The number of the last entry in an index of `size` bytes.
pub fn last_number(size: u64) -> (number: u32)
    requires
        (size as u32) as int >= ENT_WIDTH,
    ensures
        number == entry_number(size, LAST),
{
    #[verifier::truncate]
    let size32: u32 = size as u32;
    let width: u32 = ENT_WIDTH as u32;
    assert(width == 12);
    size32 / width - 1
}

impl Index {
    /// Whether the entry that a read asks for has been written.
    pub open spec fn has_entry(&self, inp: i64) -> bool {
        has_entry(self.size, inp)
    }

    /// The entry that a read asks for.
    pub open spec fn entry(&self, inp: i64) -> (nat, nat) {
        entry_at(self.mmap@, entry_place(entry_number(self.size, inp)))
    }

    /// Whether a read can ask for this entry.
    pub open spec fn readable(&self, inp: i64) -> bool {
        readable(self.mmap@.len(), self.size, inp)
    }

    /// Whether there is room for one more entry.
    pub open spec fn has_room(&self) -> bool {
        self.size + ENT_WIDTH <= self.mmap@.len()
    }

    /// The bytes of the file: what is written, without the room behind it.
    pub open spec fn contents(&self) -> Seq<u8> {
        sized(self.mmap@, self.size as nat)
    }

    /// An index on what `file` holds already, with room for as many bytes as `config` allows.
    pub fn new(file: FileImage, config: Config) -> (index: Index)
        requires
            config.segment.max_index_bytes <= isize::MAX,
        ensures
            index.name == file.name,
            index.size == file.contents@.len(),
            index.mmap@ == sized(file.contents@, config.segment.max_index_bytes as nat),
    {
        let FileImage { name, contents } = file;
        let size: u64 = contents.len() as u64;
        let mmap = resized(contents, config.segment.max_index_bytes as usize);
        Index { name, mmap, size }
    }

    /// The file as the index leaves it: the entries, without the room behind them.
    pub fn close(&self) -> (file: FileImage)
        requires
            self.size <= isize::MAX,
        ensures
            file.name == self.name,
            file.contents@ == self.contents(),
    {
        let contents = resized(copy_bytes(&self.mmap), self.size as usize);
        FileImage { name: self.name.clone(), contents }
    }

    /// The entry with number `inp`, or the last one where `inp` is `LAST`.
    pub fn read(&self, inp: i64) -> (result: Result<(u32, u64), LogError>)
        requires
            self.readable(inp),
        ensures
            self.has_entry(inp) ==> (result matches Ok(e) && (e.0 as nat, e.1 as nat) == self.entry(
                inp,
            )),
            !self.has_entry(inp) ==> result == Err::<(u32, u64), LogError>(LogError::UnexpectedEof),
    {
        if self.size == 0 {
            return Err(LogError::UnexpectedEof);
        }
        let out: u32 = if inp == LAST {
            last_number(self.size)
        } else {
            #[verifier::truncate]
            let number: u32 = inp as u32;
            number
        };
        let pos: u64 = (out as u64) * ENT_WIDTH;
        if self.size < pos + ENT_WIDTH {
            return Err(LogError::UnexpectedEof);
        }
        let end: usize = self.mmap.len();
        let at: usize = pos as usize;
        let mid: usize = at + OFF_WIDTH as usize;
        let head = slice_subrange(self.mmap.as_slice(), at, mid);
        let tail = slice_subrange(self.mmap.as_slice(), mid, at + ENT_WIDTH as usize);
        assert(head@.take(4) =~= self.mmap@.subrange(at as int, at + OFF_WIDTH));
        assert(tail@.take(8) =~= self.mmap@.subrange(at + OFF_WIDTH, at + ENT_WIDTH));
        Ok((read_u32(head), read_u64(tail)))
    }

    /// Whether a read can ask for this entry.
    pub fn is_readable(&self, inp: i64) -> (yes: bool)
        ensures
            yes == self.readable(inp),
    {
        if self.size == 0 {
            return true;
        }
        #[verifier::truncate]
        let size32: u32 = self.size as u32;
        if inp == LAST && (size32 as u64) < ENT_WIDTH {
            return false;
        }
        let number: u32 = if inp == LAST {
            last_number(self.size)
        } else {
            #[verifier::truncate]
            let number: u32 = inp as u32;
            number
        };
        let end: u64 = (number as u64) * ENT_WIDTH + ENT_WIDTH;
        let room: usize = self.mmap.len();
        self.size < end || end <= room as u64
    }

    /// Adds an entry behind the others.
    pub fn write(&mut self, off: u32, pos: u64) -> (result: Result<(), LogError>)
        requires
            old(self).size + ENT_WIDTH <= u64::MAX,
        ensures
            final(self).name == old(self).name,
            result is Ok <==> old(self).mmap@.len() - old(self).size >= 12,
            old(self).has_room() ==> {
                &&& result is Ok
                &&& final(self).size == old(self).size + ENT_WIDTH
                &&& final(self).mmap@ == overwritten(
                    old(self).mmap@,
                    old(self).size as int,
                    entry_bytes(off, pos),
                )
            },
            !old(self).has_room() ==> {
                &&& result == Err::<(), LogError>(LogError::UnexpectedEof)
                &&& *final(self) == *old(self)
            },
    {
        let end: usize = self.mmap.len();
        if (end as u64) < self.size + ENT_WIDTH {
            return Err(LogError::UnexpectedEof);
        }
        let at: usize = self.size as usize;
        let ghost before = self.mmap@;
        proof {
            be_bytes_len(off as nat, 4);
            be_bytes_len(pos as nat, 8);
        }
        {
            let (_, rest) = self.mmap.as_mut_slice().split_at_mut(at);
            write_u32(rest, off);
        }
        {
            let (_, rest) = self.mmap.as_mut_slice().split_at_mut(at + OFF_WIDTH as usize);
            write_u64(rest, pos);
        }
        assert(self.mmap@ =~= overwritten(before, at as int, entry_bytes(off, pos)));
        self.size = self.size + ENT_WIDTH;
        Ok(())
    }

    /// The name of the file of the index.
    pub fn name(&self) -> (name: String)
        ensures
            name == self.name,
    {
        self.name.clone()
    }
}

/// Writing an entry leaves the zeros behind it.
pub proof fn zeros_stay_behind(area: Seq<u8>, at: int, off: u32, pos: u64)
    requires
        0 <= at,
        at + ENT_WIDTH <= area.len(),
        is_zero(area, at, area.len() as int),
    ensures
        is_zero(
            overwritten(area, at, entry_bytes(off, pos)),
            at + ENT_WIDTH,
            area.len() as int,
        ),
{
    be_bytes_len(off as nat, 4);
    be_bytes_len(pos as nat, 8);
    reveal(is_zero);
    let after = overwritten(area, at, entry_bytes(off, pos));
    assert forall|i: int| at + ENT_WIDTH <= i < area.len() implies #[trigger] after[i] == 0 by {
        assert(after[i] == area[i]);
    }
}

/// Zeros behind the entries do not count.
pub proof fn zeros_do_not_count(area: Seq<u8>, size: int, len: int)
    requires
        0 <= size <= len <= area.len(),
        size % 12 == 0,
        is_zero(area, size, len),
    ensures
        without_zeros(area, len) == without_zeros(area, size),
    decreases len,
{
    reveal(is_zero);
    if size < len {
        assert(last_place(len) >= size);
        zeros_do_not_count(area, size, last_place(len));
    }
}

/// Zeros stand for the number zero.
proof fn zeros_are_zero(s: Seq<u8>)
    requires
        is_zero(s, 0, s.len() as int),
    ensures
        be_value(s) == 0,
    decreases s.len(),
{
    reveal(is_zero);
    if s.len() > 0 {
        zeros_are_zero(s.drop_last());
    }
}

/// An entry with an offset above zero is not all zeros.
pub proof fn entry_is_not_zero(area: Seq<u8>, at: int)
    requires
        0 <= at,
        at + ENT_WIDTH <= area.len(),
        entry_at(area, at).0 > 0,
    ensures
        !is_zero(area, at, at + ENT_WIDTH),
{
    reveal(is_zero);
    if is_zero(area, at, at + ENT_WIDTH) {
        zeros_are_zero(area.subrange(at, at + OFF_WIDTH));
    }
}

/// An entry that was written at `at` is read back from there, and the entries before and behind
/// it are as they were.
pub proof fn entry_written(area: Seq<u8>, at: int, off: u32, pos: u64)
    requires
        0 <= at,
        at + ENT_WIDTH <= area.len(),
    ensures
        overwritten(area, at, entry_bytes(off, pos)).len() == area.len(),
        entry_at(overwritten(area, at, entry_bytes(off, pos)), at) == (off as nat, pos as nat),
        forall|other: int|
            0 <= other && other + ENT_WIDTH <= at || at + ENT_WIDTH <= other && other + ENT_WIDTH
                <= area.len() ==> #[trigger] entry_at(
                overwritten(area, at, entry_bytes(off, pos)),
                other,
            ) == entry_at(area, other),
{
    let bytes = entry_bytes(off, pos);
    let after = overwritten(area, at, bytes);
    be_bytes_len(off as nat, 4);
    be_bytes_len(pos as nat, 8);
    machine_words_fit(off, pos);
    be_round_trip(off as nat, 4);
    be_round_trip(pos as nat, 8);
    assert(after.subrange(at, at + OFF_WIDTH) =~= be_bytes(off as nat, 4));
    assert(after.subrange(at + OFF_WIDTH, at + ENT_WIDTH) =~= be_bytes(pos as nat, 8));
    assert forall|other: int|
        0 <= other && other + ENT_WIDTH <= at || at + ENT_WIDTH <= other && other + ENT_WIDTH
            <= area.len() implies #[trigger] entry_at(after, other) == entry_at(area, other) by {
        assert(after.subrange(other, other + OFF_WIDTH) =~= area.subrange(
            other,
            other + OFF_WIDTH,
        ));
        assert(after.subrange(other + OFF_WIDTH, other + ENT_WIDTH) =~= area.subrange(
            other + OFF_WIDTH,
            other + ENT_WIDTH,
        ));
    }
}

/// There is room for an entry exactly where twelve bytes are left behind what is written.
pub proof fn room_is_twelve_bytes(index: Index)
    ensures
        index.has_room() <==> index.mmap@.len() - index.size >= 12,
{
}

/// A read by number finds the entry exactly where all of its twelve bytes are written: the first
/// four of them spell the offset and the other eight the position.
pub proof fn entry_is_found_by_number(index: Index, k: i64)
    requires
        0 <= k < 0x1_0000_0000,
    ensures
        index.has_entry(k) <==> 12 * k + 12 <= index.size,
        index.entry(k).0 == be_value(index.mmap@.subrange(12 * k, 12 * k + 4)),
        index.entry(k).1 == be_value(index.mmap@.subrange(12 * k + 4, 12 * k + 12)),
        index.readable(k) <==> (12 * k + 12 <= index.size ==> 12 * k + 12 <= index.mmap@.len()),
{
    let n: u32 = k as u32;
    assert(n as i64 == k) by (bit_vector)
        requires
            0 <= k < 0x1_0000_0000,
            n == k as u32,
    ;
}

/// The last of `n` entries is the one with the number before `n`. An index without bytes has none.
pub proof fn last_entry_is_before_the_end(index: Index, n: int)
    requires
        index.size == 12 * n,
        index.size <= u32::MAX,
    ensures
        n == 0 ==> !index.has_entry(LAST) && index.readable(LAST),
        n > 0 ==> index.has_entry(LAST) && index.entry(LAST) == index.entry((n - 1) as i64),
        n > 0 && index.size <= index.mmap@.len() ==> index.readable(LAST),
{
    if n > 0 {
        entry_is_found_by_number(index, (n - 1) as i64);
        assert(entry_number(index.size, LAST) == n - 1);
    }
}

/// An entry that is added is found under the number of entries before it, and as the last one. The
/// entries before it are found as they were, and none is found behind it.
pub proof fn added_entry_is_found(before: Index, off: u32, pos: u64, n: int, after: Index)
    requires
        before.size == 12 * n,
        12 * n + 12 <= u32::MAX,
        12 * n + 12 <= before.mmap@.len(),
        after.size == before.size + 12,
        after.mmap@ == overwritten(before.mmap@, before.size as int, entry_bytes(off, pos)),
    ensures
        after.has_entry(n as i64),
        after.entry(n as i64) == (off as nat, pos as nat),
        after.has_entry(LAST),
        after.entry(LAST) == (off as nat, pos as nat),
        forall|k: i64|
            0 <= k < n ==> #[trigger] after.has_entry(k) && after.entry(k) == before.entry(k),
        forall|k: i64| n < k < 0x1_0000_0000 ==> !(#[trigger] after.has_entry(k)),
{
    entry_written(before.mmap@, before.size as int, off, pos);
    entry_is_found_by_number(after, n as i64);
    last_entry_is_before_the_end(after, n + 1);
    assert(after.entry(n as i64) == entry_at(after.mmap@, 12 * n));
    assert forall|k: i64| 0 <= k < n implies #[trigger] after.has_entry(k) && after.entry(k)
        == before.entry(k) by {
        entry_is_found_by_number(after, k);
        entry_is_found_by_number(before, k);
        assert(entry_at(after.mmap@, 12 * k) == entry_at(before.mmap@, 12 * k));
    }
    assert forall|k: i64| n < k < 0x1_0000_0000 implies !(#[trigger] after.has_entry(k)) by {
        entry_is_found_by_number(after, k);
    }
}

/// An area has the length that it is given; it holds the bytes of the file as far as they go, and
/// zeros behind them.
pub proof fn area_holds_file(contents: Seq<u8>, len: nat)
    ensures
        sized(contents, len).len() == len,
        forall|i: int|
            0 <= i < len && i < contents.len() ==> #[trigger] sized(contents, len)[i]
                == contents[i],
        forall|i: int|
            contents.len() <= i < len ==> #[trigger] sized(contents, len)[i] == 0,
{
}

/// A closed index leaves as many bytes as are written, and those are the ones it held.
pub proof fn closed_index_leaves_what_is_written(index: Index)
    requires
        index.size <= index.mmap@.len(),
    ensures
        index.contents() == index.mmap@.take(index.size as int),
{
    assert(index.contents() =~= index.mmap@.take(index.size as int));
}

/// What is not written at the end of an index file are zeros, and what is written does not end with
/// an entry of zeros, but for the first one where there are records.
pub proof fn written_part_ends_with_an_entry(contents: Seq<u8>, has_records: bool)
    ensures
        0 <= written(contents, has_records) <= contents.len(),
        forall|i: int|
            written(contents, has_records) <= i < contents.len() ==> #[trigger] contents[i] == 0,
        written(contents, has_records) < contents.len() ==> written(contents, has_records) % 12
            == 0,
        written(contents, has_records) > 0 ==> (exists|i: int|
            (written(contents, has_records) - 1) / 12 * 12 <= i < written(contents, has_records)
                && #[trigger] contents[i] != 0) || has_records && written(contents, has_records)
            == 12,
        has_records && contents.len() >= 12 ==> written(contents, has_records) >= 12 || exists|
            i: int,
        |
            0 <= i < contents.len() && #[trigger] contents[i] != 0,
        !has_records && (forall|i: int| 0 <= i < contents.len() ==> #[trigger] contents[i] == 0)
            ==> written(contents, has_records) == 0,
{
    reveal(is_zero);
    without_zeros_ends_with_an_entry(contents, contents.len() as int);
    if !has_records && (forall|i: int| 0 <= i < contents.len() ==> #[trigger] contents[i] == 0) {
        let size = without_zeros(contents, contents.len() as int);
        if size > 0 {
            assert(false);
        }
    }
}

/// What is left of bytes without the entries of zeros at their end.
proof fn without_zeros_ends_with_an_entry(area: Seq<u8>, size: int)
    requires
        0 <= size <= area.len(),
    ensures
        0 <= without_zeros(area, size) <= size,
        forall|i: int| without_zeros(area, size) <= i < size ==> #[trigger] area[i] == 0,
        without_zeros(area, size) < size ==> without_zeros(area, size) % 12 == 0,
        without_zeros(area, size) > 0 ==> exists|i: int|
            (without_zeros(area, size) - 1) / 12 * 12 <= i < without_zeros(area, size)
                && #[trigger] area[i] != 0,
    decreases size,
{
    reveal(is_zero);
    if size > 0 {
        if is_zero(area, last_place(size), size) {
            without_zeros_ends_with_an_entry(area, last_place(size));
        } else {
            let i = choose|i: int| last_place(size) <= i < size && #[trigger] area[i] != 0;
            assert(area[i] != 0);
            assert((size - 1) / 12 * 12 == last_place(size));
        }
    }
}

/// A number that is too large for the width of an offset asks for the entry that is left of it in
/// that width.
pub proof fn large_numbers_wrap(index: Index, k: i64)
    requires
        0 <= k,
    ensures
        index.has_entry(k) <==> 12 * (k % 0x1_0000_0000) + 12 <= index.size,
        index.entry(k) == index.entry(k % 0x1_0000_0000),
{
    let n: u32 = k as u32;
    let m: i64 = k % 0x1_0000_0000;
    assert(n as i64 == m) by (bit_vector)
        requires
            0 <= k,
            n == k as u32,
            m == k % 0x1_0000_0000,
    ;
    entry_is_found_by_number(index, m);
    assert(m as u32 == n) by (bit_vector)
        requires
            n as i64 == m,
    ;
}

} // verus!
