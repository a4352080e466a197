//! A segment: a store of records and the index that finds them in it.
use crate::bytes::{be_value, read_u32};
use crate::error::{ErrorView, LogError};
use crate::log::config::Config;
use crate::log::file::{copy_bytes, FileImage};
use crate::log::index::{
    area_holds_file, entry_at, entry_bytes, entry_is_found_by_number, entry_is_not_zero,
    entry_number, entry_place, entry_written, has_entry, is_zero, last_number, last_place,
    overwritten, readable, sized, without_zeros, written, written_part_ends_with_an_entry,
    written_size, zeros_do_not_count, zeros_stay_behind, Index, ENT_WIDTH, LAST, OFF_WIDTH,
};
use crate::log::names::{
    index_file_name, index_name, path, path_in, store_file_name, store_name,
};
use crate::log::store::{
    frame, frame_at, frame_is_length_and_record, frame_reads_back, frame_stays,
    record_is_found_by_its_length, record_is_missing_where_cut, Store,
};
use crate::record::{
    decode_record, encode_record, json_record, record_json, viewed, Record, RecordView,
};
use crate::text::decimal;
use vstd::prelude::*;
use vstd::slice::slice_subrange;

verus! {

/// The records from `base_offset` up to `next_offset`.
pub struct Segment {
    pub store: Store,
    pub index: Index,
    pub base_offset: u64,
    pub next_offset: u64,
    pub config: Config,
}

/// The place of an offset in its segment, in the width that the index has for it.
pub open spec fn relative(off: u64, base_offset: u64) -> u32 {
    (off as u32).wrapping_sub(base_offset as u32)
}

/// How many bytes of the index of a segment are written, by what its two files hold.
pub open spec fn index_size(store: Seq<u8>, index: Seq<u8>) -> int {
    written(index, store.len() > 0)
}

/// The offset that follows the last one in the index of a segment, by what its two files hold.
pub open spec fn next_after(
    store: Seq<u8>,
    index: Seq<u8>,
    base_offset: u64,
    config: Config,
) -> int {
    let size = index_size(store, index) as u64;
    if has_entry(size, LAST) {
        base_offset + entry_at(
            sized(index, config.segment.max_index_bytes as nat),
            entry_place(entry_number(size, LAST)),
        ).0 + 1
    } else {
        base_offset as int
    }
}

/// Whether a segment can be opened on files with these contents: the last entry of its index can
/// be read, and the offset after it is a number that the log can hold.
pub open spec fn openable(
    store: Seq<u8>,
    index: Seq<u8>,
    base_offset: u64,
    config: Config,
) -> bool {
    &&& index.len() <= u64::MAX
    &&& config.segment.max_index_bytes <= isize::MAX
    &&& readable(
        config.segment.max_index_bytes as nat,
        index_size(store, index) as u64,
        LAST,
    )
    &&& next_after(store, index, base_offset, config) <= u64::MAX
}

/// Whether `segment` is what opening the one that begins at `base_offset` gives, on what its store
/// file and its index file in `dir` hold already.
pub open spec fn opened(
    dir: Seq<char>,
    base_offset: u64,
    config: Config,
    store: Seq<u8>,
    index: Seq<u8>,
    segment: Segment,
) -> bool {
    &&& segment.store.wf()
    &&& segment.store.file.name@ == path_in(dir, store_name(base_offset))
    &&& segment.store.bytes() == store
    &&& segment.index.name@ == path_in(dir, index_name(base_offset))
    &&& segment.index.mmap@ == sized(index, config.segment.max_index_bytes as nat)
    &&& segment.index.size == index_size(store, index)
    &&& segment.base_offset == base_offset
    &&& segment.next_offset == next_after(store, index, base_offset, config)
    &&& segment.config == config
}

/// Whether a segment can be opened on files with these contents.
pub fn can_open(
    store: &Vec<u8>,
    index: &Vec<u8>,
    base_offset: u64,
    config: Config,
) -> (yes: bool)
    ensures
        yes == openable(store@, index@, base_offset, config),
{
    let max: u64 = config.segment.max_index_bytes;
    if max > isize::MAX as u64 {
        return false;
    }
    let len: usize = index.len();
    let size: u64 = written_size(index, store.len() > 0);
    if size == 0 {
        return true;
    }
    #[verifier::truncate]
    let size32: u32 = size as u32;
    assert(size32 <= size) by (bit_vector)
        requires
            size32 == size as u32,
    ;
    if (size32 as u64) < ENT_WIDTH {
        return false;
    }
    let at: u64 = (last_number(size) as u64) * ENT_WIDTH;
    if at + ENT_WIDTH > max {
        return false;
    }
    let head = slice_subrange(index.as_slice(), at as usize, at as usize + OFF_WIDTH as usize);
    let last: u32 = read_u32(head);
    assert(head@.take(4) =~= sized(index@, max as nat).subrange(at as int, at + OFF_WIDTH));
    last as u64 <= u64::MAX - 1 && base_offset <= u64::MAX - 1 - last as u64
}

impl Segment {
    /// What a read of `off` asks the index for.
    pub open spec fn asked(&self, off: u64) -> i64 {
        ((off - self.base_offset) as u64) as i64
    }

    /// Whether `off` can be asked for.
    pub open spec fn can_read(&self, off: u64) -> bool {
        &&& self.store.wf()
        &&& self.base_offset <= off
        &&& self.index.readable(self.asked(off))
    }

    /// The record at `off`, or why there is none.
    pub open spec fn stored(&self, off: u64) -> Result<RecordView, ErrorView> {
        if !self.index.has_entry(self.asked(off)) {
            Err(ErrorView::UnexpectedEof)
        } else {
            match frame_at(self.store.bytes(), self.index.entry(self.asked(off)).1 as int) {
                None => Err(ErrorView::ShortRead),
                Some(p) => match json_record(p) {
                    Err(reason) => Err(ErrorView::InvalidRecord(reason)),
                    Ok(record) => Ok(record),
                },
            }
        }
    }

    /// Whether a record can be added, or refused, without running out of numbers.
    pub open spec fn can_append(&self) -> bool {
        &&& self.store.wf()
        &&& self.index.size + ENT_WIDTH <= u64::MAX
        &&& self.index.has_room() ==> self.next_offset < u64::MAX
    }

    /// The record that an append of `value` stores.
    pub open spec fn next_record(&self, value: Seq<u8>) -> RecordView {
        RecordView { value, offset: self.next_offset }
    }

    /// What an append of `value` makes of the segment. The store grows even where the index has no
    /// room for the entry.
    pub open spec fn appended(&self, value: Seq<u8>, after: Segment) -> bool {
        let record = self.next_record(value);
        &&& after.store.wf()
        &&& after.store.bytes() == self.store.bytes() + frame(record_json(record))
        &&& after.store.file.name == self.store.file.name
        &&& json_record(record_json(record)) == Ok::<RecordView, Seq<char>>(record)
        &&& after.base_offset == self.base_offset
        &&& after.config == self.config
        &&& after.index.name == self.index.name
        &&& if self.index.has_room() {
            &&& after.next_offset == self.next_offset + 1
            &&& after.index.size == self.index.size + ENT_WIDTH
            &&& after.index.mmap@ == overwritten(
                self.index.mmap@,
                self.index.size as int,
                entry_bytes(relative(self.next_offset, self.base_offset), self.store.size),
            )
        } else {
            &&& after.next_offset == self.next_offset
            &&& after.index == self.index
        }
    }

    /// The entry of the index for the record `k` behind the first one.
    pub open spec fn slot(&self, k: int) -> (nat, nat) {
        entry_at(self.index.mmap@, entry_place(k))
    }

    /// Every offset of the segment has its entry and its record, there are no entries beyond, and
    /// there is nothing in the store before the first record.
    pub open spec fn consistent(&self) -> bool {
        &&& self.store.wf()
        &&& self.index.size <= self.index.mmap@.len()
        &&& is_zero(
            self.index.mmap@,
            self.index.size as int,
            self.index.mmap@.len() as int,
        )
        &&& self.next_offset == self.base_offset && self.index.has_room()
            ==> self.store.bytes().len() == 0
        &&& self.base_offset <= self.next_offset
        &&& self.next_offset - self.base_offset <= 0x1_0000_0000
        &&& self.index.size == entry_place(self.next_offset - self.base_offset)
        &&& forall|k: int|
            0 <= k < self.next_offset - self.base_offset ==> {
                &&& (#[trigger] self.slot(k)).0 == k
                &&& frame_at(self.store.bytes(), self.slot(k).1 as int) is Some
                &&& json_record(frame_at(self.store.bytes(), self.slot(k).1 as int)->0) is Ok
                &&& json_record(frame_at(self.store.bytes(), self.slot(k).1 as int)->0)->Ok_0.offset
                    == self.base_offset + k
            }
    }

    /// Whether the store or the index has reached its limit.
    pub open spec fn maxed(&self) -> bool {
        ||| self.store.size >= self.config.segment.max_store_bytes
        ||| self.index.size >= self.config.segment.max_index_bytes
    }

    /// Opens the segment that begins at `base_offset`, on what its store file and its index file
    /// in `dir` hold already.
    pub fn new(
        dir: &str,
        base_offset: u64,
        config: Config,
        store: Vec<u8>,
        index: Vec<u8>,
    ) -> (segment: Segment)
        requires
            openable(store@, index@, base_offset, config),
        ensures
            opened(dir@, base_offset, config, store@, index@, segment),
    {
        let size: u64 = written_size(&index, store.len() > 0);
        let store = Store::new_store(
            FileImage { name: path(dir, store_file_name(base_offset).as_str()), contents: store },
        );
        let mut index = Index::new(
            FileImage { name: path(dir, index_file_name(base_offset).as_str()), contents: index },
            config,
        );
        index.size = size;
        let next_offset: u64 = match index.read(LAST) {
            Ok((off, _)) => base_offset + off as u64 + 1,
            Err(_) => base_offset,
        };
        Segment { store, index, base_offset, next_offset, config }
    }

    /// Stores a record under the next offset, and gives that offset.
    pub fn append(&mut self, record: Record) -> (result: Result<u64, LogError>)
        requires
            old(self).can_append(),
        ensures
            old(self).appended(record.value@, *final(self)),
            old(self).index.mmap@.len() - old(self).index.size >= 12 ==> result == Ok::<
                u64,
                LogError,
            >(old(self).next_offset),
            old(self).index.mmap@.len() - old(self).index.size < 12 ==> result == Err::<
                u64,
                LogError,
            >(LogError::UnexpectedEof),
            result == if old(self).index.has_room() {
                Ok(old(self).next_offset)
            } else {
                Err(LogError::UnexpectedEof)
            },
    {
        let cur: u64 = self.next_offset;
        let p = encode_record(&record.value, cur);
        let (_, pos) = self.store.append(p.as_slice());
        #[verifier::truncate]
        let next32: u32 = self.next_offset as u32;
        #[verifier::truncate]
        let base32: u32 = self.base_offset as u32;
        let off: u32 = next32.wrapping_sub(base32);
        match self.index.write(off, pos) {
            Ok(()) => {},
            Err(error) => {
                return Err(error);
            },
        }
        self.next_offset = self.next_offset + 1;
        Ok(cur)
    }

    /// The record at `off`.
    pub fn read(&self, off: u64) -> (result: Result<Record, LogError>)
        requires
            self.can_read(off),
        ensures
            viewed(result) == self.stored(off),
    {
        let offset: u64 = off - self.base_offset;
        #[verifier::truncate]
        let inp: i64 = offset as i64;
        let pos: u64 = match self.index.read(inp) {
            Ok((_, pos)) => pos,
            Err(error) => {
                return Err(error);
            },
        };
        let p = match self.store.read(pos) {
            Ok(p) => p,
            Err(error) => {
                return Err(error);
            },
        };
        match decode_record(p.as_slice()) {
            Ok(record) => Ok(record),
            Err(reason) => Err(LogError::InvalidRecord(reason)),
        }
    }

    /// Whether the store or the index has reached its limit.
    pub fn is_maxed(&self) -> (yes: bool)
        ensures
            yes == self.maxed(),
            self.store.size >= self.config.segment.max_store_bytes ==> yes,
            self.index.size >= self.config.segment.max_index_bytes ==> yes,
            self.store.size < self.config.segment.max_store_bytes && self.index.size
                < self.config.segment.max_index_bytes ==> !yes,
    {
        self.store.size >= self.config.segment.max_store_bytes || self.index.size
            >= self.config.segment.max_index_bytes
    }

    /// The files to remove with the segment: that of the index, then that of the store.
    pub fn remove(&self) -> (names: (String, String))
        ensures
            names.0 == self.index.name,
            names.1 == self.store.file.name,
    {
        (self.index.name(), self.store.file.name.clone())
    }

    /// The files as the segment leaves them: that of the index, then that of the store.
    pub fn close(&self) -> (files: (FileImage, FileImage))
        requires
            self.index.size <= isize::MAX,
        ensures
            files.0.name == self.index.name,
            files.0.contents@ == self.index.contents(),
            files.1.name == self.store.file.name,
            files.1.contents@ == self.store.bytes(),
    {
        let index = self.index.close();
        let file = self.store.close();
        (index, FileImage { name: file.name.clone(), contents: copy_bytes(&file.contents) })
    }

    /// The largest multiple of `k` that is no larger than `j`.
    pub fn nearest_multiple(&self, j: u64, k: u64) -> (multiple: u64)
        requires
            k != 0,
        ensures
            multiple % k == 0,
            multiple <= j,
            j - multiple < k,
    {
        proof {
            vstd::arithmetic::div_mod::lemma_fundamental_div_mod(j as int, k as int);
            vstd::arithmetic::div_mod::lemma_mod_bound(j as int, k as int);
            vstd::arithmetic::div_mod::lemma_mod_multiples_basic((j / k) as int, k as int);
            vstd::arithmetic::mul::lemma_mul_is_commutative((j / k) as int, k as int);
        }
        (j / k) * k
    }
}

/// The place of an offset in its segment, where the index has the width for it.
pub proof fn relative_place(off: u64, base_offset: u64)
    requires
        base_offset <= off,
        off - base_offset < 0x1_0000_0000,
    ensures
        relative(off, base_offset) == off - base_offset,
{
    let a: u32 = off as u32;
    let b: u32 = base_offset as u32;
    assert(a >= b ==> a - b == off - base_offset) by (bit_vector)
        requires
            base_offset <= off,
            off - base_offset < 0x1_0000_0000,
            a == off as u32,
            b == base_offset as u32,
    ;
    assert(a < b ==> a - b + 0x1_0000_0000 == off - base_offset) by (bit_vector)
        requires
            base_offset <= off,
            off - base_offset < 0x1_0000_0000,
            a == off as u32,
            b == base_offset as u32,
    ;
}

/// In a consistent segment a read of any of its offsets gives a record with that offset.
pub proof fn offsets_are_stored(segment: Segment, off: u64)
    requires
        segment.consistent(),
        segment.base_offset <= off < segment.next_offset,
    ensures
        segment.can_read(off),
        segment.stored(off) matches Ok(record) && record.offset == off,
        segment.stored(off) == Ok::<RecordView, ErrorView>(
            json_record(
                frame_at(
                    segment.store.bytes(),
                    segment.slot(off - segment.base_offset).1 as int,
                )->0,
            )->Ok_0,
        ),
{
    let k = off - segment.base_offset;
    assert(segment.slot(k).0 == k);
    assert(entry_number(segment.index.size, segment.asked(off)) == k);
}

/// After an append to a consistent segment with room in the index, every entry that was there
/// points to what it did, and the one behind them to the new record.
proof fn slot_after_append(before: Segment, value: Seq<u8>, after: Segment, k: int)
    requires
        before.consistent(),
        before.next_offset - before.base_offset < 0x1_0000_0000,
        before.index.has_room(),
        before.appended(value, after),
        0 <= k <= before.next_offset - before.base_offset,
    ensures
        after.index.mmap@.len() == before.index.mmap@.len(),
        after.slot(k).0 == k,
        k < before.next_offset - before.base_offset ==> after.slot(k) == before.slot(k) && frame_at(
            after.store.bytes(),
            after.slot(k).1 as int,
        ) == frame_at(before.store.bytes(), before.slot(k).1 as int),
        k == before.next_offset - before.base_offset ==> frame_at(
            after.store.bytes(),
            after.slot(k).1 as int,
        ) == Some(record_json(before.next_record(value))),
{
    let p = record_json(before.next_record(value));
    relative_place(before.next_offset, before.base_offset);
    frame_reads_back(before.store.bytes(), p);
    entry_written(
        before.index.mmap@,
        before.index.size as int,
        relative(before.next_offset, before.base_offset),
        before.store.size,
    );
    if k < before.next_offset - before.base_offset {
        assert(before.slot(k).0 == k);
        assert(entry_at(after.index.mmap@, entry_place(k)) == before.slot(k));
        frame_stays(before.store.bytes(), frame(p), before.slot(k).1 as int);
    }
}

/// Two consistent segments read the same where their entries point to the same.
proof fn same_slot_same_record(before: Segment, after: Segment, off: u64)
    requires
        before.consistent(),
        after.consistent(),
        after.base_offset == before.base_offset,
        before.base_offset <= off < before.next_offset,
        off < after.next_offset,
        after.slot(off - before.base_offset) == before.slot(off - before.base_offset),
        frame_at(after.store.bytes(), after.slot(off - before.base_offset).1 as int) == frame_at(
            before.store.bytes(),
            before.slot(off - before.base_offset).1 as int,
        ),
    ensures
        after.stored(off) == before.stored(off),
{
    offsets_are_stored(before, off);
    offsets_are_stored(after, off);
}

/// An append to a consistent segment with room in the index is read back under the offset that it
/// was given; what was stored before it stays as it was.
pub proof fn append_reads_back(before: Segment, value: Seq<u8>, after: Segment)
    requires
        before.consistent(),
        before.next_offset - before.base_offset < 0x1_0000_0000,
        before.index.has_room(),
        before.appended(value, after),
    ensures
        after.consistent(),
        after.index.mmap@.len() == before.index.mmap@.len(),
        after.stored(before.next_offset) == Ok::<RecordView, ErrorView>(before.next_record(value)),
        forall|off: u64|
            before.base_offset <= off < before.next_offset ==> #[trigger] after.stored(off)
                == before.stored(off),
{
    let n = before.next_offset - before.base_offset;
    zeros_stay_behind(
        before.index.mmap@,
        before.index.size as int,
        relative(before.next_offset, before.base_offset),
        before.store.size,
    );
    slot_after_append(before, value, after, n);
    assert(after.consistent()) by {
        assert forall|k: int| 0 <= k <= n implies {
            &&& (#[trigger] after.slot(k)).0 == k
            &&& frame_at(after.store.bytes(), after.slot(k).1 as int) is Some
            &&& json_record(frame_at(after.store.bytes(), after.slot(k).1 as int)->0) is Ok
            &&& json_record(frame_at(after.store.bytes(), after.slot(k).1 as int)->0)->Ok_0.offset
                == after.base_offset + k
        } by {
            slot_after_append(before, value, after, k);
            if k < n {
                assert(before.slot(k).0 == k);
            }
        }
    }
    offsets_are_stored(after, before.next_offset);
    assert forall|off: u64| before.base_offset <= off < before.next_offset implies #[trigger] after
        .stored(off) == before.stored(off) by {
        slot_after_append(before, value, after, off - before.base_offset);
        same_slot_same_record(before, after, off);
    }
}

/// An append that the index has no room for changes nothing that can be read.
pub proof fn refused_append_keeps_records(before: Segment, value: Seq<u8>, after: Segment)
    requires
        before.consistent(),
        !before.index.has_room(),
        before.appended(value, after),
    ensures
        after.consistent(),
        after.next_offset == before.next_offset,
        forall|off: u64|
            before.base_offset <= off < before.next_offset ==> #[trigger] after.stored(off)
                == before.stored(off),
{
    let p = record_json(before.next_record(value));
    let n = before.next_offset - before.base_offset;
    assert forall|k: int| 0 <= k < n implies {
        &&& (#[trigger] after.slot(k)) == before.slot(k)
        &&& frame_at(after.store.bytes(), after.slot(k).1 as int) == frame_at(
            before.store.bytes(),
            before.slot(k).1 as int,
        )
        &&& frame_at(after.store.bytes(), after.slot(k).1 as int) is Some
    } by {
        assert(before.slot(k).0 == k);
        frame_stays(before.store.bytes(), frame(p), before.slot(k).1 as int);
    }
    assert(after.consistent());
    assert forall|off: u64| before.base_offset <= off < before.next_offset implies #[trigger] after
        .stored(off) == before.stored(off) by {
        assert(after.slot(off - before.base_offset) == before.slot(off - before.base_offset));
        same_slot_same_record(before, after, off);
    }
}

/// A segment that is opened on empty files holds no records yet.
pub proof fn fresh_segment_is_consistent(segment: Segment)
    requires
        segment.store.wf(),
        segment.store.bytes().len() == 0,
        segment.index.size == 0,
        segment.index.mmap@ == sized(Seq::empty(), segment.index.mmap@.len()),
        segment.next_offset == segment.base_offset,
    ensures
        segment.consistent(),
{
    reveal(is_zero);
}

/// Whether an index file holds what a segment has written, and nothing but zeros behind it, as far
/// as the area of the index goes. So it is while the segment is open, and after it was closed.
pub open spec fn leaves(segment: Segment, index: Seq<u8>) -> bool {
    &&& segment.index.size <= index.len() <= segment.index.mmap@.len()
    &&& index.take(segment.index.size as int) == segment.index.mmap@.take(
        segment.index.size as int,
    )
    &&& is_zero(index, segment.index.size as int, index.len() as int)
}

/// The file of an index is left with what is written, both where it was closed and where it was
/// not.
pub proof fn closed_or_not(segment: Segment)
    requires
        segment.consistent(),
    ensures
        leaves(segment, segment.index.contents()),
        leaves(segment, segment.index.mmap@),
{
    reveal(is_zero);
    assert(segment.index.contents().take(segment.index.size as int)
        =~= segment.index.mmap@.take(segment.index.size as int));
}

/// In the index file that a consistent segment left, what it has written counts as written.
proof fn left_index_is_written(segment: Segment, index: Seq<u8>)
    requires
        segment.consistent(),
        leaves(segment, index),
    ensures
        index_size(segment.store.bytes(), index) == segment.index.size,
{
    let n = segment.next_offset - segment.base_offset;
    let size = segment.index.size as int;
    zeros_do_not_count(index, size, index.len() as int);
    if n > 0 {
        let at = entry_place(n - 1);
        assert(index.subrange(at, at + OFF_WIDTH) =~= segment.index.mmap@.subrange(
            at,
            at + OFF_WIDTH,
        )) by {
            assert forall|i: int| at <= i < at + OFF_WIDTH implies index[i]
                == segment.index.mmap@[i] by {
                assert(index.take(size)[i] == segment.index.mmap@.take(size)[i]);
            }
        }
        assert(segment.slot(n - 1).0 == n - 1);
        assert(last_place(size) == at);
        if n > 1 {
            entry_is_not_zero(index, at);
        } else {
            assert(segment.slot(0).0 == 0);
            reveal_with_fuel(without_zeros, 2);
        }
    }
}

/// The files that a consistent segment left can be opened again, with room for them in the index,
/// and the offset after the last one is the same.
pub proof fn left_files_are_openable(before: Segment, index: Seq<u8>, config: Config)
    requires
        before.consistent(),
        leaves(before, index),
        before.index.size <= u32::MAX,
        before.index.size <= config.segment.max_index_bytes <= isize::MAX,
        index.len() <= u64::MAX,
    ensures
        openable(before.store.bytes(), index, before.base_offset, config),
        next_after(before.store.bytes(), index, before.base_offset, config)
            == before.next_offset,
{
    let n = before.next_offset - before.base_offset;
    let size = before.index.size as int;
    let area = sized(index, config.segment.max_index_bytes as nat);
    left_index_is_written(before, index);
    if n > 0 {
        let at = entry_place(n - 1);
        assert forall|i: int| at <= i < at + OFF_WIDTH implies area[i]
            == before.index.mmap@[i] by {
            assert(index.take(size)[i] == before.index.mmap@.take(size)[i]);
        }
        assert(area.subrange(at, at + OFF_WIDTH) =~= before.index.mmap@.subrange(
            at,
            at + OFF_WIDTH,
        ));
        assert(before.slot(n - 1).0 == n - 1);
        assert(entry_number(before.index.size, LAST) == n - 1);
    }
}

/// Opening a segment on the files that a consistent one left, closed or not, with room for them in
/// the index, gives back all of its records. It is consistent again, unless the index had no room
/// for any entry before and has it now: then the store can hold what was refused.
pub proof fn reopened_segment_is_same(
    dir: Seq<char>,
    before: Segment,
    index: Seq<u8>,
    config: Config,
    after: Segment,
)
    requires
        before.consistent(),
        leaves(before, index),
        index.len() <= u64::MAX,
        before.index.size <= u32::MAX,
        before.index.size <= config.segment.max_index_bytes <= isize::MAX,
        opened(dir, before.base_offset, config, before.store.bytes(), index, after),
    ensures
        before.index.mmap@.len() >= ENT_WIDTH || config.segment.max_index_bytes < ENT_WIDTH
            ==> after.consistent(),
        after.next_offset == before.next_offset,
        forall|off: u64|
            before.base_offset <= off < before.next_offset ==> #[trigger] after.stored(off)
                == before.stored(off),
{
    let n = before.next_offset - before.base_offset;
    let size = before.index.size as int;
    left_index_is_written(before, index);
    left_files_are_openable(before, index, config);
    assert forall|i: int| 0 <= i < size implies #[trigger] after.index.mmap@[i]
        == before.index.mmap@[i] by {
        assert(index.take(size)[i] == before.index.mmap@.take(size)[i]);
    }
    assert forall|k: int| 0 <= k < n implies #[trigger] after.slot(k) == before.slot(k) by {
        let at = entry_place(k);
        assert(after.index.mmap@.subrange(at, at + OFF_WIDTH) =~= before.index.mmap@.subrange(
            at,
            at + OFF_WIDTH,
        ));
        assert(after.index.mmap@.subrange(at + OFF_WIDTH, at + ENT_WIDTH)
            =~= before.index.mmap@.subrange(at + OFF_WIDTH, at + ENT_WIDTH));
    }
    assert(is_zero(after.index.mmap@, size, after.index.mmap@.len() as int)) by {
        reveal(is_zero);
    }
    if n > 0 || before.index.mmap@.len() >= ENT_WIDTH || config.segment.max_index_bytes
        < ENT_WIDTH {
        assert(after.consistent());
    }
    assert forall|off: u64| before.base_offset <= off < before.next_offset implies #[trigger] after
        .stored(off) == before.stored(off) by {
        offsets_are_stored(before, off);
        offsets_are_stored(after, off);
        assert(after.slot(off - before.base_offset) == before.slot(off - before.base_offset));
    }
}

/// An append to a consistent segment succeeds, and gives the offset after the last one, exactly as
/// long as the area of the index has twelve bytes for each record that is there and twelve more.
pub proof fn append_succeeds_while_the_area_lasts(before: Segment, value: Seq<u8>, after: Segment)
    requires
        before.consistent(),
        before.appended(value, after),
    ensures
        12 * (before.next_offset - before.base_offset) + 12 <= before.index.mmap@.len()
            ==> after.next_offset == before.next_offset + 1 && after.index.size
            == before.index.size + 12,
        12 * (before.next_offset - before.base_offset) + 12 > before.index.mmap@.len()
            ==> after.next_offset == before.next_offset && after.index == before.index,
        after.base_offset == before.base_offset,
        after.config == before.config,
{
}

/// What an append adds to the store are the length of the record and the record; all that was there
/// stays in front of it.
pub proof fn append_adds_to_the_store(before: Segment, value: Seq<u8>, after: Segment)
    requires
        before.appended(value, after),
        record_json(RecordView { value, offset: before.next_offset }).len() <= u64::MAX,
    ensures
        ({
            let p = record_json(RecordView { value, offset: before.next_offset });
            let n = before.store.file.contents@.len() as int;
            &&& after.store.file.contents@.len() == n + 8 + p.len()
            &&& after.store.size == n + 8 + p.len()
            &&& after.store.file.contents@.take(n) == before.store.file.contents@
            &&& be_value(after.store.file.contents@.subrange(n, n + 8)) == p.len()
            &&& after.store.file.contents@.skip(n + 8) == p
        }),
{
    let p = record_json(RecordView { value, offset: before.next_offset });
    let n = before.store.file.contents@.len() as int;
    frame_is_length_and_record(p);
    assert(after.store.file.contents@.take(n) =~= before.store.file.contents@);
    assert(after.store.file.contents@.subrange(n, n + 8) =~= frame(p).take(8));
    assert forall|i: int| 0 <= i < p.len() implies #[trigger] after.store.file.contents@.skip(
        n + 8,
    )[i] == p[i] by {
        assert(frame(p)[8 + i] == p[i]);
    }
    assert(after.store.file.contents@.skip(n + 8) =~= p);
}

/// A segment is full exactly where one of its two files is as long as its limit.
pub proof fn full_segment_reached_a_limit(segment: Segment)
    ensures
        segment.maxed() <==> !(segment.store.size < segment.config.segment.max_store_bytes
            && segment.index.size < segment.config.segment.max_index_bytes),
{
}

/// A read follows the entry of the offset to the record: where the entry is written, the eight
/// bytes at its position spell a length that the store has, and what is there is a record, that is
/// what it gives.
pub proof fn read_follows_the_entry(segment: Segment, off: u64, pos: int, p: Seq<u8>)
    requires
        segment.base_offset <= off,
        off - segment.base_offset < 0x1_0000_0000,
        12 * (off - segment.base_offset) + 12 <= segment.index.size,
        segment.index.size <= segment.index.mmap@.len(),
        pos == be_value(
            segment.index.mmap@.subrange(
                12 * (off - segment.base_offset) + 4,
                12 * (off - segment.base_offset) + 12,
            ),
        ),
        pos + 8 + p.len() <= segment.store.file.contents@.len(),
        p.len() <= u64::MAX,
        be_value(segment.store.file.contents@.subrange(pos, pos + 8)) == p.len(),
        segment.store.file.contents@.subrange(pos + 8, pos + 8 + p.len()) == p,
    ensures
        match json_record(p) {
            Ok(record) => segment.stored(off) == Ok::<RecordView, ErrorView>(record),
            Err(reason) => segment.stored(off) == Err::<RecordView, ErrorView>(
                ErrorView::InvalidRecord(reason),
            ),
        },
{
    let k = (off - segment.base_offset) as i64;
    assert(segment.asked(off) == k);
    entry_is_found_by_number(segment.index, k);
    record_is_found_by_its_length(segment.store.bytes(), pos, p);
    assert forall|i: int| 0 <= i < p.len() implies #[trigger] p[i]
        == segment.store.file.contents@[pos + 8 + i] by {
        assert(segment.store.file.contents@.subrange(pos + 8, pos + 8 + p.len())[i]
            == segment.store.file.contents@[pos + 8 + i]);
    }
}

/// Where the entry points to fewer than eight bytes, or to a length that the store does not have,
/// the record is cut short.
pub proof fn read_of_a_cut_record_fails(segment: Segment, off: u64, pos: int)
    requires
        segment.base_offset <= off,
        off - segment.base_offset < 0x1_0000_0000,
        12 * (off - segment.base_offset) + 12 <= segment.index.size,
        segment.index.size <= segment.index.mmap@.len(),
        pos == be_value(
            segment.index.mmap@.subrange(
                12 * (off - segment.base_offset) + 4,
                12 * (off - segment.base_offset) + 12,
            ),
        ),
        pos + 8 > segment.store.file.contents@.len() || pos + 8 + be_value(
            segment.store.file.contents@.subrange(pos, pos + 8),
        ) > segment.store.file.contents@.len(),
    ensures
        segment.stored(off) == Err::<RecordView, ErrorView>(ErrorView::ShortRead),
{
    let k = (off - segment.base_offset) as i64;
    assert(segment.asked(off) == k);
    entry_is_found_by_number(segment.index, k);
    record_is_missing_where_cut(segment.store.bytes(), pos);
}

/// A read of an offset behind the entries that are written finds none.
pub proof fn read_behind_the_entries_fails(segment: Segment, off: u64)
    requires
        segment.base_offset <= off,
        off - segment.base_offset < 0x1_0000_0000,
        12 * (off - segment.base_offset) + 12 > segment.index.size,
    ensures
        segment.stored(off) == Err::<RecordView, ErrorView>(ErrorView::UnexpectedEof),
{
    let k = (off - segment.base_offset) as i64;
    assert(segment.asked(off) == k);
    entry_is_found_by_number(segment.index, k);
}

/// A segment that is opened keeps what its files hold, begins where it is asked to and has the
/// limits that it is given. Its files lie in the directory under the offset in decimal.
pub proof fn opened_segment_keeps_its_files(
    dir: Seq<char>,
    base_offset: u64,
    config: Config,
    store: Seq<u8>,
    index: Seq<u8>,
    segment: Segment,
)
    requires
        opened(dir, base_offset, config, store, index, segment),
    ensures
        segment.base_offset == base_offset,
        segment.config == config,
        segment.store.file.contents@ == store,
        segment.store.size == store.len(),
        segment.store.file.name@ == dir + "/"@ + (decimal(base_offset as nat) + ".store"@),
        segment.index.name@ == dir + "/"@ + (decimal(base_offset as nat) + ".index"@),
        segment.index.mmap@.len() == config.segment.max_index_bytes,
        forall|i: int|
            0 <= i < segment.index.mmap@.len() && i < index.len()
                ==> #[trigger] segment.index.mmap@[i] == index[i],
        forall|i: int|
            index.len() <= i < segment.index.mmap@.len() ==> #[trigger] segment.index.mmap@[i]
                == 0,
        segment.index.size <= index.len(),
        index.len() <= u64::MAX ==> forall|i: int|
            segment.index.size <= i < index.len() ==> #[trigger] index[i] == 0,
{
    written_part_ends_with_an_entry(index, store.len() > 0);
    area_holds_file(index, config.segment.max_index_bytes as nat);
}

/// The offset that a segment goes on with is the one after that in the last entry of its index
/// file, counted from its base. It is the base itself where the file is empty, and where the last
/// entry of the file is not of zeros all of the file counts.
pub proof fn opened_segment_goes_on(
    dir: Seq<char>,
    base_offset: u64,
    config: Config,
    store: Seq<u8>,
    index: Seq<u8>,
    n: int,
    segment: Segment,
)
    requires
        opened(dir, base_offset, config, store, index, segment),
        index.len() == 12 * n,
        index.len() <= u32::MAX,
        index.len() <= config.segment.max_index_bytes,
    ensures
        n == 0 ==> segment.index.size == 0 && segment.next_offset == base_offset,
        n > 0 && be_value(index.subrange(12 * n - 12, 12 * n - 8)) > 0 ==> {
            &&& segment.index.size == index.len()
            &&& segment.next_offset == base_offset + be_value(
                index.subrange(12 * n - 12, 12 * n - 8),
            ) + 1
        },
{
    let area = sized(index, config.segment.max_index_bytes as nat);
    if n == 0 {
        assert(written(index, store.len() > 0) == 0);
    } else {
        let at = 12 * n - 12;
        let head = index.subrange(at, at + 4);
        assert(area.subrange(at, at + OFF_WIDTH) =~= head);
        if be_value(head) > 0 {
            entry_is_not_zero(index, at);
            assert(last_place(index.len() as int) == at);
            assert(written(index, store.len() > 0) == index.len());
            assert(entry_number(index.len() as u64, LAST) == n - 1);
        }
    }
}

/// A segment can be opened on an empty index file, whatever the store holds and wherever it begins.
pub proof fn empty_index_opens(store: Seq<u8>, base_offset: u64, config: Config)
    requires
        config.segment.max_index_bytes <= isize::MAX,
    ensures
        openable(store, Seq::empty(), base_offset, config),
{
    assert(written(Seq::<u8>::empty(), store.len() > 0) == 0);
}

/// An offset of a segment can be asked for exactly where its entry lies in the area, if it is
/// written at all.
pub proof fn offsets_that_can_be_read(segment: Segment, off: u64)
    requires
        segment.base_offset <= off,
        off - segment.base_offset < 0x1_0000_0000,
        segment.store.size == segment.store.file.contents@.len(),
    ensures
        segment.can_read(off) <==> (12 * (off - segment.base_offset) + 12 <= segment.index.size
            ==> 12 * (off - segment.base_offset) + 12 <= segment.index.mmap@.len()),
{
    let k = (off - segment.base_offset) as i64;
    assert(segment.asked(off) == k);
    entry_is_found_by_number(segment.index, k);
}

/// A segment takes a record, or refuses it, whatever its value is, as long as the numbers for the
/// next entry and the next offset are there.
pub proof fn segments_that_take_records(segment: Segment)
    requires
        segment.store.size == segment.store.file.contents@.len(),
        segment.index.size + 12 <= u64::MAX,
        segment.next_offset < u64::MAX,
    ensures
        segment.can_append(),
{
}

/// A segment can be opened on an index file whose last entry is not of zeros, where the file is
/// within the limit of the index and the offset after that entry is a number below 2^64.
pub proof fn whole_index_opens(
    store: Seq<u8>,
    index: Seq<u8>,
    base_offset: u64,
    config: Config,
    n: int,
)
    requires
        n > 0,
        index.len() == 12 * n,
        index.len() <= u32::MAX,
        index.len() <= config.segment.max_index_bytes <= isize::MAX,
        0 < be_value(index.subrange(12 * n - 12, 12 * n - 8)),
        base_offset + be_value(index.subrange(12 * n - 12, 12 * n - 8)) + 1 <= u64::MAX,
    ensures
        openable(store, index, base_offset, config),
{
    let area = sized(index, config.segment.max_index_bytes as nat);
    let at = 12 * n - 12;
    assert(area.subrange(at, at + OFF_WIDTH) =~= index.subrange(at, at + 4));
    entry_is_not_zero(index, at);
    assert(last_place(index.len() as int) == at);
    assert(written(index, store.len() > 0) == index.len());
    assert(entry_number(index.len() as u64, LAST) == n - 1);
}

/// The place of an offset in its segment is how far it is from the base, in the width that the
/// index has for it.
pub proof fn relative_place_wraps(off: u64, base_offset: u64)
    requires
        base_offset <= off,
    ensures
        relative(off, base_offset) == (off - base_offset) % 0x1_0000_0000,
{
    let a: u32 = off as u32;
    let b: u32 = base_offset as u32;
    assert(a >= b ==> a - b == (off - base_offset) % 0x1_0000_0000) by (bit_vector)
        requires
            base_offset <= off,
            a == off as u32,
            b == base_offset as u32,
    ;
    assert(a < b ==> a - b + 0x1_0000_0000 == (off - base_offset) % 0x1_0000_0000) by (bit_vector)
        requires
            base_offset <= off,
            a == off as u32,
            b == base_offset as u32,
    ;
}

} // verus!
