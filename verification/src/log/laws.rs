//! What holds of a log as a whole.
use crate::error::ErrorView;
use crate::log::config::Config;
use crate::log::file::{
    contents_of, listing, missing_file_is_empty, named_file_is_found, other_files_are_irrelevant,
    FileImage, FileView,
};
use crate::log::index::ENT_WIDTH;
use crate::log::names::{
    index_name, name_gives_offset, names_differ, offset_in, path_in, store_name,
};
use crate::log::offsets::{
    all_names_hold_offsets, every_second, file_order_is_irrelevant, named_offsets,
    segment_offsets, segments_are_every_second_offset, sorting_is_unique,
};
use crate::log::segment::{
    append_adds_to_the_store, append_reads_back, closed_or_not, fresh_segment_is_consistent, leaves,
    left_files_are_openable, offsets_are_stored, refused_append_keeps_records,
    reopened_segment_is_same, Segment,
};
use crate::log::{
    base_offsets, belongs_to, can_open_on, can_set_up, covering, dropped, effective, kept,
    last_at, last_at_begins, offsets_to_open, opened_on, outlives, ActiveSegment, Log,
};
use crate::log::store::frame_is_length_and_record;
use crate::record::{record_json, RecordView};
use crate::server::commit::CommitLog;
use crate::text::decimal;
use vstd::prelude::*;

verus! {

/// Whether a segment has an offset between its base and its next.
pub open spec fn covers(segment: Segment, off: u64) -> bool {
    segment.base_offset <= off < segment.next_offset
}

/// Whether one segment begins where the one before it ends.
pub open spec fn joined(segments: Seq<Segment>, i: int) -> bool {
    segments[i].next_offset == segments[i + 1].base_offset
}

/// Segments one behind the other, without gaps, of which the last one only can be empty.
pub open spec fn in_a_row(segments: Seq<Segment>) -> bool {
    &&& forall|i: int, j: int|
        0 <= i < j < segments.len() ==> {
            &&& (#[trigger] segments[i]).base_offset < segments[i].next_offset
            &&& segments[i].next_offset <= (#[trigger] segments[j]).base_offset
        }
    &&& forall|i: int| 0 <= i < segments.len() - 1 ==> #[trigger] joined(segments, i)
}

/// Whether the files of the segment that begins here are missing or empty.
pub open spec fn unused(files: Seq<FileView>, base_offset: u64) -> bool {
    &&& contents_of(files, store_name(base_offset)).len() == 0
    &&& contents_of(files, index_name(base_offset)).len() == 0
}

impl Log {
    /// The offset after the last one of the log.
    pub open spec fn end(&self) -> u64 {
        self.segments@.last().next_offset
    }

    /// Every segment has all of its records and lies in the directory under its name, the segments
    /// lie one behind the other, the last one takes new records, and there are no files yet of
    /// segments that come later.
    pub open spec fn consistent(&self) -> bool {
        &&& self.wf()
        &&& self.active_segment is Last
        &&& self.config.segment.max_index_bytes <= isize::MAX
        &&& forall|i: int|
            #![trigger self.segments@[i]]
            0 <= i < self.segments@.len() ==> {
                let segment = self.segments@[i];
                &&& segment.consistent()
                &&& segment.index.mmap@.len() == self.config.segment.max_index_bytes
                &&& segment.index.name@ == path_in(self.dir@, index_name(segment.base_offset))
                &&& segment.store.file.name@ == path_in(self.dir@, store_name(segment.base_offset))
            }
        &&& in_a_row(self.segments@)
        &&& forall|base: u64|
            base > self.segments@.last().base_offset ==> #[trigger] unused(
                listing(self.files@),
                base,
            )
    }
}

/// The segment that has an offset, where those that come after it do not have it, is the one that a
/// read goes to.
proof fn covering_is(segments: Seq<Segment>, off: u64, i: int)
    requires
        0 <= i < segments.len(),
        covers(segments[i], off),
        forall|j: int| i < j < segments.len() ==> !covers(#[trigger] segments[j], off),
    ensures
        covering(segments, off) == Some(i),
    decreases segments.len(),
{
    if i < segments.len() - 1 {
        assert(!covers(segments[segments.len() - 1], off));
        covering_is(segments.drop_last(), off, i);
    }
}

/// A read goes to a segment that has the offset, if one has it.
proof fn covering_covers(segments: Seq<Segment>, off: u64)
    ensures
        match covering(segments, off) {
            Some(i) => 0 <= i < segments.len() && covers(segments[i], off),
            None => forall|j: int| 0 <= j < segments.len() ==> !covers(#[trigger] segments[j], off),
        },
    decreases segments.len(),
{
    if segments.len() > 0 && !covers(segments.last(), off) {
        covering_covers(segments.drop_last(), off);
        match covering(segments.drop_last(), off) {
            Some(i) => {
                assert(segments.drop_last()[i] == segments[i]);
            },
            None => {
                assert forall|j: int| 0 <= j < segments.len() implies !covers(
                    #[trigger] segments[j],
                    off,
                ) by {
                    if j < segments.len() - 1 {
                        assert(segments.drop_last()[j] == segments[j]);
                    }
                }
            },
        }
    }
}

/// In a row of segments no two have the same offset.
proof fn only_one_covers(segments: Seq<Segment>, off: u64, i: int)
    requires
        in_a_row(segments),
        0 <= i < segments.len(),
        covers(segments[i], off),
    ensures
        covering(segments, off) == Some(i),
{
    assert forall|j: int| i < j < segments.len() implies !covers(
        #[trigger] segments[j],
        off,
    ) by {
        assert(segments[i].next_offset <= segments[j].base_offset);
    }
    covering_is(segments, off, i);
}

/// In a row of segments every offset from the first base to the last next has its segment.
proof fn row_has_no_gaps(segments: Seq<Segment>, off: u64)
    requires
        in_a_row(segments),
        segments.len() > 0,
        segments[0].base_offset <= off < segments.last().next_offset,
    ensures
        covering(segments, off) is Some,
    decreases segments.len(),
{
    if !covers(segments.last(), off) {
        let front = segments.drop_last();
        let n = segments.len();
        assert(n > 1);
        assert(joined(segments, n - 2));
        assert forall|i: int| 0 <= i < front.len() - 1 implies #[trigger] joined(front, i) by {
            assert(joined(segments, i));
        }
        row_has_no_gaps(front, off);
    }
}

/// A consistent log stores a record with that offset at every offset from its lowest one to its
/// highest one, and at no other.
pub proof fn log_stores_its_offsets(log: Log, off: u64)
    requires
        log.consistent(),
    ensures
        log.can_read(off),
        log.segments@[0].base_offset <= off < log.end() ==> (log.stored(off) matches Ok(record)
            && record.offset == off),
        !(log.segments@[0].base_offset <= off < log.end()) ==> log.stored(off) == Err::<
            RecordView,
            ErrorView,
        >(ErrorView::OffsetOutOfRange(off)),
{
    let segments = log.segments@;
    covering_covers(segments, off);
    if segments[0].base_offset <= off < log.end() {
        row_has_no_gaps(segments, off);
    }
    match covering(segments, off) {
        Some(i) => {
            offsets_are_stored(segments[i], off);
            if i > 0 {
                assert(segments[0].next_offset <= segments[i].base_offset);
            }
            if i < segments.len() - 1 {
                assert(segments[i].next_offset <= segments[segments.len() - 1].base_offset);
                assert(segments[segments.len() - 1].consistent());
            }
        },
        None => {},
    }
}

/// A log can be set up in a directory without files.
pub proof fn empty_directory_opens(config: Config)
    requires
        effective(config).segment.max_index_bytes <= isize::MAX,
    ensures
        can_set_up(Seq::empty(), true, effective(config)),
{
    let none = Seq::<FileView>::empty();
    assert(named_offsets(none) =~= Seq::<u64>::empty());
    sorting_is_unique(named_offsets(none), Seq::<u64>::empty());
    assert(segment_offsets(none) =~= Seq::<u64>::empty());
}

/// A log that is set up in a directory without files has no records yet and begins at the offset
/// that its settings say.
pub proof fn new_log_is_empty(log: Log, dir: Seq<char>, config: Config)
    requires
        log.started(dir, config, Seq::empty()),
        effective(config).segment.max_index_bytes <= isize::MAX,
    ensures
        log.consistent(),
        log.segments@.len() == 1,
        log.segments@[0].base_offset == config.segment.initial_offset,
        log.end() == config.segment.initial_offset,
{
    let none = Seq::<FileView>::empty();
    assert(named_offsets(none) =~= Seq::<u64>::empty());
    sorting_is_unique(named_offsets(none), Seq::<u64>::empty());
    assert(segment_offsets(none) =~= Seq::<u64>::empty());
    assert(opened_on(
        dir,
        none,
        offsets_to_open(none, true, effective(config))[0],
        effective(config),
        log.segments@[0],
    ));
    assert(contents_of(none, index_name(config.segment.initial_offset)) =~= Seq::empty());
    fresh_segment_is_consistent(log.segments@[0]);
}

/// A consistent log asks nothing of a record, as long as there are offsets left.
pub proof fn log_takes_records(log: Log, value: Seq<u8>)
    requires
        log.consistent(),
        log.end() < u64::MAX,
    ensures
        log.can_append(value),
{
    let last = log.segments@[log.segments@.len() - 1];
    assert(last.consistent());
    nothing_is_open_ahead(log, (log.end() + 1) as u64);
    assert(unused(listing(log.files@), (log.end() + 1) as u64));
}

/// A record that a consistent log takes is read back under the offset that the append gave, which
/// is the one after the last; every offset before it reads as it did.
pub proof fn log_append_reads_back(before: Log, value: Seq<u8>, off: u64, after: Log)
    requires
        before.consistent(),
        before.can_append(value),
        before.segments@.last().next_offset - before.segments@.last().base_offset < 0x1_0000_0000,
        before.appended(value, Ok(off), &after),
        after.wf(),
    ensures
        after.consistent(),
        off == before.end(),
        after.end() == off + 1,
        after.segments@[0].base_offset == before.segments@[0].base_offset,
        after.stored(off) == Ok::<RecordView, ErrorView>(RecordView { value, offset: off }),
        forall|o: u64| o < off ==> #[trigger] after.stored(o) == before.stored(o),
{
    let n = before.segments@.len() as int;
    let last = before.segments@[n - 1];
    let then = after.segments@[n - 1];
    append_reads_back(last, value, then);
    row_is_kept(before, value, off, after);
    only_one_covers(after.segments@, off, n - 1);
    assert forall|o: u64| o < off implies #[trigger] after.stored(o) == before.stored(o) by {
        covering_covers(before.segments@, o);
        match covering(before.segments@, o) {
            Some(i) => {
                if i < n - 1 {
                    assert(after.segments@[i] == before.segments@[i]);
                }
                only_one_covers(after.segments@, o, i);
            },
            None => {
                covering_covers(after.segments@, o);
                match covering(after.segments@, o) {
                    Some(i) => {
                        if i < n - 1 {
                            assert(after.segments@[i] == before.segments@[i]);
                        }
                        assert(!covers(before.segments@[i], o));
                    },
                    None => {},
                }
            },
        }
    }
}

/// No segment of a consistent log begins behind its end.
proof fn nothing_is_open_ahead(log: Log, base: u64)
    requires
        log.consistent(),
        base > log.segments@.last().base_offset,
    ensures
        last_at(log.segments@, base) is None,
{
    let n = log.segments@.len() as int;
    last_at_begins(log.segments@, base);
    match last_at(log.segments@, base) {
        Some(i) => {
            if i < n - 1 {
                assert(log.segments@[i].next_offset <= log.segments@[n - 1].base_offset);
            }
        },
        None => {},
    }
}

/// The segments before the last one stay, and the rows stay rows.
proof fn row_is_kept(before: Log, value: Seq<u8>, off: u64, after: Log)
    requires
        before.consistent(),
        before.appended(value, Ok(off), &after),
        after.wf(),
        after.segments@[before.segments@.len() - 1].consistent(),
        after.segments@[before.segments@.len() - 1].index.mmap@.len()
            == before.segments@.last().index.mmap@.len(),
    ensures
        after.consistent(),
        after.end() == off + 1,
        off == before.end(),
        after.segments@[0].base_offset == before.segments@[0].base_offset,
        forall|i: int|
            0 <= i < before.segments@.len() - 1 ==> #[trigger] after.segments@[i]
                == before.segments@[i],
{
    let n = before.segments@.len() as int;
    let last = before.segments@[n - 1];
    let then = after.segments@[n - 1];
    assert forall|i: int| 0 <= i < n - 1 implies #[trigger] after.segments@[i]
        == before.segments@[i] by {
        assert(after.segments@.take(n - 1)[i] == before.segments@.take(n - 1)[i]);
    }
    if Log::rolls(last, value) {
        let base = (last.next_offset + 1) as u64;
        assert(before.opens(base, after.segments@[n]));
        nothing_is_open_ahead(before, base);
        assert(unused(listing(before.files@), base));
        assert(contents_of(listing(before.files@), index_name(base)) =~= Seq::empty());
        fresh_segment_is_consistent(after.segments@[n]);
    }
    assert(last.consistent());
    assert forall|i: int| 0 <= i < after.segments@.len() - 1 implies #[trigger] joined(
        after.segments@,
        i,
    ) by {
        if i < n - 1 {
            assert(joined(before.segments@, i));
        }
    }
}

/// An append that the index of the last segment has no room for changes nothing that can be read.
pub proof fn refused_append_keeps_log(before: Log, value: Seq<u8>, error: ErrorView, after: Log)
    requires
        before.consistent(),
        before.appended(value, Err(error), &after),
        after.wf(),
    ensures
        after.consistent(),
        error == ErrorView::UnexpectedEof,
        after.end() == before.end(),
        forall|o: u64| #[trigger] after.stored(o) == before.stored(o),
{
    let n = before.segments@.len() as int;
    let last = before.segments@[n - 1];
    let then = after.segments@[n - 1];
    refused_append_keeps_records(last, value, then);
    assert forall|i: int| 0 <= i < n - 1 implies #[trigger] after.segments@[i]
        == before.segments@[i] by {
        assert(after.segments@.take(n - 1)[i] == before.segments@.take(n - 1)[i]);
    }
    assert forall|i: int| 0 <= i < n - 1 implies #[trigger] joined(after.segments@, i) by {
        assert(joined(before.segments@, i));
    }
    assert forall|o: u64| #[trigger] after.stored(o) == before.stored(o) by {
        covering_covers(before.segments@, o);
        covering_covers(after.segments@, o);
        match covering(before.segments@, o) {
            Some(i) => {
                assert(covers(after.segments@[i], o));
                only_one_covers(after.segments@, o, i);
            },
            None => {
                match covering(after.segments@, o) {
                    Some(i) => {
                        assert(covers(before.segments@[i], o));
                    },
                    None => {},
                }
            },
        }
    }
}

/// Of segments in a row, those that stay when all offsets up to `lowest` go are the last ones.
proof fn last_ones_are_kept(segments: Seq<Segment>, lowest: u64) -> (m: int)
    requires
        in_a_row(segments),
        segments.len() > 0 ==> segments.last().base_offset <= segments.last().next_offset,
    ensures
        0 <= m <= segments.len(),
        segments.filter(kept(lowest)) == segments.skip(m),
        forall|i: int| 0 <= i < m ==> dropped(lowest)(#[trigger] segments[i]),
        forall|i: int| m <= i < segments.len() ==> !dropped(lowest)(#[trigger] segments[i]),
    decreases segments.len(),
{
    reveal(Seq::filter);
    if segments.len() == 0 {
        assert(segments.skip(0) =~= segments);
        0
    } else {
        let n = segments.len() as int;
        let front = segments.drop_last();
        assert forall|i: int| 0 <= i < front.len() - 1 implies #[trigger] joined(front, i) by {
            assert(joined(segments, i));
        }
        if n > 1 {
            assert(segments[n - 2].base_offset < segments[n - 1].next_offset);
        }
        let m = last_ones_are_kept(front, lowest);
        assert forall|i: int| 0 <= i < n - 1 implies dropped(lowest)(#[trigger] segments[i]) == (i
            < m) by {
            assert(front[i] == segments[i]);
        }
        if dropped(lowest)(segments.last()) {
            if m < n - 1 {
                assert(!dropped(lowest)(front[m]));
                assert(segments[m].next_offset <= segments[n - 1].base_offset);
            }
            assert(segments.skip(n) =~= front.skip(m));
            n
        } else {
            assert(segments.skip(m) =~= front.skip(m).push(segments.last()));
            m
        }
    }
}

/// Truncating a consistent log leaves every record above `lowest` readable as it was. What was in a
/// segment that is gone is out of range. The log stays consistent where the segment that takes new
/// records stays.
pub proof fn truncate_keeps_what_is_above(before: Log, lowest: u64, after: Log)
    requires
        before.consistent(),
        after.wf(),
        after.dir == before.dir,
        after.config == before.config,
        after.segments@ == before.segments@.filter(kept(lowest)),
        after.files@ == before.files@.filter(
            outlives(base_offsets(before.segments@.filter(dropped(lowest)))),
        ),
    ensures
        forall|o: u64| lowest < o ==> #[trigger] after.stored(o) == before.stored(o),
        forall|o: u64|
            #[trigger] after.stored(o) == match covering(before.segments@, o) {
                Some(i) => if dropped(lowest)(before.segments@[i]) {
                    Err(ErrorView::OffsetOutOfRange(o))
                } else {
                    before.stored(o)
                },
                None => before.stored(o),
            },
        !dropped(lowest)(before.segments@.last()) && after.active_segment is Last
            ==> after.consistent(),
{
    let all = before.segments@;
    assert(all[all.len() - 1].consistent());
    let m = last_ones_are_kept(all, lowest);
    let rest = after.segments@;
    assert(in_a_row(rest)) by {
        assert forall|i: int| 0 <= i < rest.len() - 1 implies #[trigger] joined(rest, i) by {
            assert(joined(all, m + i));
        }
    }
    assert forall|o: u64|
        #[trigger] after.stored(o) == match covering(all, o) {
            Some(i) => if dropped(lowest)(all[i]) {
                Err(ErrorView::OffsetOutOfRange(o))
            } else {
                before.stored(o)
            },
            None => before.stored(o),
        } by {
        covering_covers(all, o);
        covering_covers(rest, o);
        match covering(rest, o) {
            Some(j) => {
                only_one_covers(all, o, m + j);
            },
            None => {
                match covering(all, o) {
                    Some(i) => {
                        if m <= i {
                            assert(covers(rest[i - m], o));
                        }
                    },
                    None => {},
                }
            },
        }
    }
    assert forall|o: u64| lowest < o implies #[trigger] after.stored(o) == before.stored(o) by {
        covering_covers(all, o);
    }
    if !dropped(lowest)(all.last()) && after.active_segment is Last {
        let gone = all.filter(dropped(lowest));
        assert(rest.last() == all.last());
        assert forall|base: u64| base > rest.last().base_offset implies #[trigger] unused(
            listing(after.files@),
            base,
        ) by {
            assert(unused(listing(before.files@), base));
            assert forall|i: int| 0 <= i < gone.len() implies #[trigger] base_offsets(gone)[i]
                < base by {
                assert(gone.contains(gone[i]));
                all.lemma_filter_contains_rev(dropped(lowest), gone[i]);
                let k = choose|k: int| 0 <= k < all.len() && all[k] == gone[i];
                if k < all.len() - 1 {
                    assert(all[k].next_offset <= all[all.len() - 1].base_offset);
                }
            }
            no_file_of(base_offsets(gone), base);
            other_files_are_irrelevant(
                before.files@,
                outlives(base_offsets(gone)),
                store_name(base),
            );
            other_files_are_irrelevant(
                before.files@,
                outlives(base_offsets(gone)),
                index_name(base),
            );
        }
    }
}

/// A later segment has none of the files of earlier ones.
proof fn no_file_of(bases: Seq<u64>, base: u64)
    requires
        forall|i: int| 0 <= i < bases.len() ==> #[trigger] bases[i] < base,
    ensures
        !belongs_to(store_name(base), bases),
        !belongs_to(index_name(base), bases),
{
    assert forall|i: int| 0 <= i < bases.len() implies {
        &&& store_name(base) != store_name(#[trigger] bases[i])
        &&& store_name(base) != index_name(bases[i])
        &&& index_name(base) != store_name(bases[i])
        &&& index_name(base) != index_name(bases[i])
    } by {
        names_differ(base, bases[i]);
        names_differ(bases[i], base);
    }
}

/// The files in the directory of a log, under their names there: those of the index and of the
/// store of each segment, with these contents of the index files.
pub open spec fn left_files(log: Log, indexes: Seq<Seq<u8>>) -> Seq<FileView> {
    Seq::new(
        2 * log.segments@.len(),
        |k: int|
            if k % 2 == 0 {
                FileView {
                    name: index_name(log.segments@[k / 2].base_offset),
                    contents: indexes[k / 2],
                }
            } else {
                FileView {
                    name: store_name(log.segments@[k / 2].base_offset),
                    contents: log.segments@[k / 2].store.bytes(),
                }
            },
    )
}

/// Whether the index files hold what the segments have written, each of them cut to that or not.
pub open spec fn all_leave(log: Log, indexes: Seq<Seq<u8>>) -> bool {
    &&& indexes.len() == log.segments@.len()
    &&& forall|i: int|
        0 <= i < log.segments@.len() ==> leaves(#[trigger] log.segments@[i], indexes[i])
}

/// Whether the index of every segment of the log fits into that of a log with these settings.
pub open spec fn fits(log: Log, config: Config) -> bool {
    &&& config.segment.max_index_bytes <= isize::MAX
    &&& forall|i: int|
        0 <= i < log.segments@.len() ==> {
            &&& (#[trigger] log.segments@[i]).index.size <= config.segment.max_index_bytes
            &&& log.segments@[i].index.size <= u32::MAX
        }
}

/// The index files of a consistent log hold what is written both where it was closed and where it
/// was not.
pub proof fn log_is_left_closed_or_not(log: Log)
    requires
        log.consistent(),
    ensures
        all_leave(
            log,
            Seq::new(log.segments@.len(), |i: int| log.segments@[i].index.contents()),
        ),
        all_leave(log, Seq::new(log.segments@.len(), |i: int| log.segments@[i].index.mmap@)),
{
    assert forall|i: int| 0 <= i < log.segments@.len() implies {
        &&& leaves(#[trigger] log.segments@[i], log.segments@[i].index.contents())
        &&& leaves(log.segments@[i], log.segments@[i].index.mmap@)
    } by {
        closed_or_not(log.segments@[i]);
    }
}

/// The files that a consistent log left are found again under their names, and give the offsets at
/// which its segments begin.
proof fn left_files_are_found(log: Log, indexes: Seq<Seq<u8>>, files: Seq<FileView>)
    requires
        log.consistent(),
        files.to_multiset() == left_files(log, indexes).to_multiset(),
    ensures
        segment_offsets(files) == base_offsets(log.segments@),
        forall|i: int|
            #![trigger log.segments@[i]]
            0 <= i < log.segments@.len() ==> {
                let segment = log.segments@[i];
                &&& contents_of(files, index_name(segment.base_offset)) == indexes[i]
                &&& contents_of(files, store_name(segment.base_offset)) == segment.store.bytes()
            },
        forall|base: u64|
            base > log.segments@.last().base_offset ==> #[trigger] unused(files, base),
{
    let segments = log.segments@;
    let n = segments.len() as int;
    let left = left_files(log, indexes);
    let bases = base_offsets(segments);
    let doubled = Seq::new((2 * n) as nat, |k: int| bases[k / 2]);
    assert forall|k: int| 0 <= k < left.len() implies offset_in(left[k].name) == Some(
        #[trigger] doubled[k],
    ) by {
        name_gives_offset(bases[k / 2]);
    }
    all_names_hold_offsets(left, doubled);
    file_order_is_irrelevant(files, left);
    assert forall|i: int, j: int| 0 <= i < j < n implies #[trigger] bases[i]
        < #[trigger] bases[j] by {
        assert(segments[i].next_offset <= segments[j].base_offset);
    }
    sorting_is_unique(named_offsets(files), doubled);
    assert(every_second(doubled) =~= bases);
    files.to_multiset_ensures();
    left.to_multiset_ensures();
    assert forall|file: FileView| #[trigger] files.contains(file) <==> left.contains(file) by {
        assert(files.to_multiset().count(file) == left.to_multiset().count(file));
    }
    assert forall|i: int| #![trigger segments[i]] 0 <= i < n implies {
        &&& contents_of(files, index_name(segments[i].base_offset)) == indexes[i]
        &&& contents_of(files, store_name(segments[i].base_offset)) == segments[i].store.bytes()
    } by {
        assert(left[2 * i].name == index_name(segments[i].base_offset));
        assert(left[2 * i + 1].name == store_name(segments[i].base_offset));
        left_file_is_only_one(log, indexes, left[2 * i], 2 * i);
        left_file_is_only_one(log, indexes, left[2 * i + 1], 2 * i + 1);
        named_file_is_found(files, left[2 * i]);
        named_file_is_found(files, left[2 * i + 1]);
    }
    assert forall|base: u64| base > segments.last().base_offset implies #[trigger] unused(
        files,
        base,
    ) by {
        assert forall|k: int| 0 <= k < files.len() implies {
            &&& (#[trigger] files[k]).name != store_name(base)
            &&& files[k].name != index_name(base)
        } by {
            assert(files.contains(files[k]));
            assert(left.contains(files[k]));
            let j = choose|j: int| 0 <= j < left.len() && left[j] == files[k];
            names_differ(base, bases[j / 2]);
            names_differ(bases[j / 2], base);
            assert(bases[j / 2] <= bases[n - 1]);
        }
        missing_file_is_empty(files, store_name(base));
        missing_file_is_empty(files, index_name(base));
    }
}

/// No two of the files that a consistent log left have the same name.
proof fn left_file_is_only_one(log: Log, indexes: Seq<Seq<u8>>, file: FileView, k: int)
    requires
        log.consistent(),
        0 <= k < left_files(log, indexes).len(),
        file == left_files(log, indexes)[k],
    ensures
        forall|other: FileView|
            #[trigger] left_files(log, indexes).contains(other) && other.name == file.name
                ==> other == file,
{
    let left = left_files(log, indexes);
    let segments = log.segments@;
    assert forall|other: FileView|
        #[trigger] left.contains(other) && other.name == file.name implies other == file by {
        let j = choose|j: int| 0 <= j < left.len() && left[j] == other;
        names_differ(segments[k / 2].base_offset, segments[j / 2].base_offset);
        names_differ(segments[j / 2].base_offset, segments[k / 2].base_offset);
        if j / 2 < k / 2 {
            assert(segments[j / 2].next_offset <= segments[k / 2].base_offset);
        } else if k / 2 < j / 2 {
            assert(segments[k / 2].next_offset <= segments[j / 2].base_offset);
        }
    }
}

/// A log can be set up on the files that a consistent one left, closed or not, in whatever order
/// they are listed.
pub proof fn left_log_opens(
    before: Log,
    indexes: Seq<Seq<u8>>,
    files: Seq<FileView>,
    config: Config,
)
    requires
        before.consistent(),
        fits(before, effective(config)),
        all_leave(before, indexes),
        files.to_multiset() == left_files(before, indexes).to_multiset(),
    ensures
        can_set_up(files, true, effective(config)),
{
    left_files_are_found(before, indexes, files);
    let bases = offsets_to_open(files, true, effective(config));
    assert forall|i: int| 0 <= i < bases.len() implies can_open_on(
        files,
        #[trigger] bases[i],
        effective(config),
    ) by {
        assert(leaves(before.segments@[i], indexes[i]));
        left_files_are_openable(before.segments@[i], indexes[i], effective(config));
    }
}

/// A log that is set up on the files that a consistent one left, closed or not, has segments that
/// begin and end where those did, and every read gives what it gave before. It is consistent again,
/// unless its indexes had no room for any entry before and have it now.
pub proof fn reopened_log_is_same(
    before: Log,
    indexes: Seq<Seq<u8>>,
    files: Seq<FileView>,
    config: Config,
    after: Log,
)
    requires
        before.consistent(),
        fits(before, effective(config)),
        all_leave(before, indexes),
        files.to_multiset() == left_files(before, indexes).to_multiset(),
        after.started(before.dir@, config, files),
    ensures
        before.config.segment.max_index_bytes >= ENT_WIDTH || effective(
            config,
        ).segment.max_index_bytes < ENT_WIDTH ==> after.consistent(),
        base_offsets(after.segments@) == base_offsets(before.segments@),
        forall|i: int|
            0 <= i < before.segments@.len() ==> (#[trigger] after.segments@[i]).next_offset
                == before.segments@[i].next_offset,
        after.end() == before.end(),
        forall|o: u64| #[trigger] after.stored(o) == before.stored(o),
{
    let n = before.segments@.len() as int;
    let bases = offsets_to_open(files, true, effective(config));
    left_files_are_found(before, indexes, files);
    assert forall|i: int| #![trigger after.segments@[i]] 0 <= i < n implies {
        &&& before.config.segment.max_index_bytes >= ENT_WIDTH || effective(
            config,
        ).segment.max_index_bytes < ENT_WIDTH ==> after.segments@[i].consistent()
        &&& after.segments@[i].base_offset == before.segments@[i].base_offset
        &&& after.segments@[i].next_offset == before.segments@[i].next_offset
        &&& after.segments@[i].index.mmap@.len() == effective(config).segment.max_index_bytes
        &&& forall|o: u64|
            covers(before.segments@[i], o) ==> #[trigger] after.segments@[i].stored(o)
                == before.segments@[i].stored(o)
    } by {
        assert(leaves(before.segments@[i], indexes[i]));
        assert(opened_on(
            before.dir@,
            files,
            bases[i],
            effective(config),
            after.segments@[i],
        ));
        reopened_segment_is_same(
            before.dir@,
            before.segments@[i],
            indexes[i],
            effective(config),
            after.segments@[i],
        );
    }
    assert(base_offsets(after.segments@) =~= base_offsets(before.segments@));
    assert forall|i: int| 0 <= i < n - 1 implies #[trigger] joined(after.segments@, i) by {
        assert(joined(before.segments@, i));
    }
    assert(in_a_row(after.segments@));
    assert forall|o: u64| #[trigger] after.stored(o) == before.stored(o) by {
        covering_covers(before.segments@, o);
        covering_covers(after.segments@, o);
        match covering(before.segments@, o) {
            Some(i) => {
                assert(covers(after.segments@[i], o));
                only_one_covers(after.segments@, o, i);
            },
            None => {
                match covering(after.segments@, o) {
                    Some(i) => {
                        assert(covers(before.segments@[i], o));
                    },
                    None => {},
                }
            },
        }
    }
}

/// A limit that is not zero is kept as it is, and one that is zero becomes 1024. The first offset
/// is kept too.
pub proof fn limits_are_kept_unless_zero(config: Config)
    ensures
        config.segment.max_store_bytes != 0 ==> effective(config).segment.max_store_bytes
            == config.segment.max_store_bytes,
        config.segment.max_index_bytes != 0 ==> effective(config).segment.max_index_bytes
            == config.segment.max_index_bytes,
        config.segment.max_store_bytes == 0 ==> effective(config).segment.max_store_bytes == 1024,
        config.segment.max_index_bytes == 0 ==> effective(config).segment.max_index_bytes == 1024,
        effective(config).segment.initial_offset == config.segment.initial_offset,
{
}

/// A log that is set up has the limits that it is given, unless they are zero, and so has every one
/// of its segments.
pub proof fn started_log_has_its_limits(
    log: Log,
    dir: Seq<char>,
    config: Config,
    files: Seq<FileView>,
)
    requires
        log.started(dir, config, files),
    ensures
        config.segment.max_store_bytes != 0 ==> log.config.segment.max_store_bytes
            == config.segment.max_store_bytes,
        config.segment.max_index_bytes != 0 ==> log.config.segment.max_index_bytes
            == config.segment.max_index_bytes,
        config.segment.max_store_bytes == 0 ==> log.config.segment.max_store_bytes == 1024,
        config.segment.max_index_bytes == 0 ==> log.config.segment.max_index_bytes == 1024,
        log.config.segment.initial_offset == config.segment.initial_offset,
        log.dir@ == dir,
        log.active_segment is Last,
        base_offsets(log.segments@) == offsets_to_open(files, true, log.config),
        forall|i: int|
            #![trigger log.segments@[i]]
            0 <= i < log.segments@.len() ==> log.segments@[i].config == log.config
                && log.segments@[i].index.mmap@.len() == log.config.segment.max_index_bytes,
{
    let bases = offsets_to_open(files, true, effective(config));
    assert forall|i: int| #![trigger log.segments@[i]] 0 <= i < log.segments@.len() implies
        log.segments@[i].config == log.config && log.segments@[i].index.mmap@.len()
        == log.config.segment.max_index_bytes by {
        assert(opened_on(dir, files, bases[i], log.config, log.segments@[i]));
    }
    assert forall|i: int| 0 <= i < log.segments@.len() implies #[trigger] base_offsets(
        log.segments@,
    )[i] == bases[i] by {
        assert(opened_on(dir, files, bases[i], log.config, log.segments@[i]));
    }
    assert(base_offsets(log.segments@) =~= bases);
}

/// The segments that a log keeps have its limits after an append, where they had them before.
pub proof fn appends_keep_the_limits(
    before: Log,
    value: Seq<u8>,
    result: Result<u64, ErrorView>,
    after: Log,
)
    requires
        before.appended(value, result, &after),
        before.active_segment is Last,
        before.segments@.len() > 0,
        forall|i: int|
            0 <= i < before.segments@.len() ==> (#[trigger] before.segments@[i]).config
                == before.config,
    ensures
        after.config == before.config,
        after.dir == before.dir,
        after.files == before.files,
        forall|i: int|
            0 <= i < after.segments@.len() ==> (#[trigger] after.segments@[i]).config
                == after.config,
{
    let n = before.segments@.len() as int;
    assert forall|i: int| 0 <= i < after.segments@.len() implies (
    #[trigger] after.segments@[i]).config == after.config by {
        if i < n - 1 {
            assert(after.segments@.take(n - 1)[i] == before.segments@.take(n - 1)[i]);
            assert(before.segments@[i].config == before.config);
        } else if i == n - 1 {
            assert(before.segments@[n - 1].config == before.config);
        }
    }
}

/// An append to a consistent log succeeds, and gives the offset after the last one, exactly as long
/// as twelve bytes for each record of the last segment and twelve more are within the limit of the
/// index. Else there is no room for it.
pub proof fn log_append_succeeds_while_the_index_lasts(
    before: Log,
    value: Seq<u8>,
    result: Result<u64, ErrorView>,
    after: Log,
)
    requires
        before.consistent(),
        before.appended(value, result, &after),
    ensures
        ({
            let last = before.segments@[before.segments@.len() - 1];
            let needed = 12 * (last.next_offset - last.base_offset) + 12;
            &&& needed <= before.config.segment.max_index_bytes ==> result == Ok::<u64, ErrorView>(
                last.next_offset,
            )
            &&& needed > before.config.segment.max_index_bytes ==> result == Err::<u64, ErrorView>(
                ErrorView::UnexpectedEof,
            )
        }),
{
    assert(before.segments@[before.segments@.len() - 1].consistent());
}

/// After an append that succeeds the log has one segment more exactly where the segment that took
/// the record has reached one of its limits by it. That one begins at the offset that follows, and
/// takes the next record; all other segments are as they were.
pub proof fn log_rolls_at_the_limits(before: Log, value: Seq<u8>, off: u64, after: Log)
    requires
        before.appended(value, Ok(off), &after),
        before.active_segment is Last,
        before.segments@.len() > 0,
        before.segments@.last().store.size == before.segments@.last().store.file.contents@.len(),
        off < u64::MAX,
        record_json(RecordView { value, offset: before.segments@.last().next_offset }).len()
            <= u64::MAX,
    ensures
        ({
            let n = before.segments@.len() as int;
            let then = after.segments@[n - 1];
            &&& after.segments@.len() == n || after.segments@.len() == n + 1
            &&& after.segments@.len() == n + 1 <==> then.store.file.contents@.len()
                >= then.config.segment.max_store_bytes || then.index.size
                >= then.config.segment.max_index_bytes
            &&& after.segments@.len() == n + 1 ==> after.segments@[n].base_offset == off + 1
                && after.segments@[n].config == before.config && before.opens(
                (off + 1) as u64,
                after.segments@[n],
            )
            &&& then.config == before.segments@[n - 1].config
            &&& then.base_offset == before.segments@[n - 1].base_offset
            &&& then.next_offset == off + 1
            &&& after.active_segment is Last
            &&& forall|i: int|
                0 <= i < n - 1 ==> #[trigger] after.segments@[i] == before.segments@[i]
        }),
{
    let n = before.segments@.len() as int;
    let segment = before.segments@[n - 1];
    append_adds_to_the_store(segment, value, after.segments@[n - 1]);
    frame_is_length_and_record(record_json(segment.next_record(value)));
    assert forall|i: int| 0 <= i < n - 1 implies #[trigger] after.segments@[i]
        == before.segments@[i] by {
        assert(after.segments@.take(n - 1)[i] == before.segments@.take(n - 1)[i]);
    }
}

/// A log without a segment for new records takes none, and stays as it is.
pub proof fn log_without_active_segment_takes_nothing(
    before: Log,
    value: Seq<u8>,
    result: Result<u64, ErrorView>,
    after: Log,
)
    requires
        before.active_segment is Missing,
        before.appended(value, result, &after),
    ensures
        result == Err::<u64, ErrorView>(ErrorView::NoActiveSegment),
        after == before,
{
}

/// An append to a segment that the log has dropped gives the offset after the last one of that
/// segment, where its index has twelve bytes left. None of the segments of the log changes, and
/// one is added exactly where the record fills the other, at the offset that follows.
pub proof fn dropped_segment_takes_records(
    before: Log,
    segment: Segment,
    value: Seq<u8>,
    result: Result<u64, ErrorView>,
    after: Log,
)
    requires
        before.active_segment == ActiveSegment::Detached(segment),
        before.appended(value, result, &after),
        segment.next_offset < u64::MAX,
        record_json(RecordView { value, offset: segment.next_offset }).len() <= u64::MAX,
    ensures
        ({
            let n = before.segments@.len() as int;
            let p = record_json(RecordView { value, offset: segment.next_offset });
            let room = segment.index.mmap@.len() - segment.index.size >= 12;
            let full = segment.store.size + 8 + p.len() >= segment.config.segment.max_store_bytes
                || segment.index.size + 12 >= segment.config.segment.max_index_bytes;
            &&& room ==> result == Ok::<u64, ErrorView>(segment.next_offset)
            &&& !room ==> result == Err::<u64, ErrorView>(ErrorView::UnexpectedEof)
            &&& after.segments@.len() == if room && full {
                n + 1
            } else {
                n
            }
            &&& room && full ==> after.active_segment is Last && after.segments@[n].base_offset
                == segment.next_offset + 1 && before.opens(
                (segment.next_offset + 1) as u64,
                after.segments@[n],
            )
            &&& after.config == before.config && after.dir == before.dir && after.files
                == before.files
            &&& !(room && full) ==> (after.active_segment matches ActiveSegment::Detached(then)
                && then.base_offset == segment.base_offset && then.next_offset == if room {
                segment.next_offset + 1
            } else {
                segment.next_offset as int
            } && then.store.file.contents@.len() == segment.store.file.contents@.len() + 8 + p.len()
                && then.store.file.contents@.take(segment.store.file.contents@.len() as int)
                == segment.store.file.contents@ && then.store.file.contents@.skip(
                segment.store.file.contents@.len() as int + 8,
            ) == p)
            &&& forall|i: int| 0 <= i < n ==> #[trigger] after.segments@[i] == before.segments@[i]
        }),
{
    let n = before.segments@.len() as int;
    let p = record_json(segment.next_record(value));
    frame_is_length_and_record(p);
    match after.active_segment {
        ActiveSegment::Detached(then) => {
            append_adds_to_the_store(segment, value, then);
        },
        _ => {},
    }
    assert forall|i: int| 0 <= i < n implies #[trigger] after.segments@[i]
        == before.segments@[i] by {
        assert(after.segments@.take(n)[i] == before.segments@.take(n)[i]);
    }
}

/// A read goes to the last of the segments that have the offset between the one they begin at and
/// the one they go on with, and is out of range where no segment has it.
pub proof fn read_goes_to_the_last_segment(log: Log, off: u64, i: int)
    requires
        -1 <= i < log.segments@.len(),
        i >= 0 ==> log.segments@[i].base_offset <= off < log.segments@[i].next_offset,
        forall|j: int|
            i < j < log.segments@.len() ==> !((#[trigger] log.segments@[j]).base_offset <= off
                && off < log.segments@[j].next_offset),
    ensures
        i >= 0 ==> log.stored(off) == log.segments@[i].stored(off),
        i < 0 ==> log.stored(off) == Err::<RecordView, ErrorView>(
            ErrorView::OffsetOutOfRange(off),
        ),
        i >= 0 ==> (log.can_read(off) <==> log.segments@[i].can_read(off)),
        i < 0 ==> log.can_read(off),
{
    if i >= 0 {
        covering_is(log.segments@, off, i);
    } else {
        covering_covers(log.segments@, off);
    }
}

/// Truncating drops every segment that goes on with an offset no further than the one after
/// `lowest`, and keeps every other one, each as often as it was there.
pub proof fn truncate_drops_by_offset(segments: Seq<Segment>, lowest: u64)
    ensures
        forall|i: int|
            0 <= i < segments.filter(kept(lowest)).len() ==> (#[trigger] segments.filter(
                kept(lowest),
            )[i]).next_offset > lowest + 1,
        forall|i: int|
            0 <= i < segments.filter(dropped(lowest)).len() ==> (#[trigger] segments.filter(
                dropped(lowest),
            )[i]).next_offset <= lowest + 1,
        forall|i: int|
            0 <= i < segments.len() && (#[trigger] segments[i]).next_offset > lowest + 1
                ==> segments.filter(kept(lowest)).contains(segments[i]),
        forall|i: int|
            0 <= i < segments.len() && (#[trigger] segments[i]).next_offset <= lowest + 1
                ==> segments.filter(dropped(lowest)).contains(segments[i]),
        segments.filter(kept(lowest)).len() + segments.filter(dropped(lowest)).len()
            == segments.len(),
    decreases segments.len(),
{
    reveal(Seq::filter);
    let rest = segments.filter(kept(lowest));
    let gone = segments.filter(dropped(lowest));
    if segments.len() > 0 {
        truncate_drops_by_offset(segments.drop_last(), lowest);
    }
    assert forall|i: int| 0 <= i < rest.len() implies (#[trigger] rest[i]).next_offset > lowest
        + 1 by {
        segments.lemma_filter_pred(kept(lowest), i);
    }
    assert forall|i: int| 0 <= i < gone.len() implies (#[trigger] gone[i]).next_offset <= lowest
        + 1 by {
        segments.lemma_filter_pred(dropped(lowest), i);
    }
    assert forall|i: int|
        0 <= i < segments.len() && (#[trigger] segments[i]).next_offset > lowest + 1 implies
        rest.contains(segments[i]) by {
        segments.lemma_filter_contains(kept(lowest), i);
    }
    assert forall|i: int|
        0 <= i < segments.len() && (#[trigger] segments[i]).next_offset <= lowest + 1 implies
        gone.contains(segments[i]) by {
        segments.lemma_filter_contains(dropped(lowest), i);
    }
}

/// In a consistent log that is truncated, every offset of a segment all of whose offsets are no
/// larger than `lowest` is out of range, and every offset of another segment reads as it did.
pub proof fn truncated_offsets_are_out_of_range(
    before: Log,
    lowest: u64,
    after: Log,
    i: int,
    off: u64,
)
    requires
        before.consistent(),
        after.segments@ == before.segments@.filter(kept(lowest)),
        0 <= i < before.segments@.len(),
        before.segments@[i].base_offset <= off < before.segments@[i].next_offset,
    ensures
        before.segments@[i].next_offset - 1 <= lowest ==> after.stored(off) == Err::<
            RecordView,
            ErrorView,
        >(ErrorView::OffsetOutOfRange(off)),
        before.segments@[i].next_offset - 1 > lowest ==> after.stored(off) == before.stored(off),
        lowest < off ==> after.stored(off) == before.stored(off),
{
    let all = before.segments@;
    let rest = after.segments@;
    assert(all[all.len() - 1].consistent());
    let m = last_ones_are_kept(all, lowest);
    only_one_covers(all, off, i);
    covering_covers(rest, off);
    match covering(rest, off) {
        Some(j) => {
            assert(rest[j] == all[m + j]);
            only_one_covers(all, off, m + j);
        },
        None => {
            if m <= i {
                assert(covers(rest[i - m], off));
            }
        },
    }
}

/// A file is forgotten with the segments that go exactly where it is the store or the index of one
/// of them.
pub proof fn files_go_with_their_segments(files: Seq<FileImage>, gone: Seq<Segment>, k: int)
    requires
        0 <= k < files.len(),
    ensures
        (exists|i: int|
            #![trigger gone[i]]
            0 <= i < gone.len() && (files[k].name@ == decimal(gone[i].base_offset as nat)
                + ".store"@ || files[k].name@ == decimal(gone[i].base_offset as nat) + ".index"@))
            <==> !files.filter(outlives(base_offsets(gone))).contains(files[k]),
{
    let stays = outlives(base_offsets(gone));
    let bases = base_offsets(gone);
    if belongs_to(files[k].name@, bases) {
        let i = choose|i: int|
            0 <= i < bases.len() && (files[k].name@ == store_name(#[trigger] bases[i])
                || files[k].name@ == index_name(bases[i]));
        assert(gone[i].base_offset == bases[i]);
        if files.filter(stays).contains(files[k]) {
            let j = choose|j: int|
                0 <= j < files.filter(stays).len() && files.filter(stays)[j] == files[k];
            files.lemma_filter_pred(stays, j);
        }
    } else {
        files.lemma_filter_contains(stays, k);
        assert forall|i: int| #![trigger gone[i]] 0 <= i < gone.len() implies !(files[k].name@
            == decimal(gone[i].base_offset as nat) + ".store"@ || files[k].name@ == decimal(
            gone[i].base_offset as nat,
        ) + ".index"@) by {
            assert(bases[i] == gone[i].base_offset);
        }
    }
}

/// A segment that is opened where another one is open has what the last of those has written.
pub proof fn segment_opens_on_what_is_written(log: Log, base_offset: u64, i: int, segment: Segment)
    requires
        0 <= i < log.segments@.len(),
        log.segments@[i].base_offset == base_offset,
        forall|j: int|
            i < j < log.segments@.len() ==> (#[trigger] log.segments@[j]).base_offset
                != base_offset,
        log.opens(base_offset, segment),
    ensures
        segment.base_offset == base_offset,
        segment.config == log.config,
        segment.store.file.contents@ == log.segments@[i].store.file.contents@,
        forall|k: int|
            0 <= k < log.segments@[i].index.size && k < log.segments@[i].index.mmap@.len() && k
                < log.config.segment.max_index_bytes ==> #[trigger] segment.index.mmap@[k]
                == log.segments@[i].index.mmap@[k],
{
    last_at_is(log.segments@, base_offset, i);
}

/// A segment that is opened where none is open has what its files held when the log was set up.
pub proof fn segment_opens_on_its_files(log: Log, base_offset: u64, segment: Segment)
    requires
        forall|j: int|
            0 <= j < log.segments@.len() ==> (#[trigger] log.segments@[j]).base_offset
                != base_offset,
        log.opens(base_offset, segment),
    ensures
        segment.base_offset == base_offset,
        segment.config == log.config,
        segment.store.file.contents@ == contents_of(
            listing(log.files@),
            decimal(base_offset as nat) + ".store"@,
        ),
{
    last_at_begins(log.segments@, base_offset);
    match last_at(log.segments@, base_offset) {
        Some(i) => {
            assert(log.segments@[i].base_offset != base_offset);
        },
        None => {},
    }
}

/// The last segment that begins at an offset, where those behind it do not, is the one that counts.
proof fn last_at_is(segments: Seq<Segment>, base_offset: u64, i: int)
    requires
        0 <= i < segments.len(),
        segments[i].base_offset == base_offset,
        forall|j: int|
            i < j < segments.len() ==> (#[trigger] segments[j]).base_offset != base_offset,
    ensures
        last_at(segments, base_offset) == Some(i),
    decreases segments.len(),
{
    if i < segments.len() - 1 {
        assert(segments[segments.len() - 1].base_offset != base_offset);
        last_at_is(segments.drop_last(), base_offset, i);
    }
}

/// A log without segments that is set up on files whose names hold no offset has one segment, at
/// the offset that its settings say. On others there is one for every two offsets in their names.
pub proof fn set_up_segments(files: Seq<FileView>, empty: bool, config: Config)
    ensures
        empty && named_offsets(files).len() == 0 ==> offsets_to_open(files, empty, config) == seq![
            config.segment.initial_offset,
        ],
        !empty || named_offsets(files).len() > 0 ==> offsets_to_open(files, empty, config).len()
            == (named_offsets(files).len() + 1) / 2,
        forall|i: int|
            0 <= i < offsets_to_open(files, empty, config).len() && named_offsets(files).len() > 0
                ==> named_offsets(files).contains(
                #[trigger] offsets_to_open(files, empty, config)[i],
            ),
{
    segments_are_every_second_offset(files);
}

/// A consistent log takes every record, as long as there are offsets left, and can be asked for
/// every offset.
pub proof fn consistent_log_takes_every_request(log: Log, record: RecordView, off: u64)
    requires
        log.consistent(),
        log.segments@.last().next_offset < u64::MAX,
    ensures
        log.takes(record),
        log.looks_up(off),
{
    log_takes_records(log, record.value);
    log_stores_its_offsets(log, off);
}

/// A read of a log gives what is stored at the offset, and an append does what it does to the log,
/// whatever offset the record comes with; reading changes nothing.
pub proof fn requests_are_for_the_log_itself(
    log: Log,
    off: u64,
    read: Result<RecordView, ErrorView>,
    record: RecordView,
    given: Result<u64, ErrorView>,
    after: Log,
)
    ensures
        log.reads(off, read, &after) ==> read == log.stored(off) && after == log,
        log.appends(record, given, &after) ==> log.appended(record.value, given, &after),
{
}

} // verus!
