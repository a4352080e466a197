//! The log: segments of stored records, of which the last one takes new records.
pub mod config;
pub mod file;
pub mod index;
pub mod laws;
pub mod names;
pub mod offsets;
pub mod reader;
pub mod segment;
pub mod store;

use crate::bytes::be_bytes_len;
use crate::error::{ErrorView, LogError};
use crate::record::{encode_record, record_json, Record, RecordView};
use crate::server::commit::CommitLog;
use config::Config;
use laws::log_stores_its_offsets;
use file::{contents_of, listing, read_file, FileImage, FileView};
use names::{index_file_name, index_name, store_file_name, store_name};
use offsets::{find_segments, segment_offsets};
use reader::{MultiReader, OriginReader};
use segment::{can_open, openable, opened, Segment};
use store::frame;
use vstd::prelude::*;

verus! {

/// Which segment takes new records.
pub enum ActiveSegment {
    /// There is none.
    Missing,
    /// The last one of the log.
    Last,
    /// One that the log has dropped since.
    Detached(Segment),
}

/// A log in a directory.
pub struct Log {
    pub dir: String,
    pub config: Config,
    /// The files of the directory, as they were when the log was set up.
    pub files: Vec<FileImage>,
    pub segments: Vec<Segment>,
    pub active_segment: ActiveSegment,
}

/// A limit that is zero stands for this one.
pub const DEFAULT_MAX_BYTES: u64 = 1024;

/// The settings with the limits in place that stand for zeros.
pub open spec fn effective(config: Config) -> Config {
    Config {
        segment: config::SegmentConfig {
            max_store_bytes: if config.segment.max_store_bytes == 0 {
                DEFAULT_MAX_BYTES
            } else {
                config.segment.max_store_bytes
            },
            max_index_bytes: if config.segment.max_index_bytes == 0 {
                DEFAULT_MAX_BYTES
            } else {
                config.segment.max_index_bytes
            },
            initial_offset: config.segment.initial_offset,
        },
    }
}

/// Where the segments begin that a log opens on these files: those that the files belong to, or a
/// new one where there are none.
pub open spec fn offsets_to_open(files: Seq<FileView>, empty: bool, config: Config) -> Seq<u64> {
    let found = segment_offsets(files);
    if empty && found.len() == 0 {
        seq![config.segment.initial_offset]
    } else {
        found
    }
}

/// Whether a segment can be opened on what these files hold.
pub open spec fn can_open_on(files: Seq<FileView>, base_offset: u64, config: Config) -> bool {
    openable(
        contents_of(files, store_name(base_offset)),
        contents_of(files, index_name(base_offset)),
        base_offset,
        config,
    )
}

/// Whether `segment` is what opening it on these files gives.
pub open spec fn opened_on(
    dir: Seq<char>,
    files: Seq<FileView>,
    base_offset: u64,
    config: Config,
    segment: Segment,
) -> bool {
    opened(
        dir,
        base_offset,
        config,
        contents_of(files, store_name(base_offset)),
        contents_of(files, index_name(base_offset)),
        segment,
    )
}

/// The last of the segments that begins at this offset.
pub open spec fn last_at(segments: Seq<Segment>, base_offset: u64) -> Option<int>
    decreases segments.len(),
{
    if segments.len() == 0 {
        None
    } else if segments.last().base_offset == base_offset {
        Some(segments.len() - 1)
    } else {
        last_at(segments.drop_last(), base_offset)
    }
}

/// Whether a log can be set up on these files: each of the segments can be opened.
pub open spec fn can_set_up(files: Seq<FileView>, empty: bool, config: Config) -> bool {
    forall|i: int|
        0 <= i < offsets_to_open(files, empty, config).len() ==> can_open_on(
            files,
            #[trigger] offsets_to_open(files, empty, config)[i],
            config,
        )
}

/// The last of the segments that has an offset between its base and its next.
pub open spec fn covering(segments: Seq<Segment>, off: u64) -> Option<int>
    decreases segments.len(),
{
    if segments.len() == 0 {
        None
    } else if segments.last().base_offset <= off < segments.last().next_offset {
        Some(segments.len() - 1)
    } else {
        covering(segments.drop_last(), off)
    }
}

/// Whether a segment goes when all offsets up to `lowest` do.
pub open spec fn dropped(lowest: u64) -> spec_fn(Segment) -> bool {
    |segment: Segment| segment.next_offset <= lowest + 1
}

/// Whether a segment stays when all offsets up to `lowest` go.
pub open spec fn kept(lowest: u64) -> spec_fn(Segment) -> bool {
    |segment: Segment| !(segment.next_offset <= lowest + 1)
}

/// Where these segments begin.
pub open spec fn base_offsets(segments: Seq<Segment>) -> Seq<u64> {
    Seq::new(segments.len(), |i: int| segments[i].base_offset)
}

/// Whether a file of this name belongs to one of the segments that begin at these offsets.
pub open spec fn belongs_to(name: Seq<char>, bases: Seq<u64>) -> bool {
    exists|i: int|
        0 <= i < bases.len() && (name == store_name(#[trigger] bases[i]) || name == index_name(
            bases[i],
        ))
}

/// Whether a file stays when the segments that begin at these offsets go.
pub open spec fn outlives(bases: Seq<u64>) -> spec_fn(FileImage) -> bool {
    |file: FileImage| !belongs_to(file.name@, bases)
}

/// The settings with the limits in place that stand for zeros.
pub fn with_defaults(config: Config) -> (result: Config)
    ensures
        result == effective(config),
        config.segment.max_store_bytes != 0 ==> result.segment.max_store_bytes
            == config.segment.max_store_bytes,
        config.segment.max_index_bytes != 0 ==> result.segment.max_index_bytes
            == config.segment.max_index_bytes,
        config.segment.max_store_bytes == 0 ==> result.segment.max_store_bytes == 1024,
        config.segment.max_index_bytes == 0 ==> result.segment.max_index_bytes == 1024,
        result.segment.initial_offset == config.segment.initial_offset,
{
    let mut config = config;
    if config.segment.max_store_bytes == 0 {
        config.segment.max_store_bytes = DEFAULT_MAX_BYTES;
    }
    if config.segment.max_index_bytes == 0 {
        config.segment.max_index_bytes = DEFAULT_MAX_BYTES;
    }
    config
}

/// Whether a file of this name belongs to one of the segments that begin at these offsets.
fn is_file_of(name: &String, bases: &Vec<u64>) -> (yes: bool)
    ensures
        yes == belongs_to(name@, bases@),
{
    let n: usize = bases.len();
    let mut i: usize = 0;
    while i < n
        invariant
            i <= n == bases@.len(),
            forall|j: int|
                0 <= j < i ==> name@ != store_name(#[trigger] bases@[j]) && name@ != index_name(
                    bases@[j],
                ),
        decreases n - i,
    {
        if *name == store_file_name(bases[i]) || *name == index_file_name(bases[i]) {
            return true;
        }
        i += 1;
    }
    false
}

/// The files that stay when the segments that begin at these offsets go.
fn without_files_of(files: Vec<FileImage>, bases: &Vec<u64>) -> (rest: Vec<FileImage>)
    ensures
        rest@ == files@.filter(outlives(bases@)),
{
    let ghost all = files@;
    let mut rest: Vec<FileImage> = Vec::new();
    assert(all.take(0).filter(outlives(bases@)) =~= Seq::<FileImage>::empty()) by {
        reveal(Seq::filter);
    }
    for file in it: files
        invariant
            it.seq() == all,
            rest@ == all.take(it.index() as int).filter(outlives(bases@)),
    {
        let ghost i = it.index() as int;
        assert(file == all[i]);
        assert(all.take(i + 1).drop_last() =~= all.take(i));
        assert(all.take(i + 1).last() == file);
        proof {
            reveal(Seq::filter);
        }
        if !is_file_of(&file.name, bases) {
            rest.push(file);
        }
    }
    assert(all.take(all.len() as int) =~= all);
    rest
}

/// Whether a segment can be opened on what these files hold.
pub fn segment_opens(files: &Vec<FileImage>, base_offset: u64, config: Config) -> (yes: bool)
    ensures
        yes == can_open_on(listing(files@), base_offset, config),
{
    can_open(
        &read_file(files, &store_file_name(base_offset)),
        &read_file(files, &index_file_name(base_offset)),
        base_offset,
        config,
    )
}

/// Whether a log without segments can be set up on these files.
pub fn files_open(files: &Vec<FileImage>, config: Config) -> (yes: bool)
    ensures
        yes == can_set_up(listing(files@), true, config),
{
    let ghost bases = offsets_to_open(listing(files@), true, config);
    let found = find_segments(files);
    let n: usize = found.len();
    if n == 0 {
        assert(bases[0] == config.segment.initial_offset);
        return segment_opens(files, config.segment.initial_offset, config);
    }
    let mut i: usize = 0;
    while i < n
        invariant
            i <= n == found@.len(),
            found@ == bases,
            bases == offsets_to_open(listing(files@), true, config),
            forall|j: int|
                0 <= j < i ==> can_open_on(listing(files@), #[trigger] bases[j], config),
        decreases n - i,
    {
        if !segment_opens(files, found[i], config) {
            assert(!can_open_on(listing(files@), bases[i as int], config));
            return false;
        }
        i += 1;
    }
    true
}

impl Log {
    /// The segment that takes new records.
    pub open spec fn active(&self) -> Option<Segment> {
        match self.active_segment {
            ActiveSegment::Missing => None,
            ActiveSegment::Last => Some(self.segments@.last()),
            ActiveSegment::Detached(segment) => Some(segment),
        }
    }

    /// Every segment has its whole store and does not end before it begins, and there is a last
    /// one where that takes new records.
    pub open spec fn wf(&self) -> bool {
        &&& forall|i: int|
            0 <= i < self.segments@.len() ==> (#[trigger] self.segments@[i]).store.wf()
                && self.segments@[i].base_offset <= self.segments@[i].next_offset
        &&& self.active_segment is Last ==> self.segments@.len() > 0
        &&& self.active_segment matches ActiveSegment::Detached(segment) ==> segment.store.wf()
            && segment.base_offset <= segment.next_offset
    }

    /// What the store file of the segment that begins at `base_offset` holds: what an open segment
    /// has written, or else what the file held when the log was set up.
    pub open spec fn store_bytes(&self, base_offset: u64) -> Seq<u8> {
        match last_at(self.segments@, base_offset) {
            Some(i) => self.segments@[i].store.bytes(),
            None => contents_of(listing(self.files@), store_name(base_offset)),
        }
    }

    /// What the index file of the segment that begins at `base_offset` holds: what an open segment
    /// has written, or else what the file held when the log was set up.
    pub open spec fn index_bytes(&self, base_offset: u64) -> Seq<u8> {
        match last_at(self.segments@, base_offset) {
            Some(i) => self.segments@[i].index.contents(),
            None => contents_of(listing(self.files@), index_name(base_offset)),
        }
    }

    /// Whether `segment` is what opening it in the directory of the log gives.
    pub open spec fn opens(&self, base_offset: u64, segment: Segment) -> bool {
        opened(
            self.dir@,
            base_offset,
            self.config,
            self.store_bytes(base_offset),
            self.index_bytes(base_offset),
            segment,
        )
    }

    /// Whether a segment can be opened in the directory of the log.
    pub open spec fn can_open(&self, base_offset: u64) -> bool {
        &&& last_at(self.segments@, base_offset) matches Some(i) ==> self.segments@[i].index.size
            <= isize::MAX
        &&& openable(
            self.store_bytes(base_offset),
            self.index_bytes(base_offset),
            base_offset,
            self.config,
        )
    }

    /// Whether this is what a log in `dir` is that was just set up on these files.
    pub open spec fn started(&self, dir: Seq<char>, config: Config, files: Seq<FileView>) -> bool {
        let bases = offsets_to_open(files, true, effective(config));
        &&& self.wf()
        &&& self.dir@ == dir
        &&& self.config == effective(config)
        &&& listing(self.files@) == files
        &&& self.active_segment is Last
        &&& self.segments@.len() == bases.len()
        &&& forall|i: int|
            0 <= i < self.segments@.len() ==> opened_on(
                dir,
                files,
                bases[i],
                self.config,
                #[trigger] self.segments@[i],
            )
    }

    /// The record at `off`, or why there is none.
    pub open spec fn stored(&self, off: u64) -> Result<RecordView, ErrorView> {
        match covering(self.segments@, off) {
            Some(i) => self.segments@[i].stored(off),
            None => Err(ErrorView::OffsetOutOfRange(off)),
        }
    }

    /// Whether an append to `segment`, which takes new records, fills it, so that a new one takes
    /// those that follow.
    pub open spec fn rolls(segment: Segment, value: Seq<u8>) -> bool {
        &&& segment.index.has_room()
        &&& {
            ||| segment.store.size + frame(record_json(segment.next_record(value))).len()
                >= segment.config.segment.max_store_bytes
            ||| segment.index.size + index::ENT_WIDTH >= segment.config.segment.max_index_bytes
        }
    }

    /// What an append to the segment that takes new records gives.
    pub open spec fn outcome(segment: Segment) -> Result<u64, ErrorView> {
        if segment.index.has_room() {
            Ok(segment.next_offset)
        } else {
            Err(ErrorView::UnexpectedEof)
        }
    }

    /// The segments of the log and its settings are those of `other`, up to the first `n`.
    pub open spec fn agrees(&self, other: &Log, n: int) -> bool {
        &&& self.dir == other.dir
        &&& self.config == other.config
        &&& self.files == other.files
        &&& n <= self.segments@.len()
        &&& n <= other.segments@.len()
        &&& self.segments@.take(n) == other.segments@.take(n)
    }

    /// What an append of `value` gives and makes of the log.
    pub open spec fn appended(
        &self,
        value: Seq<u8>,
        result: Result<u64, ErrorView>,
        after: &Log,
    ) -> bool {
        let n = self.segments@.len();
        match self.active_segment {
            ActiveSegment::Missing => {
                &&& result == Err::<u64, ErrorView>(ErrorView::NoActiveSegment)
                &&& after == self
            },
            ActiveSegment::Last => {
                let segment = self.segments@[n - 1];
                &&& result == Log::outcome(segment)
                &&& after.agrees(self, n - 1)
                &&& after.active_segment is Last
                &&& segment.appended(value, after.segments@[n - 1])
                &&& if Log::rolls(segment, value) {
                    &&& after.segments@.len() == n + 1
                    &&& self.opens((segment.next_offset + 1) as u64, after.segments@[n as int])
                } else {
                    after.segments@.len() == n
                }
            },
            ActiveSegment::Detached(segment) => {
                &&& result == Log::outcome(segment)
                &&& after.agrees(self, n as int)
                &&& if Log::rolls(segment, value) {
                    &&& after.active_segment is Last
                    &&& after.segments@.len() == n + 1
                    &&& self.opens((segment.next_offset + 1) as u64, after.segments@[n as int])
                } else {
                    &&& after.active_segment matches ActiveSegment::Detached(then)
                    &&& segment.appended(value, then)
                    &&& after.segments@.len() == n
                }
            },
        }
    }

    /// Whether a log can take a record of this value: the segment for it has the numbers, and the
    /// one that follows can be opened where that is due.
    pub open spec fn can_append(&self, value: Seq<u8>) -> bool {
        &&& self.wf()
        &&& self.active() matches Some(segment) ==> {
            &&& segment.can_append()
            &&& Log::rolls(segment, value) ==> self.can_open((segment.next_offset + 1) as u64)
        }
    }

    /// Whether a log can be asked for `off`.
    pub open spec fn can_read(&self, off: u64) -> bool {
        covering(self.segments@, off) matches Some(i) ==> self.segments@[i].can_read(off)
    }

    /// A log in `dir`, set up on the files that are there.
    pub fn new(dir: String, config: Config, files: Vec<FileImage>) -> (log: Log)
        requires
            can_set_up(listing(files@), true, effective(config)),
        ensures
            log.started(dir@, config, listing(files@)),
            log.dir == dir,
            log.files == files,
            config.segment.max_store_bytes != 0 ==> log.config.segment.max_store_bytes
                == config.segment.max_store_bytes,
            config.segment.max_index_bytes != 0 ==> log.config.segment.max_index_bytes
                == config.segment.max_index_bytes,
            config.segment.max_store_bytes == 0 ==> log.config.segment.max_store_bytes == 1024,
            config.segment.max_index_bytes == 0 ==> log.config.segment.max_index_bytes == 1024,
            log.config.segment.initial_offset == config.segment.initial_offset,
    {
        let mut log = Log {
            dir,
            config: with_defaults(config),
            files: Vec::new(),
            segments: Vec::new(),
            active_segment: ActiveSegment::Missing,
        };
        log.setup(files);
        log
    }

    /// Opens the segments whose files are in the directory, or a new one where the log has none.
    pub fn setup(&mut self, files: Vec<FileImage>)
        requires
            old(self).wf(),
            can_set_up(listing(files@), old(self).segments@.len() == 0, old(self).config),
        ensures
            final(self).wf(),
            final(self).dir == old(self).dir,
            final(self).config == old(self).config,
            final(self).files == files,
            ({
                let bases = offsets_to_open(
                    listing(files@),
                    old(self).segments@.len() == 0,
                    old(self).config,
                );
                let n = old(self).segments@.len();
                &&& final(self).segments@.len() == n + bases.len()
                &&& final(self).segments@.take(n as int) == old(self).segments@
                &&& forall|i: int|
                    0 <= i < bases.len() ==> opened_on(
                        old(self).dir@,
                        listing(files@),
                        #[trigger] bases[i],
                        old(self).config,
                        final(self).segments@[n + i],
                    )
                &&& if bases.len() > 0 {
                    final(self).active_segment is Last
                } else {
                    final(self).active_segment == old(self).active_segment
                }
            }),
    {
        let ghost before = *self;
        let ghost n = before.segments@.len();
        let ghost bases = offsets_to_open(listing(files@), n == 0, before.config);
        let found = find_segments(&files);
        self.files = files;
        let count: usize = found.len();
        let mut i: usize = 0;
        assert(self.segments@.take(n as int) =~= before.segments@);
        while i < count
            invariant
                i <= count == found@.len(),
                count > 0 ==> found@ == bases,
                bases == offsets_to_open(listing(files@), n == 0, before.config),
                can_set_up(listing(files@), n == 0, before.config),
                before.wf(),
                n == before.segments@.len(),
                self.dir == before.dir,
                self.config == before.config,
                self.files == files,
                self.segments@.len() == n + i,
                self.segments@.take(n as int) == before.segments@,
                forall|j: int|
                    0 <= j < i ==> opened_on(
                        before.dir@,
                        listing(files@),
                        #[trigger] bases[j],
                        before.config,
                        self.segments@[n + j],
                    ),
                if i > 0 {
                    self.active_segment is Last
                } else {
                    self.active_segment == before.active_segment
                },
            decreases count - i,
        {
            assert(can_open_on(listing(files@), bases[i as int], before.config));
            let ghost earlier = self.segments@;
            self.open_file(found[i]);
            assert(self.segments@.take(n as int) =~= earlier.take(n as int));
            i += 1;
        }
        if self.segments.len() == 0 {
            assert(bases[0] == self.config.segment.initial_offset);
            self.open_file(self.config.segment.initial_offset);
            assert(self.segments@.take(n as int) =~= before.segments@);
        }
        proof {
            assert forall|j: int| 0 <= j < self.segments@.len() implies (
            #[trigger] self.segments@[j]).store.wf() && self.segments@[j].base_offset
                <= self.segments@[j].next_offset by {
                if j < n {
                    assert(self.segments@.take(n as int)[j] == before.segments@[j]);
                } else {
                    assert(opened_on(
                        before.dir@,
                        listing(files@),
                        bases[j - n],
                        before.config,
                        self.segments@[n + (j - n)],
                    ));
                }
            }
        }
    }

    /// Puts a segment at the end and lets it take new records.
    fn push_segment(&mut self, segment: Segment)
        ensures
            final(self).dir == old(self).dir,
            final(self).config == old(self).config,
            final(self).files == old(self).files,
            final(self).segments@ == old(self).segments@.push(segment),
            final(self).active_segment is Last,
    {
        self.segments.push(segment);
        self.active_segment = ActiveSegment::Last;
    }

    /// Opens the segment that begins at `off`, on what its files held when the log was set up.
    fn open_file(&mut self, off: u64)
        requires
            can_open_on(listing(old(self).files@), off, old(self).config),
        ensures
            final(self).dir == old(self).dir,
            final(self).config == old(self).config,
            final(self).files == old(self).files,
            final(self).segments@.len() == old(self).segments@.len() + 1,
            final(self).segments@.drop_last() == old(self).segments@,
            opened_on(
                old(self).dir@,
                listing(old(self).files@),
                off,
                old(self).config,
                final(self).segments@.last(),
            ),
            final(self).active_segment is Last,
    {
        let store = read_file(&self.files, &store_file_name(off));
        let index = read_file(&self.files, &index_file_name(off));
        let segment = Segment::new(self.dir.as_str(), off, self.config, store, index);
        self.push_segment(segment);
        assert(self.segments@.drop_last() =~= old(self).segments@);
    }

    /// The last of the segments that begins at this offset.
    fn find_open(&self, off: u64) -> (found: Option<usize>)
        ensures
            match found {
                Some(i) => i < self.segments@.len() && last_at(self.segments@, off) == Some(
                    i as int,
                ),
                None => last_at(self.segments@, off) is None,
            },
    {
        let mut i: usize = self.segments.len();
        assert(self.segments@.take(i as int) =~= self.segments@);
        while i > 0
            invariant
                i <= self.segments@.len(),
                last_at(self.segments@.take(i as int), off) == last_at(self.segments@, off),
            decreases i,
        {
            i = i - 1;
            let ghost front = self.segments@.take(i + 1);
            assert(front.last() == self.segments@[i as int]);
            assert(front.drop_last() =~= self.segments@.take(i as int));
            if self.segments[i].base_offset == off {
                return Some(i);
            }
        }
        None
    }

    /// What the two files of the segment that begins at `off` hold: that of the store, then that
    /// of the index.
    fn segment_files(&self, off: u64) -> (files: (Vec<u8>, Vec<u8>))
        requires
            last_at(self.segments@, off) matches Some(i) ==> self.segments@[i].index.size
                <= isize::MAX,
        ensures
            files.0@ == self.store_bytes(off),
            files.1@ == self.index_bytes(off),
    {
        match self.find_open(off) {
            Some(i) => {
                let (index, store) = self.segments[i].close();
                (store.contents, index.contents)
            },
            None => (
                read_file(&self.files, &store_file_name(off)),
                read_file(&self.files, &index_file_name(off)),
            ),
        }
    }

    /// Whether a segment can be opened in the directory of the log.
    pub fn is_openable(&self, off: u64) -> (yes: bool)
        ensures
            yes == self.can_open(off),
    {
        match self.find_open(off) {
            Some(i) => {
                if self.segments[i].index.size > isize::MAX as u64 {
                    return false;
                }
            },
            None => {},
        }
        let (store, index) = self.segment_files(off);
        can_open(&store, &index, off, self.config)
    }

    /// Opens the segment that begins at `off` and lets it take new records. It is opened on what
    /// its files hold by now; where a segment is open there already, both go on with what was
    /// written so far.
    pub fn new_segment(&mut self, off: u64)
        requires
            old(self).wf(),
            old(self).can_open(off),
        ensures
            final(self).wf(),
            final(self).dir == old(self).dir,
            final(self).config == old(self).config,
            final(self).files == old(self).files,
            final(self).segments@.len() == old(self).segments@.len() + 1,
            final(self).segments@.drop_last() == old(self).segments@,
            old(self).opens(off, final(self).segments@.last()),
            final(self).active_segment is Last,
    {
        let (store, index) = self.segment_files(off);
        let segment = Segment::new(self.dir.as_str(), off, self.config, store, index);
        self.push_segment(segment);
        proof {
            assert(self.segments@.drop_last() =~= old(self).segments@);
            assert forall|i: int| 0 <= i < self.segments@.len() implies (
            #[trigger] self.segments@[i]).store.wf() && self.segments@[i].base_offset
                <= self.segments@[i].next_offset by {
                if i < self.segments@.len() - 1 {
                    assert(self.segments@.drop_last()[i] == old(self).segments@[i]);
                }
            }
        }
    }

    /// Whether an append of `record` can be made.
    pub fn is_ready(&self, record: &Record) -> (yes: bool)
        requires
            self.wf(),
        ensures
            yes == self.can_append(record.value@),
    {
        let segment = match &self.active_segment {
            ActiveSegment::Missing => {
                return true;
            },
            ActiveSegment::Last => &self.segments[self.segments.len() - 1],
            ActiveSegment::Detached(segment) => segment,
        };
        if segment.index.size > u64::MAX - index::ENT_WIDTH {
            return false;
        }
        let room: usize = segment.index.mmap.len();
        if (room as u64) < segment.index.size + index::ENT_WIDTH {
            return true;
        }
        if segment.next_offset == u64::MAX {
            return false;
        }
        let p = encode_record(&record.value, segment.next_offset);
        proof {
            be_bytes_len(p@.len(), 8);
        }
        let limits = segment.config.segment;
        let length: u64 = p.len() as u64;
        let fills_store: bool = segment.store.size as u128 + store::LEN_WIDTH as u128
            + length as u128 >= limits.max_store_bytes as u128;
        let fills_index: bool = segment.index.size + index::ENT_WIDTH >= limits.max_index_bytes;
        !(fills_store || fills_index) || self.is_openable(segment.next_offset + 1)
    }

    /// Whether a read of `off` can be made.
    pub fn is_readable(&self, off: u64) -> (yes: bool)
        requires
            self.wf(),
        ensures
            yes == self.can_read(off),
    {
        let mut i: usize = self.segments.len();
        assert(self.segments@.take(i as int) =~= self.segments@);
        while i > 0
            invariant
                i <= self.segments@.len(),
                self.wf(),
                covering(self.segments@.take(i as int), off) == covering(self.segments@, off),
            decreases i,
        {
            i = i - 1;
            let ghost front = self.segments@.take(i + 1);
            assert(front.last() == self.segments@[i as int]);
            assert(front.drop_last() =~= self.segments@.take(i as int));
            let segment = &self.segments[i];
            if segment.base_offset <= off && off < segment.next_offset {
                #[verifier::truncate]
                let inp: i64 = (off - segment.base_offset) as i64;
                return segment.index.is_readable(inp);
            }
        }
        true
    }

    /// The files as the segments leave them: for each segment that of the index, then that of the
    /// store.
    pub fn close(&self) -> (files: Vec<FileImage>)
        requires
            forall|i: int|
                0 <= i < self.segments@.len() ==> (#[trigger] self.segments@[i]).index.size
                    <= isize::MAX,
        ensures
            files@.len() == 2 * self.segments@.len(),
            forall|i: int|
                #![trigger self.segments@[i]]
                0 <= i < self.segments@.len() ==> {
                    &&& files@[2 * i].name == self.segments@[i].index.name
                    &&& files@[2 * i].contents@ == self.segments@[i].index.contents()
                    &&& files@[2 * i + 1].name == self.segments@[i].store.file.name
                    &&& files@[2 * i + 1].contents@ == self.segments@[i].store.bytes()
                },
    {
        let mut files: Vec<FileImage> = Vec::new();
        let n: usize = self.segments.len();
        let mut i: usize = 0;
        while i < n
            invariant
                i <= n == self.segments@.len(),
                forall|j: int|
                    0 <= j < self.segments@.len() ==> (#[trigger] self.segments@[j]).index.size
                        <= isize::MAX,
                files@.len() == 2 * i,
                forall|j: int|
                    #![trigger self.segments@[j]]
                    0 <= j < i ==> {
                        &&& files@[2 * j].name == self.segments@[j].index.name
                        &&& files@[2 * j].contents@ == self.segments@[j].index.contents()
                        &&& files@[2 * j + 1].name == self.segments@[j].store.file.name
                        &&& files@[2 * j + 1].contents@ == self.segments@[j].store.bytes()
                    },
            decreases n - i,
        {
            let (index, store) = self.segments[i].close();
            files.push(index);
            files.push(store);
            i += 1;
        }
        files
    }

    /// The first offset of the log.
    pub fn lowest_offset(&self) -> (off: u64)
        requires
            self.segments@.len() > 0,
        ensures
            off == self.segments@[0].base_offset,
            self.consistent() ==> forall|o: u64|
                o < off ==> #[trigger] self.stored(o) == Err::<RecordView, ErrorView>(
                    ErrorView::OffsetOutOfRange(o),
                ),
            self.consistent() && off < self.segments@.last().next_offset ==> (self.stored(
                off,
            ) matches Ok(record) && record.offset == off),
    {
        proof {
            if self.consistent() {
                assert forall|o: u64| o < self.segments@[0].base_offset implies (
                #[trigger] self.stored(o)) == Err::<RecordView, ErrorView>(
                    ErrorView::OffsetOutOfRange(o),
                ) by {
                    log_stores_its_offsets(*self, o);
                }
                log_stores_its_offsets(*self, self.segments@[0].base_offset);
            }
        }
        self.segments[0].base_offset
    }

    /// The last offset of the log; 0 where there is none before the next one.
    pub fn highest_offset(&self) -> (off: u64)
        requires
            self.segments@.len() > 0,
        ensures
            off == if self.segments@.last().next_offset == 0 {
                0
            } else {
                self.segments@.last().next_offset - 1
            },
            self.consistent() ==> forall|o: u64|
                o > off ==> #[trigger] self.stored(o) == Err::<RecordView, ErrorView>(
                    ErrorView::OffsetOutOfRange(o),
                ),
            self.consistent() && self.segments@[0].base_offset
                < self.segments@.last().next_offset ==> (self.stored(off) matches Ok(record)
                && record.offset == off),
    {
        proof {
            if self.consistent() {
                assert forall|o: u64| o >= self.segments@.last().next_offset implies (
                #[trigger] self.stored(o)) == Err::<RecordView, ErrorView>(
                    ErrorView::OffsetOutOfRange(o),
                ) by {
                    log_stores_its_offsets(*self, o);
                }
                let last = (self.segments@.last().next_offset - 1) as u64;
                log_stores_its_offsets(*self, last);
            }
        }
        let off: u64 = self.segments[self.segments.len() - 1].next_offset;
        if off == 0 {
            0
        } else {
            off - 1
        }
    }

    /// Drops the segments that hold no offset above `lowest`, and gives the names of their files
    /// to remove: for each segment that of the index, then that of the store. The segment that
    /// takes new records goes on doing so, even where it is dropped.
    pub fn truncate(&mut self, lowest: u64) -> (names: Vec<String>)
        requires
            old(self).wf(),
            old(self).segments@.len() > 0 ==> lowest < u64::MAX,
        ensures
            final(self).wf(),
            final(self).dir == old(self).dir,
            final(self).config == old(self).config,
            final(self).segments@ == old(self).segments@.filter(kept(lowest)),
            forall|i: int|
                0 <= i < final(self).segments@.len() ==> (
                #[trigger] final(self).segments@[i]).next_offset > lowest + 1,
            forall|i: int|
                0 <= i < old(self).segments@.len() && (
                #[trigger] old(self).segments@[i]).next_offset > lowest + 1
                    ==> final(self).segments@.contains(old(self).segments@[i]),
            final(self).active() == old(self).active(),
            final(self).active_segment == if old(self).active_segment is Last && dropped(lowest)(
                old(self).segments@.last(),
            ) {
                ActiveSegment::Detached(old(self).segments@.last())
            } else {
                old(self).active_segment
            },
            ({
                let gone = old(self).segments@.filter(dropped(lowest));
                &&& final(self).files@ == old(self).files@.filter(outlives(base_offsets(gone)))
                &&& names@.len() == 2 * gone.len()
                &&& forall|i: int|
                    #![trigger gone[i]]
                    0 <= i < gone.len() ==> {
                        &&& names@[2 * i] == gone[i].index.name
                        &&& names@[2 * i + 1] == gone[i].store.file.name
                    }
            }),
    {
        let ghost before = *self;
        let ghost all = self.segments@;
        let mut old_segments: Vec<Segment> = Vec::new();
        std::mem::swap(&mut old_segments, &mut self.segments);
        let count: usize = old_segments.len();
        let mut names: Vec<String> = Vec::new();
        let mut bases: Vec<u64> = Vec::new();
        let mut i: usize = 0;
        assert(all.take(0).filter(kept(lowest)) =~= Seq::<Segment>::empty()) by {
            reveal(Seq::filter);
        }
        assert(all.take(0).filter(dropped(lowest)) =~= Seq::<Segment>::empty()) by {
            reveal(Seq::filter);
        }
        for segment in it: old_segments
            invariant
                it.seq() == all,
                i == it.index(),
                count == all.len(),
                count > 0 ==> lowest < u64::MAX,
                before.wf(),
                all == before.segments@,
                self.dir == before.dir,
                self.config == before.config,
                self.files == before.files,
                self.segments@ == all.take(i as int).filter(kept(lowest)),
                self.active_segment == if i == count && count > 0 && before.active_segment is Last
                    && dropped(lowest)(all.last()) {
                    ActiveSegment::Detached(all.last())
                } else {
                    before.active_segment
                },
                all.take(i as int).filter(dropped(lowest)).len() == bases@.len(),
                names@.len() == 2 * bases@.len(),
                forall|j: int|
                    #![trigger all.take(i as int).filter(dropped(lowest))[j]]
                    0 <= j < bases@.len() ==> {
                        let gone = all.take(i as int).filter(dropped(lowest))[j];
                        &&& bases@[j] == gone.base_offset
                        &&& names@[2 * j] == gone.index.name
                        &&& names@[2 * j + 1] == gone.store.file.name
                    },
        {
            assert(segment == all[i as int]);
            assert(all.take(i + 1).drop_last() =~= all.take(i as int));
            assert(all.take(i + 1).last() == segment);
            proof {
                reveal(Seq::filter);
            }
            if segment.next_offset <= lowest + 1 {
                let (index, store) = segment.remove();
                bases.push(segment.base_offset);
                names.push(index);
                names.push(store);
                if i + 1 == count && matches!(self.active_segment, ActiveSegment::Last) {
                    self.active_segment = ActiveSegment::Detached(segment);
                }
            } else {
                self.segments.push(segment);
            }
            i += 1;
        }
        let mut files: Vec<FileImage> = Vec::new();
        std::mem::swap(&mut files, &mut self.files);
        self.files = without_files_of(files, &bases);
        proof {
            assert(all.take(count as int) =~= all);
            assert(bases@ =~= base_offsets(all.filter(dropped(lowest))));
            assert forall|j: int| 0 <= j < self.segments@.len() implies (
            #[trigger] self.segments@[j]).store.wf() && self.segments@[j].base_offset
                <= self.segments@[j].next_offset by {
                assert(all.filter(kept(lowest)).contains(self.segments@[j]));
                all.lemma_filter_contains_rev(kept(lowest), self.segments@[j]);
            }
            reveal(Seq::filter);
        }
        names
    }

    /// A reader of the stores of all segments.
    pub fn reader(&self) -> (reader: MultiReader<'_>)
        ensures
            reader.readers@.len() == self.segments@.len(),
            forall|i: int|
                #![trigger reader.readers@[i]]
                0 <= i < self.segments@.len() ==> *reader.readers@[i].store
                    == self.segments@[i].store && reader.readers@[i].off == 0,
    {
        let mut readers: Vec<OriginReader<'_>> = Vec::new();
        let n: usize = self.segments.len();
        let mut i: usize = 0;
        while i < n
            invariant
                i <= n == self.segments@.len(),
                readers@.len() == i,
                forall|j: int|
                    #![trigger readers@[j]]
                    0 <= j < i ==> *readers@[j].store == self.segments@[j].store
                        && readers@[j].off == 0,
            decreases n - i,
        {
            readers.push(OriginReader::new(&self.segments[i].store, 0));
            i += 1;
        }
        MultiReader::new(readers)
    }
}

/// The last segment that begins at an offset is one that begins there.
pub proof fn last_at_begins(segments: Seq<Segment>, base_offset: u64)
    ensures
        last_at(segments, base_offset) matches Some(i) ==> 0 <= i < segments.len()
            && segments[i].base_offset == base_offset,
        last_at(segments, base_offset) is None ==> forall|i: int|
            0 <= i < segments.len() ==> (#[trigger] segments[i]).base_offset != base_offset,
    decreases segments.len(),
{
    if segments.len() > 0 && segments.last().base_offset != base_offset {
        let front = segments.drop_last();
        last_at_begins(front, base_offset);
        assert forall|i: int| last_at(front, base_offset) is None && 0 <= i < segments.len()
            implies (#[trigger] segments[i]).base_offset != base_offset by {
            if i < segments.len() - 1 {
                assert(front[i] == segments[i]);
            }
        }
    }
}

/// Which segment is the last that begins at an offset depends on where the segments begin alone.
proof fn last_at_is_same(a: Seq<Segment>, b: Seq<Segment>, base_offset: u64)
    requires
        a.len() == b.len(),
        forall|i: int|
            0 <= i < a.len() ==> (#[trigger] a[i]).base_offset == b[i].base_offset,
    ensures
        last_at(a, base_offset) == last_at(b, base_offset),
    decreases a.len(),
{
    if a.len() > 0 {
        assert(a[a.len() - 1].base_offset == b[b.len() - 1].base_offset);
        assert forall|i: int| 0 <= i < a.len() - 1 implies (
        #[trigger] a.drop_last()[i]).base_offset == b.drop_last()[i].base_offset by {
            assert(a[i].base_offset == b[i].base_offset);
        }
        last_at_is_same(a.drop_last(), b.drop_last(), base_offset);
    }
}

/// An append to one segment leaves what is in the files of another.
proof fn files_are_same(before: Log, after: Log, base_offset: u64)
    requires
        after.files == before.files,
        after.dir == before.dir,
        after.config == before.config,
        after.segments@.len() == before.segments@.len(),
        forall|i: int|
            0 <= i < before.segments@.len() ==> (#[trigger] after.segments@[i]).base_offset
                == before.segments@[i].base_offset && (after.segments@[i].base_offset
                == base_offset ==> after.segments@[i] == before.segments@[i]),
    ensures
        after.store_bytes(base_offset) == before.store_bytes(base_offset),
        after.index_bytes(base_offset) == before.index_bytes(base_offset),
        after.can_open(base_offset) == before.can_open(base_offset),
{
    last_at_is_same(after.segments@, before.segments@, base_offset);
    last_at_begins(after.segments@, base_offset);
}

impl CommitLog for Log {
    open spec fn takes(&self, record: RecordView) -> bool {
        self.can_append(record.value)
    }

    open spec fn appends(
        &self,
        record: RecordView,
        result: Result<u64, ErrorView>,
        after: &Log,
    ) -> bool {
        &&& after.wf()
        &&& self.appended(record.value, result, after)
    }

    open spec fn looks_up(&self, offset: u64) -> bool {
        self.can_read(offset)
    }

    open spec fn reads(
        &self,
        offset: u64,
        result: Result<RecordView, ErrorView>,
        after: &Log,
    ) -> bool {
        &&& result == self.stored(offset)
        &&& after == self
    }

    /// Stores a record in the segment that takes new ones, and gives its offset. Where that fills
    /// the segment, opens the next one.
    fn append(&mut self, record: Record) -> (result: Result<u64, LogError>) {
        let ghost before = *self;
        let ghost value = record.value@;
        let n: usize = self.segments.len();
        proof {
            be_bytes_len(record_json(self.active()->0.next_record(value)).len(), 8);
        }
        let (result, full) = match &mut self.active_segment {
            ActiveSegment::Missing => {
                return Err(LogError::NoActiveSegment);
            },
            ActiveSegment::Last => {
                let result = self.segments[n - 1].append(record);
                (result, self.segments[n - 1].is_maxed())
            },
            ActiveSegment::Detached(segment) => {
                let result = segment.append(record);
                (result, segment.is_maxed())
            },
        };
        let ghost then = *self;
        proof {
            assert(then.segments@.take(n as int) =~= then.segments@);
            assert(before.segments@.take(n as int) =~= before.segments@);
            if before.active_segment is Last {
                assert(then.segments@.take(n - 1) =~= before.segments@.take(n - 1));
            }
            assert forall|i: int| 0 <= i < n implies (
            #[trigger] then.segments@[i]).store.wf() && then.segments@[i].base_offset
                <= then.segments@[i].next_offset by {
                assert(before.segments@[i].store.wf());
            }
            assert(then.wf());
        }
        let off: u64 = match result {
            Ok(off) => off,
            Err(error) => {
                return Err(error);
            },
        };
        if full {
            proof {
                files_are_same(before, then, (off + 1) as u64);
            }
            self.new_segment(off + 1);
            proof {
                assert(self.segments@.drop_last() == then.segments@);
                assert(self.segments@.take(n as int) =~= then.segments@);
                if n > 0 {
                    assert(self.segments@.take(n - 1) =~= then.segments@.take(n - 1));
                }
                assert forall|i: int| 0 <= i < n implies #[trigger] self.segments@[i]
                    == then.segments@[i] by {
                    assert(self.segments@.drop_last()[i] == then.segments@[i]);
                }
            }
        }
        Ok(off)
    }

    /// The record at `offset`, from the last of the segments that has it.
    fn read(&mut self, offset: u64) -> (result: Result<Record, LogError>) {
        let mut i: usize = self.segments.len();
        assert(self.segments@.take(i as int) =~= self.segments@);
        while i > 0
            invariant
                i <= self.segments@.len(),
                *self == *old(self),
                covering(self.segments@.take(i as int), offset) == covering(
                    self.segments@,
                    offset,
                ),
                self.can_read(offset),
            decreases i,
        {
            i = i - 1;
            let ghost front = self.segments@.take(i + 1);
            assert(front.last() == self.segments@[i as int]);
            assert(front.drop_last() =~= self.segments@.take(i as int));
            let segment = &self.segments[i];
            if segment.base_offset <= offset && offset < segment.next_offset {
                return segment.read(offset);
            }
        }
        Err(LogError::OffsetOutOfRange(offset))
    }
}

} // verus!
