//! The log as a whole.
use proglog::error::LogError;
use proglog::log::config::{Config, SegmentConfig};
use proglog::log::file::FileImage;
use proglog::log::names::offset_of_name;
use proglog::log::offsets::find_segments;
use proglog::log::reader::{MultiReader, OriginReader};
use proglog::log::store::{Store, LEN_WIDTH};
use proglog::log::{files_open, ActiveSegment, Log};
use proglog::record::{decode_record, Record};
use proglog::server::commit::CommitLog;

fn small_segments() -> Config {
    Config {
        segment: SegmentConfig {
            max_store_bytes: 32,
            initial_offset: 0,
            max_index_bytes: 0,
        },
    }
}

fn create_log() -> Log {
    Log::new("dir".to_string(), small_segments(), Vec::new())
}

fn create_record() -> Record {
    Record {
        value: "hello world".into(),
        offset: 0,
    }
}

/// The files of a log that is open, under their names in its directory: those of the indexes are as
/// long as their areas.
fn open_files(log: &Log) -> Vec<FileImage> {
    let mut files = Vec::new();
    for segment in &log.segments {
        files.push(FileImage {
            name: format!("{}.store", segment.base_offset),
            contents: segment.store.file.contents.clone(),
        });
        files.push(FileImage {
            name: format!("{}.index", segment.base_offset),
            contents: segment.index.mmap.clone(),
        });
    }
    files
}

/// The files that a log left, under their names in its directory.
fn left_by(log: &Log) -> Vec<FileImage> {
    let mut files = log.close();
    for file in files.iter_mut() {
        file.name = file.name["dir/".len()..].to_string();
    }
    files
}

fn file(name: &str) -> FileImage {
    FileImage {
        name: name.to_string(),
        contents: Vec::new(),
    }
}

#[test]
fn test_append_read() {
    let mut log = create_log();
    let record = create_record();
    let off = log.append(record.clone()).unwrap();
    assert_eq!(off, 0);
    let read = log.read(off).unwrap();
    assert_eq!(read.value, record.value);
}

#[test]
fn test_out_of_range() {
    let mut log = create_log();
    let error = log.read(1).unwrap_err();
    assert_eq!(error, LogError::OffsetOutOfRange(1));
    assert_eq!(error.to_string(), "offset out of range: 1");
}

#[test]
fn test_init_existing() {
    let mut log = create_log();
    let record = create_record();
    let mut i = 0;
    while i < 3 {
        log.append(record.clone()).unwrap();
        i += 1;
    }
    let off = log.lowest_offset();
    assert_eq!(off, 0);
    let off = log.highest_offset();
    assert_eq!(off, 2);
    let files = open_files(&log);
    log = Log::new(log.dir, log.config, files);
    let off = log.lowest_offset();
    assert_eq!(off, 0);
    let off = log.highest_offset();
    assert_eq!(off, 2);
}

#[test]
fn log_is_the_same_closed_or_not() {
    let mut config = small_segments();
    config.segment.max_store_bytes = 150;
    let mut log = Log::new("dir".to_string(), config, Vec::new());
    for i in 0..9 {
        for files in [left_by(&log), open_files(&log)] {
            let mut again = Log::new("dir".to_string(), config, files);
            assert_eq!(again.segments.len(), log.segments.len());
            assert_eq!(again.highest_offset(), log.highest_offset());
            for off in 0..i {
                assert_eq!(again.read(off), log.read(off));
            }
            assert_eq!(again.append(create_record()), Ok(i));
            assert_eq!(again.read(i).unwrap().offset, i);
        }
        log.append(create_record()).unwrap();
    }
}

#[test]
fn test_reader() {
    let mut log = create_log();
    let record = create_record();
    let off = log.append(record.clone()).unwrap();
    assert_eq!(off, 0);
    let mut reader = log.reader();
    let b = reader.read_all();
    let read: Record = decode_record(&b[LEN_WIDTH..]).unwrap();
    assert_eq!(read.value, record.value);
}

#[test]
fn test_truncate() {
    let mut log = create_log();
    let record = create_record();
    let mut i = 0;
    while i < 3 {
        log.append(record.clone()).unwrap();
        i += 1;
    }
    log.truncate(0);
    assert!(log.read(0).is_err());
}

#[test]
fn zero_limits_stand_for_defaults() {
    let log = Log::new("dir".to_string(), Config::default(), Vec::new());
    assert_eq!(log.config.segment.max_store_bytes, 1024);
    assert_eq!(log.config.segment.max_index_bytes, 1024);
    let log = create_log();
    assert_eq!(log.config.segment.max_store_bytes, 32);
}

#[test]
fn full_segment_is_followed_by_the_next() {
    let mut log = create_log();
    for i in 0..3 {
        assert!(log.is_ready(&create_record()));
        assert_eq!(log.append(create_record()), Ok(i));
    }
    assert_eq!(log.segments.len(), 4);
    assert_eq!(log.segments[3].base_offset, 3);
    assert_eq!(log.segments[1].store.file.name, "dir/1.store");
    for i in 0..3 {
        assert_eq!(log.read(i).unwrap().offset, i);
    }
    assert_eq!(log.read(3), Err(LogError::OffsetOutOfRange(3)));
}

#[test]
fn initial_offset_is_the_first() {
    let mut config = small_segments();
    config.segment.initial_offset = 40;
    let mut log = Log::new("dir".to_string(), config, Vec::new());
    assert_eq!(log.lowest_offset(), 40);
    assert_eq!(log.highest_offset(), 39);
    assert_eq!(log.append(create_record()), Ok(40));
    assert_eq!(log.highest_offset(), 40);
    assert_eq!(create_log().highest_offset(), 0);
}

#[test]
fn order_of_files_is_irrelevant() {
    let mut log = create_log();
    for _ in 0..12 {
        log.append(create_record()).unwrap();
    }
    let mut files = left_by(&log);
    files.reverse();
    files.swap(3, 9);
    assert!(files_open(&files, log.config));
    let mut again = Log::new(log.dir.clone(), log.config, files);
    assert_eq!(again.segments.len(), 13);
    assert_eq!(again.lowest_offset(), 0);
    assert_eq!(again.highest_offset(), 11);
    for i in 0..12 {
        assert_eq!(again.read(i), log.read(i));
    }
    assert_eq!(again.append(create_record()), Ok(12));
}

#[test]
fn truncate_keeps_what_is_above() {
    let mut log = create_log();
    for _ in 0..4 {
        log.append(create_record()).unwrap();
    }
    let names = log.truncate(1);
    assert_eq!(
        names,
        vec!["dir/0.index", "dir/0.store", "dir/1.index", "dir/1.store"]
    );
    assert_eq!(log.lowest_offset(), 2);
    assert_eq!(log.read(1), Err(LogError::OffsetOutOfRange(1)));
    assert_eq!(log.read(2).unwrap().offset, 2);
    assert_eq!(log.append(create_record()), Ok(4));
}

#[test]
fn dropped_segment_goes_on_taking_records() {
    let mut config = small_segments();
    config.segment.max_store_bytes = 1000;
    let mut log = Log::new("dir".to_string(), config, Vec::new());
    log.append(create_record()).unwrap();
    assert_eq!(log.truncate(5).len(), 2);
    assert!(log.segments.is_empty());
    assert!(matches!(log.active_segment, ActiveSegment::Detached(_)));
    assert_eq!(log.append(create_record()), Ok(1));
    assert_eq!(log.read(1), Err(LogError::OffsetOutOfRange(1)));
}

#[test]
fn dropped_files_are_forgotten() {
    let mut log = create_log();
    for _ in 0..2 {
        log.append(create_record()).unwrap();
    }
    let files = left_by(&log);
    let mut log = Log::new(log.dir, log.config, files);
    assert_eq!(log.files.len(), 6);
    log.truncate(0);
    assert_eq!(log.files.len(), 4);
    log.new_segment(0);
    assert_eq!(log.segments.last().unwrap().store.size, 0);
}

#[test]
fn segment_is_opened_on_what_is_written() {
    let mut config = small_segments();
    config.segment.initial_offset = 1;
    config.segment.max_store_bytes = 1000;
    let mut log = Log::new("dir".to_string(), config, Vec::new());
    assert_eq!(log.append(create_record()), Ok(1));
    assert!(log.is_openable(1));
    log.new_segment(1);
    assert_eq!(log.segments[1].next_offset, 2);
    assert_eq!(log.segments[1].store.size, log.segments[0].store.size);
    assert_eq!(log.append(create_record()), Ok(2));
    assert_eq!(log.read(2).unwrap().offset, 2);

    // The segment that follows on another one can be open already.
    let mut config = small_segments();
    config.segment.initial_offset = 1;
    let mut log = Log::new("dir".to_string(), config, Vec::new());
    assert_eq!(log.append(create_record()), Ok(1));
    log.new_segment(0);
    assert_eq!(log.append(create_record()), Ok(0));
    let last = log.segments.last().unwrap();
    assert_eq!((last.base_offset, last.next_offset), (1, 2));
    assert_eq!(log.read(1).unwrap().offset, 1);
}

#[test]
fn no_room_in_the_index() {
    let mut config = small_segments();
    config.segment.max_store_bytes = 1000;
    config.segment.max_index_bytes = 13;
    let mut log = Log::new("dir".to_string(), config, Vec::new());
    assert_eq!(log.append(create_record()), Ok(0));
    let error = log.append(create_record()).unwrap_err();
    assert_eq!(error, LogError::UnexpectedEof);
    assert_eq!(error.to_string(), "Unexpected EOF");
    assert_eq!(log.highest_offset(), 0);
    assert_eq!(log.read(0).unwrap().value, b"hello world");
}

#[test]
fn log_without_a_segment_takes_nothing() {
    let mut log = create_log();
    log.active_segment = ActiveSegment::Missing;
    let error = log.append(create_record()).unwrap_err();
    assert_eq!(error, LogError::NoActiveSegment);
    assert_eq!(error.to_string(), "No active segment");
    assert_eq!(LogError::ShortRead.to_string(), "failed to fill whole buffer");
    let failed = LogError::Outside("disk full".to_string());
    assert_eq!(failed.to_string(), "disk full");
}

#[test]
fn unreadable_files_are_not_opened() {
    let files = vec![
        file("7.store"),
        FileImage {
            name: "7.index".to_string(),
            contents: vec![1, 2, 3],
        },
    ];
    let config = Config {
        segment: SegmentConfig {
            max_store_bytes: 1024,
            max_index_bytes: 1024,
            initial_offset: 0,
        },
    };
    assert!(!files_open(&files, config));
    assert!(files_open(&vec![file("7.store"), file("7.index")], config));
    assert!(files_open(&vec![], config));
}

#[test]
fn readable_offsets() {
    let mut log = create_log();
    log.append(create_record()).unwrap();
    assert!(log.is_readable(0));
    assert!(log.is_readable(9));
}

#[test]
fn offsets_in_names() {
    assert_eq!(offset_of_name("0.store"), Some(0));
    assert_eq!(offset_of_name("16.index"), Some(16));
    assert_eq!(offset_of_name("+16.index"), Some(16));
    assert_eq!(offset_of_name("007"), Some(7));
    assert_eq!(offset_of_name("12..é"), Some(12));
    assert_eq!(offset_of_name("12²"), None);
    assert_eq!(offset_of_name("store"), None);
    assert_eq!(offset_of_name("+.store"), None);
    assert_eq!(offset_of_name("-1.store"), None);
    assert_eq!(offset_of_name("1.store.2"), None);
    assert_eq!(offset_of_name(""), None);
    assert_eq!(
        offset_of_name("18446744073709551615.store"),
        Some(u64::MAX)
    );
    assert_eq!(offset_of_name("18446744073709551616.store"), None);
}

#[test]
fn every_second_name_is_a_segment() {
    let names = ["20.index", "3.store", "notes", "100.store", "3.index", "20.store", "100.index"];
    let files: Vec<FileImage> = names.iter().map(|name| file(name)).collect();
    assert_eq!(find_segments(&files), vec![3, 20, 100]);
    let files = vec![file("5.store")];
    assert_eq!(find_segments(&files), vec![5]);
    assert_eq!(find_segments(&vec![]), Vec::<u64>::new());
}

#[test]
fn readers_share_one_buffer() {
    let mut first = Store::new_store(file("a"));
    first.append(&[1, 2]);
    let mut second = Store::new_store(file("b"));
    second.append(&[9]);
    let mut reader = MultiReader::new(vec![
        OriginReader::new(&first, 0),
        OriginReader::new(&second, 0),
    ]);
    let bytes = reader.read_all();
    // Each reader fills the buffer from its front.
    let mut expected = vec![0, 0, 0, 0, 0, 0, 0, 1, 9, 2];
    expected.extend_from_slice(&[0; 9]);
    assert_eq!(bytes, expected);
    assert_eq!(reader.readers[0].off, 10);
    assert_eq!(reader.read_all(), Vec::<u8>::new());
}

#[test]
fn origin_reader_goes_on() {
    let mut store = Store::new_store(file("a"));
    store.append(&[4, 5, 6]);
    let mut reader = OriginReader::new(&store, 8);
    let mut two = [0u8; 2];
    assert_eq!(reader.read(&mut two), 2);
    assert_eq!(two, [4, 5]);
    assert_eq!(reader.read(&mut two), 1);
    assert_eq!(two, [6, 5]);
    assert_eq!(reader.read(&mut two), 0);
}
