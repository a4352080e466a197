//! A segment of the log.
use proglog::error::LogError;
use proglog::log::config::{Config, SegmentConfig};
use proglog::log::index::{written_size, ENT_WIDTH};
use proglog::log::segment::{can_open, Segment};
use proglog::record::{decode_record, Record};

fn config(max_store_bytes: u64, max_index_bytes: u64) -> Config {
    Config {
        segment: SegmentConfig {
            max_store_bytes,
            max_index_bytes,
            initial_offset: 0,
        },
    }
}

fn hello() -> Record {
    Record {
        value: "hello world".into(),
        offset: 0,
    }
}

#[test]
fn test_segment() {
    let want = hello();
    let mut config = config(1024, 3 * ENT_WIDTH);
    let mut segment = Segment::new("dir", 16, config.clone(), Vec::new(), Vec::new());
    assert!(16 == segment.next_offset, "Next offset should be 16");
    assert!(segment.is_maxed() == false, "is_maxed should be false");
    let mut i = 0;
    while i < 3 {
        let off = segment.append(want.clone()).unwrap();
        assert!(16 + i == off, "Offset does not match");
        let got = segment.read(off).unwrap();
        assert!(
            want.value == got.value,
            "Did not get the same value we wrote"
        );
        i += 1;
    }

    assert!(
        segment.append(want.clone()).is_err(),
        "Writing a third time should fail"
    );

    assert!(segment.is_maxed() == true, "Segment should be maxed");

    config.segment.max_store_bytes = want.value.len() as u64 * 3;
    config.segment.max_index_bytes = 1024;

    // The files of the segment, which is still open.
    let store = segment.store.file.contents.clone();
    let index = segment.index.mmap.clone();
    segment = Segment::new("dir", 16, config.clone(), store, index);
    assert!(segment.is_maxed() == true, "segment should be maxed");

    let names = segment.remove();
    assert_eq!(names.0, "dir/16.index");
    assert_eq!(names.1, "dir/16.store");
    segment = Segment::new("dir", 16, config.clone(), Vec::new(), Vec::new());
    assert!(segment.is_maxed() == false, "segment should not be maxed");
}

#[test]
fn record_is_stored_as_json() {
    let mut segment = Segment::new("dir", 5, config(1024, 1024), Vec::new(), Vec::new());
    let record = Record {
        value: vec![1, 20, 255],
        offset: 77,
    };
    assert_eq!(segment.append(record), Ok(5));
    let stored = segment.store.read(0).unwrap();
    assert_eq!(stored, b"{\"value\":[1,20,255],\"offset\":5}");
    let empty = Record {
        value: vec![],
        offset: 0,
    };
    assert_eq!(segment.append(empty), Ok(6));
    let (_, pos) = segment.index.read(1).unwrap();
    assert_eq!(
        segment.store.read(pos).unwrap(),
        b"{\"value\":[],\"offset\":6}"
    );
    assert_eq!(segment.read(6).unwrap().value, Vec::<u8>::new());
}

#[test]
fn refused_append_grows_the_store_only() {
    let mut segment = Segment::new("dir", 0, config(1024, ENT_WIDTH), Vec::new(), Vec::new());
    segment.append(hello()).unwrap();
    let before = segment.store.size;
    assert_eq!(segment.append(hello()), Err(LogError::UnexpectedEof));
    assert!(segment.store.size > before);
    assert_eq!(segment.next_offset, 1);
    assert_eq!(segment.index.size, ENT_WIDTH);
    assert_eq!(segment.read(0).unwrap().value, b"hello world");
}

#[test]
fn reopened_segment_has_its_records() {
    let mut segment = Segment::new("dir", 16, config(1024, 1024), Vec::new(), Vec::new());
    segment.append(hello()).unwrap();
    segment.append(hello()).unwrap();
    let (index, store) = segment.close();
    assert_eq!(index.contents.len() as u64, 2 * ENT_WIDTH);
    let again = Segment::new(
        "dir",
        16,
        config(1024, 2048),
        store.contents,
        index.contents,
    );
    assert_eq!(again.next_offset, 18);
    assert_eq!(again.read(17).unwrap().offset, 17);
    assert_eq!(again.read(18), Err(LogError::UnexpectedEof));
}

#[test]
fn stray_bytes_are_no_record() {
    // One entry that points at a frame of one byte.
    let index = vec![0u8; 12];
    let store = vec![0, 0, 0, 0, 0, 0, 0, 1, b'x'];
    let segment = Segment::new("dir", 0, config(1024, 1024), store, index.clone());
    let error = segment.read(0).unwrap_err();
    let reason = "expected value at line 1 column 1".to_string();
    assert_eq!(error.to_string(), reason);
    assert_eq!(error, LogError::InvalidRecord(reason));
    // One entry that points behind the end of the store.
    let index = vec![0, 0, 0, 0, 0, 0, 0, 0, 0, 0, 0, 5];
    let segment = Segment::new("dir", 0, config(1024, 1024), Vec::new(), index);
    assert_eq!(segment.read(0), Err(LogError::ShortRead));
}

#[test]
fn json_without_a_member_is_no_record() {
    let mut frame = vec![0, 0, 0, 0, 0, 0, 0, 12];
    frame.extend_from_slice(b"{\"offset\":3}");
    let segment = Segment::new("dir", 0, config(1024, 1024), frame, vec![0u8; 12]);
    assert_eq!(
        segment.read(0),
        Err(LogError::InvalidRecord("missing field `value`".to_string()))
    );
    let reason = decode_record(b"{\"value\":[1]}").unwrap_err();
    assert_eq!(reason, "missing field `offset`");
    let record = decode_record(b"{\"offset\":3,\"more\":{},\"value\":[1,2]}").unwrap();
    assert_eq!((record.value, record.offset), (vec![1, 2], 3));
    let record = decode_record(b"[[4,5],6]").unwrap();
    assert_eq!((record.value, record.offset), (vec![4, 5], 6));
    assert!(decode_record(b"[[4,5]]").is_err());
    assert!(decode_record(b"{\"value\":[256],\"offset\":3}").is_err());
    assert!(decode_record(b"{\"value\":null,\"offset\":3}").is_err());
}

#[test]
fn unwritten_entries_do_not_count() {
    let mut segment = Segment::new("dir", 7, config(1024, 100), Vec::new(), Vec::new());
    for n in 0..4u64 {
        // The area of the index is all there while the segment is open.
        let area = segment.index.mmap.clone();
        assert_eq!(area.len(), 100);
        let store = segment.store.file.contents.clone();
        assert_eq!(written_size(&area, !store.is_empty()), n * ENT_WIDTH);
        let again = Segment::new("dir", 7, config(1024, 1024), store, area);
        assert_eq!(again.next_offset, 7 + n);
        assert_eq!(again.index.size, n * ENT_WIDTH);
        for off in 7..7 + n {
            assert_eq!(again.read(off).unwrap().offset, off);
        }
        segment.append(hello()).unwrap();
    }
}

#[test]
fn written_bytes_of_an_index() {
    assert_eq!(written_size(&vec![], true), 0);
    assert_eq!(written_size(&vec![0; 5], true), 0);
    assert_eq!(written_size(&vec![0; 12], false), 0);
    assert_eq!(written_size(&vec![0; 30], true), 12);
    let mut two = vec![0; 40];
    two[15] = 1;
    assert_eq!(written_size(&two, true), 24);
    // What is no entry stays.
    assert_eq!(written_size(&vec![0, 3, 0], true), 3);
}

#[test]
fn what_can_be_opened() {
    let store = vec![1];
    assert!(can_open(&store, &vec![], 3, config(0, 0)));
    assert!(can_open(&store, &vec![0; 12], 3, config(0, 12)));
    assert!(can_open(&store, &vec![0; 5], 3, config(0, 12)));
    assert!(!can_open(&store, &vec![1; 5], 3, config(0, 12)));
    assert!(!can_open(&store, &vec![1; 24], 3, config(0, 12)));
    assert!(!can_open(&store, &vec![0; 12], u64::MAX, config(0, 12)));
    assert!(can_open(&vec![], &vec![0; 12], u64::MAX, config(0, 12)));
}

#[test]
fn multiples() {
    let segment = Segment::new("dir", 0, config(1, 1), Vec::new(), Vec::new());
    assert_eq!(segment.nearest_multiple(17, 5), 15);
    assert_eq!(segment.nearest_multiple(15, 5), 15);
    assert_eq!(segment.nearest_multiple(4, 5), 0);
    assert_eq!(segment.nearest_multiple(u64::MAX, 1), u64::MAX);
}
