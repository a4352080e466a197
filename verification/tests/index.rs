//! The index of a segment.
use proglog::error::LogError;
use proglog::log::config::{Config, SegmentConfig};
use proglog::log::file::FileImage;
use proglog::log::index::{Index, ENT_WIDTH, LAST};

fn config(max_index_bytes: u64) -> Config {
    Config {
        segment: SegmentConfig {
            max_index_bytes,
            max_store_bytes: 1024,
            initial_offset: 1,
        },
    }
}

fn empty_index(max_index_bytes: u64) -> Index {
    let file = FileImage {
        name: "dir/0.index".to_string(),
        contents: Vec::new(),
    };
    Index::new(file, config(max_index_bytes))
}

#[test]
fn test_index() {
    let path = "dir/0.index".to_string();
    let mut idx = empty_index(1024);
    assert!(idx.read(-1).is_err(), "Reading empty index should fail");

    assert!(idx.name() == path, "Name should match file path");

    let entries = vec![(0u32, 0u64), (1u32, 10u64)];
    for &(want_off, want_pos) in &entries {
        assert!(
            idx.write(want_off, want_pos).is_ok(),
            "Write should succeed"
        );
        let (off, pos) = idx.read(want_off as i64).unwrap();
        assert!(off == want_off, "Offset should match");
        assert!(pos == want_pos, "Position should match");
    }

    let err = idx
        .read(entries.len() as i64)
        .expect_err("Reading past entries should fail");
    assert!(err.to_string() == "Unexpected EOF", "Error should be EOF");

    let file = idx.close();
    let idx = Index::new(file, config(1024));
    let (off, pos) = idx.read(-1).unwrap();
    assert!(off == 1, "Last offset should be 1");
    assert!(pos == entries[1].1, "Last position should match");
}

#[test]
fn entry_is_big_endian() {
    let mut idx = empty_index(24);
    idx.write(0x01020304, 0x05060708090a0b0c).unwrap();
    assert_eq!(idx.size, ENT_WIDTH);
    let file = idx.close();
    assert_eq!(file.contents, vec![1, 2, 3, 4, 5, 6, 7, 8, 9, 10, 11, 12]);
    assert_eq!(file.name, "dir/0.index");
}

#[test]
fn full_index_takes_no_entry() {
    let mut idx = empty_index(ENT_WIDTH + 3);
    assert_eq!(idx.write(0, 5), Ok(()));
    assert_eq!(idx.write(1, 6), Err(LogError::UnexpectedEof));
    assert_eq!(idx.size, ENT_WIDTH);
    assert_eq!(idx.read(LAST), Ok((0, 5)));
}

#[test]
fn readable_entries() {
    let mut idx = empty_index(36);
    assert!(idx.is_readable(LAST));
    idx.write(0, 1).unwrap();
    assert!(idx.is_readable(LAST));
    assert!(idx.is_readable(7));
    // Three bytes are no entry, so there is no last one.
    let stray = Index::new(
        FileImage {
            name: String::new(),
            contents: vec![1, 2, 3],
        },
        config(36),
    );
    assert!(!stray.is_readable(LAST));
    // An entry that the area is too short for.
    let cut = Index::new(
        FileImage {
            name: String::new(),
            contents: vec![0; 24],
        },
        config(12),
    );
    assert!(!cut.is_readable(1));
    assert!(cut.is_readable(0));
}
