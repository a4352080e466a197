//! The store of a segment, and the bytes in it.
use proglog::error::LogError;
use proglog::log::file::FileImage;
use proglog::log::store::{Store, LEN_WIDTH};

const WRITE: &[u8] = b"hello world";
const WIDTH: u64 = (WRITE.len() as u64) + LEN_WIDTH as u64;

fn empty_store() -> Store {
    Store::new_store(FileImage {
        name: "dir/0.store".to_string(),
        contents: Vec::new(),
    })
}

#[test]
fn test_store_append_read() {
    let mut store = empty_store();
    check_append(&mut store);
    check_read(&store);
    check_read_at(&store);

    let file = store.close();
    let store = Store::new_store(FileImage {
        name: file.name.clone(),
        contents: file.contents.clone(),
    });
    check_read(&store);
}

#[test]
fn test_store_close() {
    let mut store = empty_store();
    let (_, _) = store.append(WRITE);
    let before_size = store.file.contents.len();
    let after_size = store.close().contents.len();
    assert!(
        after_size == before_size,
        "expected after_size {} > before_size {}",
        after_size,
        before_size
    );
}

fn check_append(store: &mut Store) {
    let (n, pos) = store.append(WRITE);
    assert_eq!(n, WIDTH, "expected {} bytes written, got {}", WIDTH, n);
    assert_eq!(pos, 0, "expected position 0, got {}", pos);
}

fn check_read(store: &Store) {
    let data = store.read(0).unwrap();
    assert_eq!(data, WRITE, "expected read data to match {:?}", WRITE);
}

fn check_read_at(store: &Store) {
    let mut buffer = vec![0u8; WRITE.len()];
    let bytes_read = store.read_at(&mut buffer, LEN_WIDTH as u64);
    assert_eq!(bytes_read, WRITE.len());
    assert_eq!(buffer, WRITE, "expected read_at data to match {:?}", WRITE);
}

#[test]
fn frame_has_length_first() {
    let mut store = empty_store();
    store.append(&[7, 8, 9]);
    assert_eq!(
        store.file.contents,
        vec![0, 0, 0, 0, 0, 0, 0, 3, 7, 8, 9]
    );
    assert_eq!(store.append(&[]), (8, 11));
    assert_eq!(store.size, 19);
    assert_eq!(store.read(11), Ok(vec![]));
}

#[test]
fn earlier_frames_stay() {
    let mut store = empty_store();
    let (_, first) = store.append(b"one");
    let (_, second) = store.append(b"three");
    assert_eq!(store.read(first).unwrap(), b"one");
    assert_eq!(store.read(second).unwrap(), b"three");
}

#[test]
fn read_past_the_end_is_short() {
    let mut store = empty_store();
    assert_eq!(store.read(0), Err(LogError::ShortRead));
    store.append(WRITE);
    assert_eq!(store.read(WIDTH), Err(LogError::ShortRead));
    assert_eq!(store.read(u64::MAX), Err(LogError::ShortRead));
    // A length that runs past the end of the file.
    assert_eq!(store.read(8), Err(LogError::ShortRead));
}

#[test]
fn read_at_stops_at_the_end() {
    let mut store = empty_store();
    store.append(b"abc");
    let mut buffer = vec![255u8; 5];
    assert_eq!(store.read_at(&mut buffer, 9), 2);
    assert_eq!(buffer, vec![b'b', b'c', 255, 255, 255]);
    assert_eq!(store.read_at(&mut buffer, 11), 0);
    assert_eq!(buffer, vec![b'b', b'c', 255, 255, 255]);
}
