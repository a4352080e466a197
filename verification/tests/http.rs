//! The service over HTTP, its log in memory, and values in base64.
use proglog::record::Record;
use proglog::server::http::{
    consume_reply, produce_reply, ConsumeRequest, HttpServer, ProduceRequest,
};
use proglog::server::log::{from_base64, Base64Error, Log, OffsetNotFound};

fn record(value: &str) -> Record {
    Record {
        value: value.into(),
        offset: 50,
    }
}

#[test]
fn memory_log_reads_back() {
    let mut log = Log::default();
    assert_eq!(log.read(0), Err(OffsetNotFound));
    assert_eq!(log.append(record("one")), 0);
    assert_eq!(log.append(record("two")), 1);
    let one = log.read(0).unwrap();
    assert_eq!((one.value, one.offset), (b"one".to_vec(), 0));
    let two = log.read(1).unwrap();
    assert_eq!((two.value, two.offset), (b"two".to_vec(), 1));
    assert_eq!(log.read(2), Err(OffsetNotFound));
    assert_eq!(OffsetNotFound.to_string(), "offset not found");
}

#[test]
fn produced_record_is_served() {
    let mut server = HttpServer::new();
    for i in 0..2 {
        let reply = server.handle_produce(ProduceRequest {
            record: record("hello"),
        });
        assert_eq!(reply.unwrap().offset, i);
    }
    let reply = server.handle_consume(ConsumeRequest { offset: 1 }).unwrap();
    assert_eq!(reply.record.value, b"hello");
    assert_eq!(reply.record.offset, 1);
}

#[test]
fn missing_record_is_not_found() {
    let server = HttpServer::new();
    let reply = server.handle_consume(ConsumeRequest { offset: 0 });
    assert_eq!(reply, Err((404, "offset not found".to_string())));
}

#[test]
fn failures_have_their_status() {
    let reply = produce_reply(Err("poisoned".to_string()));
    assert_eq!(reply, Err((500, "poisoned".to_string())));
    let reply = consume_reply(Err("poisoned".to_string()));
    assert_eq!(reply, Err((404, "poisoned".to_string())));
}

fn decoded(text: &str) -> Result<Vec<u8>, Base64Error> {
    from_base64(&text.to_string())
}

#[test]
fn base64_values() {
    assert_eq!(decoded(""), Ok(vec![]));
    assert_eq!(decoded("TWFu"), Ok(b"Man".to_vec()));
    assert_eq!(decoded("TWE="), Ok(b"Ma".to_vec()));
    assert_eq!(decoded("TQ=="), Ok(b"M".to_vec()));
    assert_eq!(decoded("aGVsbG8gd29ybGQ="), Ok(b"hello world".to_vec()));
    assert_eq!(decoded("+/+/"), Ok(vec![0xfb, 0xff, 0xbf]));
}

#[test]
fn what_is_no_base64() {
    let error = decoded("TW!u").unwrap_err();
    assert_eq!(error, Base64Error::InvalidByte(2, b'!'));
    assert_eq!(error.to_string(), "Invalid symbol 33, offset 2.");
    let error = decoded("TWFuT").unwrap_err();
    assert_eq!(error, Base64Error::InvalidLength(5));
    assert_eq!(error.to_string(), "Invalid input length: 5");
    let error = decoded("TR==").unwrap_err();
    assert_eq!(error, Base64Error::InvalidLastSymbol(1, b'R'));
    assert_eq!(error.to_string(), "Invalid last symbol 82, offset 1.");
    let error = decoded("TQ").unwrap_err();
    assert_eq!(error, Base64Error::InvalidPadding);
    assert_eq!(error.to_string(), "Invalid padding");
}
