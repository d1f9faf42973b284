use petracache::handler::{respond_delete, respond_get, respond_set, respond_version};
use petracache::protocol::ResponseWriter;
use petracache::storage::{MultiGet, StoredValue};
use petracache::{ProtocolError, StorageError};

#[test]
fn test_value() {
    let mut writer = ResponseWriter::new(256);
    writer.value(b"mykey", 42, b"hello");
    assert_eq!(writer.buffer(), b"VALUE mykey 42 5\r\nhello\r\n");
}

#[test]
fn test_get_response() {
    let mut writer = ResponseWriter::new(256);
    writer.value(b"key1", 0, b"value1");
    writer.value(b"key2", 1, b"value2");
    writer.end();

    let expected = b"VALUE key1 0 6\r\nvalue1\r\nVALUE key2 1 6\r\nvalue2\r\nEND\r\n";
    assert_eq!(writer.buffer(), &expected[..]);
}

#[test]
fn test_simple_responses() {
    let mut writer = ResponseWriter::new(256);

    writer.stored();
    assert_eq!(writer.take().as_ref(), b"STORED\r\n");

    writer.deleted();
    assert_eq!(writer.take().as_ref(), b"DELETED\r\n");

    writer.not_found();
    assert_eq!(writer.take().as_ref(), b"NOT_FOUND\r\n");
}

#[test]
fn test_errors() {
    let mut writer = ResponseWriter::new(256);

    writer.client_error("bad command line format");
    assert_eq!(writer.take().as_ref(), b"CLIENT_ERROR bad command line format\r\n");

    writer.server_error("out of memory");
    assert_eq!(writer.take().as_ref(), b"SERVER_ERROR out of memory\r\n");
}

#[test]
fn test_version() {
    let mut writer = ResponseWriter::new(256);
    writer.version("rocksproxy 0.1.0");
    assert_eq!(writer.buffer(), b"VERSION rocksproxy 0.1.0\r\n");
}

// ---- further cases

#[test]
fn value_line_numbers_are_shortest_decimal() {
    let mut writer = ResponseWriter::default();
    writer.value(b"k", 4294967295, b"");
    writer.value(b"k", 0, &[7u8; 1234]);
    let out = writer.buffer().to_vec();
    assert!(out.starts_with(b"VALUE k 4294967295 0\r\n\r\nVALUE k 0 1234\r\n"));
    assert_eq!(out.len(), 24 + 16 + 1234 + 2);
}

#[test]
fn take_and_clear_leave_the_writer_empty() {
    let mut writer = ResponseWriter::new(0);
    assert!(writer.is_empty());
    writer.end();
    assert!(!writer.is_empty());
    writer.clear();
    assert!(writer.is_empty());
    writer.stored();
    let taken = writer.take();
    assert_eq!(&taken[..], b"STORED\r\n");
    assert!(writer.is_empty());
    assert_eq!(writer.buffer(), b"");
}

#[test]
fn error_lines() {
    let mut writer = ResponseWriter::new(64);
    writer.protocol_error(&ProtocolError::UnexpectedData);
    writer.storage_error(&StorageError::Engine("disk on fire".to_string()));
    assert_eq!(
        writer.buffer(),
        b"CLIENT_ERROR Unexpected data\r\nSERVER_ERROR Storage engine error: disk on fire\r\n"
    );
}

#[test]
fn handler_responses() {
    let mut w = ResponseWriter::new(64);
    let outcome = Ok(MultiGet {
        results: vec![
            (b"a".to_vec(), Some(StoredValue::with_expire_at(9, 0, b"x".to_vec()))),
            (b"b".to_vec(), None),
        ],
        expired: vec![],
    });
    assert_eq!(respond_get(&mut w, &outcome), (1, 1));
    assert_eq!(w.take().as_ref(), b"VALUE a 9 1\r\nx\r\nEND\r\n");

    assert_eq!(respond_get(&mut w, &Err(StorageError::NotFound)), (0, 0));
    assert_eq!(w.take().as_ref(), b"SERVER_ERROR Key not found\r\n");

    respond_set(&mut w, &Ok(()));
    respond_delete(&mut w, &Ok(true));
    respond_delete(&mut w, &Ok(false));
    respond_set(&mut w, &Err(StorageError::Internal("x".to_string())));
    assert_eq!(
        w.take().as_ref(),
        b"STORED\r\nDELETED\r\nNOT_FOUND\r\nSERVER_ERROR Internal error: x\r\n"
    );

    respond_version(&mut w);
    assert_eq!(w.take().as_ref(), b"VERSION petracache 0.1.0\r\n");
}
