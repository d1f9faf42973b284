use petracache::protocol::{
    is_valid_key, parse, parse_storage_command_line, parse_storage_data, Command, ParseResult,
};
use petracache::ProtocolError;

#[test]
fn test_is_valid_key() {
    assert!(is_valid_key(b"valid_key"));
    assert!(is_valid_key(b"key-with-dashes"));
    assert!(is_valid_key(b"key:with:colons"));
    assert!(!is_valid_key(b""));
    assert!(!is_valid_key(b"key with space"));
    assert!(!is_valid_key(b"key\twith\ttab"));
    assert!(!is_valid_key(&[b'a'; 251])); // Too long
}

#[test]
fn test_is_noreply() {
    let cmd = Command::Store {
        key: b"key".to_vec(),
        flags: 0,
        exptime: 0,
        data: b"data".to_vec(),
        noreply: true,
    };
    assert!(cmd.is_noreply());

    let cmd = Command::Get { keys: vec![b"key".to_vec()] };
    assert!(!cmd.is_noreply());
}

#[test]
fn test_parse_get() {
    let buf = b"get foo bar baz\r\n";
    match parse(buf) {
        ParseResult::Complete(Command::Get { keys }, consumed) => {
            assert_eq!(keys.len(), 3);
            assert_eq!(keys[0].as_slice(), b"foo");
            assert_eq!(keys[1].as_slice(), b"bar");
            assert_eq!(keys[2].as_slice(), b"baz");
            assert_eq!(consumed, buf.len());
        }
        other => panic!("unexpected: {:?}", other),
    }
}

#[test]
fn test_parse_set() {
    let buf = b"set mykey 42 3600 5\r\nhello\r\n";
    match parse(buf) {
        ParseResult::Complete(Command::Store { key, flags, exptime, data, noreply }, consumed) => {
            assert_eq!(key.as_slice(), b"mykey");
            assert_eq!(flags, 42);
            assert_eq!(exptime, 3600);
            assert_eq!(data.as_slice(), b"hello");
            assert!(!noreply);
            assert_eq!(consumed, buf.len());
        }
        other => panic!("unexpected: {:?}", other),
    }
}

#[test]
fn test_parse_set_noreply() {
    let buf = b"set mykey 0 0 3 noreply\r\nfoo\r\n";
    match parse(buf) {
        ParseResult::Complete(Command::Store { noreply, .. }, _) => {
            assert!(noreply);
        }
        other => panic!("unexpected: {:?}", other),
    }
}

#[test]
fn test_parse_delete() {
    let buf = b"delete mykey\r\n";
    match parse(buf) {
        ParseResult::Complete(Command::Delete { key, noreply }, _) => {
            assert_eq!(key.as_slice(), b"mykey");
            assert!(!noreply);
        }
        other => panic!("unexpected: {:?}", other),
    }
}

#[test]
fn test_parse_delete_noreply() {
    let buf = b"delete mykey noreply\r\n";
    match parse(buf) {
        ParseResult::Complete(Command::Delete { noreply, .. }, _) => {
            assert!(noreply);
        }
        other => panic!("unexpected: {:?}", other),
    }
}

#[test]
fn test_parse_delete_with_exptime() {
    // delete <key> <exptime>
    let buf = b"delete mykey 0\r\n";
    match parse(buf) {
        ParseResult::Complete(Command::Delete { key, noreply }, _) => {
            assert_eq!(key.as_slice(), b"mykey");
            assert!(!noreply);
        }
        other => panic!("unexpected: {:?}", other),
    }

    // delete <key> <exptime> noreply
    let buf = b"delete mykey 300 noreply\r\n";
    match parse(buf) {
        ParseResult::Complete(Command::Delete { key, noreply }, _) => {
            assert_eq!(key.as_slice(), b"mykey");
            assert!(noreply);
        }
        other => panic!("unexpected: {:?}", other),
    }
}

#[test]
fn test_parse_quit() {
    let buf = b"quit\r\n";
    match parse(buf) {
        ParseResult::Complete(Command::Quit, _) => {}
        other => panic!("unexpected: {:?}", other),
    }
}

#[test]
fn test_parse_version() {
    let buf = b"version\r\n";
    match parse(buf) {
        ParseResult::Complete(Command::Version, consumed) => {
            assert_eq!(consumed, buf.len());
        }
        other => panic!("unexpected: {:?}", other),
    }

    // Case insensitive
    let buf = b"VERSION\r\n";
    match parse(buf) {
        ParseResult::Complete(Command::Version, _) => {}
        other => panic!("unexpected: {:?}", other),
    }
}

#[test]
fn test_parse_need_more_data() {
    let buf = b"get foo";
    match parse(buf) {
        ParseResult::NeedMoreData => {}
        other => panic!("unexpected: {:?}", other),
    }
}

#[test]
fn test_parse_invalid_command() {
    let buf = b"invalid\r\n";
    match parse(buf) {
        ParseResult::Error(ProtocolError::InvalidCommand(_)) => {}
        other => panic!("unexpected: {:?}", other),
    }
}

#[test]
fn test_parse_key_too_long() {
    let long_key = vec![b'a'; 251];
    let mut buf = b"get ".to_vec();
    buf.extend_from_slice(&long_key);
    buf.extend_from_slice(b"\r\n");

    match parse(&buf) {
        ParseResult::Error(ProtocolError::KeyTooLong) => {}
        other => panic!("unexpected: {:?}", other),
    }
}

#[test]
fn test_case_insensitive_commands() {
    let buf = b"GET foo\r\n";
    match parse(buf) {
        ParseResult::Complete(Command::Get { .. }, _) => {}
        other => panic!("unexpected: {:?}", other),
    }

    let buf = b"SET mykey 0 0 3\r\nbar\r\n";
    match parse(buf) {
        ParseResult::Complete(Command::Store { .. }, _) => {}
        other => panic!("unexpected: {:?}", other),
    }
}

// ---- further cases

#[test]
fn key_validation_edges() {
    assert!(is_valid_key(&[b'a'; 250]));
    assert!(is_valid_key(&[0x21, 0x7e]));
    assert!(!is_valid_key(&[0x20]));
    assert!(!is_valid_key(&[0x7f]));
    assert!(!is_valid_key(&[b'a', 0x00]));
    assert!(!is_valid_key(&[0xc3, 0xa9]));
}

#[test]
fn get_skips_empty_tokens_and_needs_a_key() {
    match parse(b"get  foo  bar\r\n") {
        ParseResult::Complete(Command::Get { keys }, n) => {
            assert_eq!(keys, vec![b"foo".to_vec(), b"bar".to_vec()]);
            assert_eq!(n, 15);
        }
        other => panic!("unexpected: {:?}", other),
    }
    match parse(b"get\r\n") {
        ParseResult::Error(ProtocolError::InvalidCommand(msg)) => {
            assert_eq!(msg, "get requires at least one key");
        }
        other => panic!("unexpected: {:?}", other),
    }
    match parse(b"get a\x01b\r\n") {
        ParseResult::Error(ProtocolError::InvalidKey(k)) => assert_eq!(k, "a\u{1}b"),
        other => panic!("unexpected: {:?}", other),
    }
}

#[test]
fn invalid_key_text_replaces_bad_utf8() {
    match parse(b"delete \xff\r\n") {
        ParseResult::Error(ProtocolError::InvalidKey(k)) => assert_eq!(k, "\u{fffd}"),
        other => panic!("unexpected: {:?}", other),
    }
    match parse(b"fr\xffob\r\n") {
        ParseResult::Error(ProtocolError::InvalidCommand(k)) => assert_eq!(k, "fr\u{fffd}ob"),
        other => panic!("unexpected: {:?}", other),
    }
}

#[test]
fn empty_line_is_an_error() {
    match parse(b"\r\nversion\r\n") {
        ParseResult::Error(ProtocolError::InvalidCommand(msg)) => assert_eq!(msg, "empty command"),
        other => panic!("unexpected: {:?}", other),
    }
}

#[test]
fn lone_newline_does_not_end_a_line() {
    match parse(b"version\n") {
        ParseResult::NeedMoreData => {}
        other => panic!("unexpected: {:?}", other),
    }
}

#[test]
fn set_header_errors() {
    let cases: Vec<(&[u8], ProtocolError)> = vec![
        (b"set\r\n", ProtocolError::InvalidCommand("missing key".to_string())),
        (b"set k\r\n", ProtocolError::InvalidFlags),
        (b"set k x 0 1\r\n", ProtocolError::InvalidFlags),
        (b"set k 4294967296 0 1\r\n", ProtocolError::InvalidFlags),
        (b"set k +1 0 1\r\n", ProtocolError::InvalidFlags),
        (b"set k 1 -5 1\r\n", ProtocolError::InvalidExptime),
        (b"set k 1 18446744073709551616 1\r\n", ProtocolError::InvalidExptime),
        (b"set k 1 0\r\n", ProtocolError::InvalidBytesLength),
        (b"set k 1 0 z\r\n", ProtocolError::InvalidBytesLength),
    ];
    for (input, expected) in cases {
        match parse(input) {
            ParseResult::Error(e) => assert_eq!(e, expected),
            other => panic!("unexpected: {:?}", other),
        }
    }
    let mut long = b"set ".to_vec();
    long.extend_from_slice(&[b'k'; 251]);
    long.extend_from_slice(b" 0 0 1\r\n");
    match parse(&long) {
        ParseResult::Error(ProtocolError::KeyTooLong) => {}
        other => panic!("unexpected: {:?}", other),
    }
}

#[test]
fn set_largest_numbers() {
    match parse(b"set k 4294967295 18446744073709551615 0\r\n\r\n") {
        ParseResult::Complete(Command::Store { flags, exptime, data, .. }, n) => {
            assert_eq!(flags, u32::MAX);
            assert_eq!(exptime, u64::MAX);
            assert!(data.is_empty());
            assert_eq!(n, 43);
        }
        other => panic!("unexpected: {:?}", other),
    }
}

#[test]
fn set_body_is_opaque_and_checked() {
    match parse(b"set k 0 0 4\r\na\r\nb\r\n") {
        ParseResult::Complete(Command::Store { data, .. }, n) => {
            assert_eq!(data, b"a\r\nb".to_vec());
            assert_eq!(n, 19);
        }
        other => panic!("unexpected: {:?}", other),
    }
    match parse(b"set k 0 0 2\r\nabcd\r\n") {
        ParseResult::Error(ProtocolError::UnexpectedData) => {}
        other => panic!("unexpected: {:?}", other),
    }
    match parse(b"set k 0 0 5\r\nabc") {
        ParseResult::NeedMoreData => {}
        other => panic!("unexpected: {:?}", other),
    }
}

#[test]
fn complete_consumes_only_its_own_bytes() {
    let buf = b"get a\r\nget b\r\n";
    match parse(buf) {
        ParseResult::Complete(Command::Get { keys }, n) => {
            assert_eq!(keys, vec![b"a".to_vec()]);
            assert_eq!(n, 7);
            match parse(&buf[n..]) {
                ParseResult::Complete(Command::Get { keys }, m) => {
                    assert_eq!(keys, vec![b"b".to_vec()]);
                    assert_eq!(m, 7);
                }
                other => panic!("unexpected: {:?}", other),
            }
        }
        other => panic!("unexpected: {:?}", other),
    }
}

#[test]
fn header_then_data_phase() {
    let header = b"set k 5 0 4 noreply\r\nab";
    let pending = parse_storage_command_line(header).unwrap().unwrap();
    assert_eq!(pending.key, b"k".to_vec());
    assert_eq!(pending.flags, 5);
    assert_eq!(pending.bytes, 4);
    assert!(pending.noreply);
    assert_eq!(pending.command_line_end, 19);
    match parse_storage_data(header, &pending) {
        ParseResult::NeedMoreData => {}
        other => panic!("unexpected: {:?}", other),
    }
    let full = b"set k 5 0 4 noreply\r\nabcd\r\n";
    match parse_storage_data(full, &pending) {
        ParseResult::Complete(Command::Store { key, flags, data, noreply, .. }, n) => {
            assert_eq!(key, b"k".to_vec());
            assert_eq!(flags, 5);
            assert_eq!(data, b"abcd".to_vec());
            assert!(noreply);
            assert_eq!(n, full.len());
        }
        other => panic!("unexpected: {:?}", other),
    }
    assert!(parse_storage_command_line(b"get k\r\n").unwrap().is_none());
    assert!(parse_storage_command_line(b"set k 0 0").unwrap().is_none());
    assert_eq!(
        parse_storage_command_line(b"set k 0 0 x\r\n").unwrap_err(),
        ProtocolError::InvalidBytesLength
    );
}

#[test]
fn protocol_error_messages() {
    assert_eq!(ProtocolError::InvalidFlags.message(), b"Invalid flags".to_vec());
    assert_eq!(
        ProtocolError::InvalidCommand("garbage".to_string()).message(),
        b"Invalid command: garbage".to_vec()
    );
    assert_eq!(ProtocolError::KeyTooLong.message(), b"Key too long (max 250 bytes)".to_vec());
}

#[test]
fn into_owned_keeps_the_command() {
    let cmd = Command::Delete { key: b"k".to_vec(), noreply: true };
    assert_eq!(cmd.clone().into_owned(), cmd);
}
