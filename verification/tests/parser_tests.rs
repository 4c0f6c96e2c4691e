use rsedis::parser::{parse, Argument, OwnedParsedCommand, ParseError, ParsedCommand, Parser};

#[test]
fn parse_simple_command() {
    let input = b"*2\r\n$3\r\nGET\r\n$3\r\nkey\r\n";
    let (cmd, n) = parse(input).unwrap();
    assert_eq!(n, input.len());
    assert_eq!(cmd.argv.len(), 2);
    assert_eq!(cmd.get_slice(0).unwrap(), b"GET");
    assert_eq!(cmd.get_str(1).unwrap(), "key");
    assert_eq!(cmd.get_vec(1).unwrap(), b"key".to_vec());
}

#[test]
fn parse_leaves_following_bytes() {
    let input = b"*1\r\n$4\r\nPING\r\n*1\r\n$4\r\nPING\r\n";
    let (cmd, n) = parse(input).unwrap();
    assert_eq!(n, 14);
    assert_eq!(cmd.get_slice(0).unwrap(), b"PING");
}

#[test]
fn parse_skips_blank_lines() {
    let input = b"\r\n\r\n*1\r\n$1\r\na\r\n";
    let (cmd, n) = parse(input).unwrap();
    assert_eq!(n, input.len());
    assert_eq!(cmd.get_slice(0).unwrap(), b"a");
}

#[test]
fn parse_incomplete_inputs() {
    for input in [&b""[..], b"*", b"*2\r", b"*2\r\n$3\r\nGE", b"*2\r\n$3\r\nGET\r\n", b"\r"] {
        match parse(input) {
            Err(ParseError::Incomplete) => {},
            _ => panic!("expected incomplete for {:?}", input),
        }
    }
}

#[test]
fn parse_protocol_errors() {
    let cases: [(&[u8], &str); 5] = [
        (b"GET key\r\n", "expected '*'"),
        (b"*1\r\nx3\r\n", "expected '$'"),
        (b"*x\r\n", "invalid multibulk length"),
        (b"*1\r\n$x\r\n", "invalid bulk length"),
        (b"*1\r\n$1\r\nab\r\n", "expected \\r\\n separator"),
    ];
    for (input, msg) in cases {
        match parse(input) {
            Err(ParseError::BadProtocol(m)) => assert_eq!(m, msg),
            _ => panic!("expected a protocol error for {:?}", input),
        }
    }
}

#[test]
fn parse_negative_bulk_length_is_an_error() {
    match parse(b"*1\r\n$-1\r\n") {
        Err(ParseError::BadProtocol(m)) => assert_eq!(m, "invalid bulk length"),
        _ => panic!("expected a protocol error"),
    }
}

#[test]
fn parse_negative_count_is_empty() {
    let (cmd, n) = parse(b"*-1\r\n").unwrap();
    assert_eq!(n, 5);
    assert_eq!(cmd.argv.len(), 0);
}

#[test]
fn get_i64_reads_integers() {
    let input = b"*4\r\n$2\r\n42\r\n$3\r\n-17\r\n$2\r\nab\r\n$20\r\n99999999999999999999\r\n";
    let (cmd, _) = parse(input).unwrap();
    assert_eq!(cmd.get_i64(0).unwrap(), 42);
    assert_eq!(cmd.get_i64(1).unwrap(), -17);
    assert!(matches!(cmd.get_i64(2), Err(ParseError::InvalidArgument)));
    assert!(matches!(cmd.get_i64(3), Err(ParseError::InvalidArgument)));
    assert!(matches!(cmd.get_i64(4), Err(ParseError::InvalidArgument)));
}

#[test]
fn get_str_rejects_invalid_utf8() {
    let input = b"*1\r\n$2\r\n\xff\xfe\r\n";
    let (cmd, _) = parse(input).unwrap();
    assert!(matches!(cmd.get_str(0), Err(ParseError::InvalidArgument)));
    assert_eq!(cmd.get_slice(0).unwrap(), b"\xff\xfe");
    assert!(matches!(cmd.get_slice(1), Err(ParseError::InvalidArgument)));
}

#[test]
fn owned_command_keeps_arguments() {
    let data = b"xxabcd".to_vec();
    let argv = vec![Argument { pos: 2, len: 2 }, Argument { pos: 4, len: 2 }];
    let cmd = ParsedCommand::new(&data, argv);
    assert_eq!(cmd.get_data(), b"xxabcd");
    let owned: OwnedParsedCommand = cmd.into_owned();
    let again = owned.get_command();
    assert_eq!(again.get_slice(0).unwrap(), b"ab");
    assert_eq!(again.get_slice(1).unwrap(), b"cd");
    let owned2 = OwnedParsedCommand::new(b"hello".to_vec(), vec![Argument { pos: 1, len: 3 }]);
    assert_eq!(owned2.get_command().get_str(0).unwrap(), "ell");
    let copy = owned2.get_command().to_owned();
    assert_eq!(copy.get_command().get_vec(0).unwrap(), b"ell".to_vec());
}

#[test]
fn parser_collects_bytes() {
    let mut parser = Parser::new();
    assert!(parser.is_incomplete());
    parser.allocate();
    assert_eq!(parser.get_mut().len(), 16);
    let input = b"*1\r\n$4\r\nPING\r\n";
    parser.get_mut()[..5].copy_from_slice(&input[..5]);
    parser.written = 5;
    assert!(parser.is_incomplete());
    assert!(matches!(parser.next(), Err(ParseError::Incomplete)));
    parser.allocate();
    assert_eq!(parser.get_mut().len(), 16);
    parser.get_mut()[5..14].copy_from_slice(&input[5..]);
    parser.written = 14;
    {
        let cmd = parser.next().unwrap();
        assert_eq!(cmd.get_slice(0).unwrap(), b"PING");
    }
    assert_eq!(parser.position, 14);
    assert!(parser.is_incomplete());
    parser.allocate();
    assert_eq!(parser.position, 0);
    assert_eq!(parser.written, 0);
}

#[test]
fn parser_allocation_doubles_when_half_full() {
    let mut parser = Parser::default();
    parser.allocate();
    parser.written = 9;
    parser.allocate();
    assert_eq!(parser.get_mut().len(), 32);
    parser.written = 10;
    parser.allocate();
    assert_eq!(parser.get_mut().len(), 32);
}

#[test]
fn parse_error_texts() {
    assert_eq!(ParseError::Incomplete.response_string(), "Incomplete data");
    assert_eq!(ParseError::InvalidArgument.response_string(), "Invalid argument");
    assert_eq!(
        ParseError::BadProtocol("expected '*'".to_owned()).response_string(),
        "Protocol error: expected '*'"
    );
    assert!(ParseError::Incomplete.is_incomplete());
    assert!(!ParseError::InvalidArgument.is_incomplete());
}

#[test]
fn parse_errors_convert() {
    let e: ParseError = "x".parse::<i64>().unwrap_err().into();
    assert!(matches!(e, ParseError::InvalidArgument));
    let bytes = vec![0xffu8];
    let e: ParseError = std::str::from_utf8(&bytes).unwrap_err().into();
    assert!(matches!(e, ParseError::InvalidArgument));
}

#[test]
fn every_proper_prefix_is_incomplete() {
    let m = b"\r\n*2\r\n$3\r\nfoo\r\n$4\r\nbarz\r\n";
    let (_, n) = parse(m).unwrap();
    assert_eq!(n, m.len());
    for k in 0..n {
        assert!(matches!(parse(&m[..k]), Err(ParseError::Incomplete)), "prefix {}", k);
    }
    let mut longer = m.to_vec();
    longer.extend_from_slice(b"*1\r\n");
    let (c, n2) = parse(&longer).unwrap();
    assert_eq!(n2, n);
    assert_eq!(c.get_slice(1).unwrap(), b"barz");
}
