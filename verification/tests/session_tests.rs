use rsedis::database::{Config, Database};
use rsedis::logger::{log_step, Level, LogAction, LogEvent};
use rsedis::parser::Parser;
use rsedis::response::Response;
use rsedis::session::{client_step, client_turn, pending_turn, serve_pending, ClientAction};

fn feed(parser: &mut Parser, bytes: &[u8]) -> usize {
    parser.allocate();
    let start = parser.written;
    let buffer = parser.get_mut();
    if buffer.len() < start + bytes.len() {
        buffer.resize(start + bytes.len(), 0);
    }
    buffer[start..start + bytes.len()].copy_from_slice(bytes);
    bytes.len()
}

#[test]
fn client_runs_a_command() {
    let mut db = Database::new(Config { databases: 1 });
    let mut parser = Parser::new();
    let n = feed(&mut parser, b"*3\r\n$3\r\nset\r\n$1\r\nk\r\n$1\r\nv\r\n");
    match client_step(&mut parser, &mut db, 0, n, 0) {
        ClientAction::Reply(r) => assert_eq!(r, Response::Status("OK".to_owned())),
        _ => panic!("expected a reply"),
    }
    assert_eq!(parser.position, n);
    let n = feed(&mut parser, b"*2\r\n$3\r\nget\r\n$1\r\nk\r\n");
    match client_turn(&mut parser, &mut db, 0, n) {
        ClientAction::Reply(r) => assert_eq!(r, Response::Data(b"v".to_vec())),
        _ => panic!("expected a reply"),
    }
}

#[test]
fn client_waits_for_the_rest() {
    let mut db = Database::new(Config { databases: 1 });
    let mut parser = Parser::new();
    let n = feed(&mut parser, b"*2\r\n$3\r\nget");
    assert!(matches!(client_step(&mut parser, &mut db, 0, n, 0), ClientAction::Read));
    assert_eq!(parser.position, 0);
    let n = feed(&mut parser, b"\r\n$1\r\nk\r\n");
    match client_step(&mut parser, &mut db, 0, n, 0) {
        ClientAction::Reply(r) => assert_eq!(r, Response::Nil),
        _ => panic!("expected a reply"),
    }
}

#[test]
fn client_closes_on_end_of_stream() {
    let mut db = Database::new(Config { databases: 1 });
    let mut parser = Parser::new();
    assert!(matches!(client_step(&mut parser, &mut db, 0, 0, 0), ClientAction::Close));
}

#[test]
fn client_fails_on_protocol_error() {
    let mut db = Database::new(Config { databases: 1 });
    let mut parser = Parser::new();
    let n = feed(&mut parser, b"hello\r\n");
    match client_step(&mut parser, &mut db, 0, n, 0) {
        ClientAction::Fail(r) => {
            assert_eq!(r, Response::Error("Protocol error: expected '*'".to_owned()))
        },
        _ => panic!("expected a failure"),
    }
}

#[test]
fn client_reads_again_after_empty_command() {
    let mut db = Database::new(Config { databases: 1 });
    let mut parser = Parser::new();
    let n = feed(&mut parser, b"*0\r\n");
    assert!(matches!(client_step(&mut parser, &mut db, 0, n, 0), ClientAction::Read));
    assert_eq!(parser.position, 4);
}

#[test]
fn client_hands_out_outside_commands() {
    let mut db = Database::new(Config { databases: 1 });
    let mut parser = Parser::new();
    let n = feed(&mut parser, b"*3\r\n$11\r\nINCRBYFLOAT\r\n$1\r\nk\r\n$3\r\n1.5\r\n");
    match client_step(&mut parser, &mut db, 0, n, 0) {
        ClientAction::Forward(cmd) => {
            let c = cmd.get_command();
            assert_eq!(c.get_slice(0).unwrap(), b"INCRBYFLOAT");
            assert_eq!(c.get_slice(2).unwrap(), b"1.5");
        },
        _ => panic!("expected the command to be handed out"),
    }
    assert_eq!(parser.position, n);
    let n = feed(&mut parser, b"*1\r\n$7\r\nmonitor\r\n");
    assert!(matches!(client_step(&mut parser, &mut db, 0, n, 0), ClientAction::Forward(_)));
}

#[test]
fn pipelined_commands_are_served_in_turn() {
    let mut db = Database::new(Config { databases: 1 });
    let mut parser = Parser::new();
    let n = feed(&mut parser, b"*2\r\n$4\r\nincr\r\n$1\r\nn\r\n*2\r\n$4\r\nincr\r\n$1\r\nn\r\n");
    match client_step(&mut parser, &mut db, 0, n, 0) {
        ClientAction::Reply(r) => assert_eq!(r, Response::Integer(1)),
        _ => panic!("expected a reply"),
    }
    match serve_pending(&mut parser, &mut db, 0, 0) {
        ClientAction::Reply(r) => assert_eq!(r, Response::Integer(2)),
        _ => panic!("expected a reply"),
    }
    assert!(matches!(pending_turn(&mut parser, &mut db, 0), ClientAction::Read));
    assert_eq!(parser.position, parser.written);
}

#[test]
fn level_ordering() {
    assert!(Level::Debug.contains(&Level::Debug));
    assert!(Level::Debug.contains(&Level::Warning));
    assert!(Level::Verbose.contains(&Level::Notice));
    assert!(!Level::Verbose.contains(&Level::Debug));
    assert!(Level::Notice.contains(&Level::Warning));
    assert!(!Level::Notice.contains(&Level::Verbose));
    assert!(Level::Warning.contains(&Level::Warning));
    assert!(!Level::Warning.contains(&Level::Notice));
}

fn event(level: Option<Level>, message: Option<&str>) -> LogEvent {
    LogEvent {
        has_output: false,
        level,
        message: message.map(|m| m.to_owned()),
        has_syslog: false,
        exit: None,
    }
}

#[test]
fn log_messages_are_filtered_by_level() {
    let mut level = Level::Notice;
    match log_step(&mut level, event(Some(Level::Warning), Some("disk full"))) {
        (LogAction::Write(line, l), None) => {
            assert_eq!(line, "disk full\n");
            assert_eq!(l, Level::Warning);
        },
        _ => panic!("expected a write"),
    }
    assert!(matches!(log_step(&mut level, event(Some(Level::Debug), Some("noise"))), (LogAction::Filtered, None)));
    assert_eq!(level, Level::Notice);
}

#[test]
fn log_level_changes() {
    let mut level = Level::Warning;
    assert!(matches!(log_step(&mut level, event(Some(Level::Debug), None)), (LogAction::SetLevel, None)));
    assert_eq!(level, Level::Debug);
    assert!(matches!(
        log_step(&mut level, event(Some(Level::Debug), Some("now shown"))),
        (LogAction::Write(_, Level::Debug), None)
    ));
}

#[test]
fn log_outputs_syslog_and_exit() {
    let mut level = Level::Verbose;
    let mut e = event(None, None);
    e.has_output = true;
    e.exit = Some(3);
    assert!(matches!(log_step(&mut level, e), (LogAction::SetOutput, Some(3))));
    let mut e = event(None, None);
    e.has_syslog = true;
    assert!(matches!(log_step(&mut level, e), (LogAction::SetSyslog, None)));
    assert!(matches!(log_step(&mut level, event(None, Some("lost"))), (LogAction::Unknown, None)));
    assert_eq!(level, Level::Verbose);
}

#[test]
fn log_stream_follows_last_level() {
    let mut level = Level::Warning;
    let mut lines = Vec::new();
    let stream = vec![
        event(Some(Level::Notice), Some("a")),
        event(Some(Level::Verbose), None),
        event(Some(Level::Notice), Some("b")),
        event(Some(Level::Debug), Some("c")),
        event(Some(Level::Warning), None),
        event(Some(Level::Notice), Some("d")),
        event(Some(Level::Warning), Some("e")),
    ];
    for e in stream {
        if let (LogAction::Write(line, _), _) = log_step(&mut level, e) {
            lines.push(line);
        }
    }
    assert_eq!(lines, vec!["b\n".to_owned(), "e\n".to_owned()]);
    assert_eq!(level, Level::Warning);
}
