use rsedis::response::Response;

#[test]
fn nil_wire_form() {
    assert_eq!(Response::Nil.as_bytes(), b"$-1\r\n".to_vec());
}

#[test]
fn integer_wire_form() {
    assert_eq!(Response::Integer(42).as_bytes(), b":42\r\n".to_vec());
    assert_eq!(Response::Integer(-7).as_bytes(), b":-7\r\n".to_vec());
    assert_eq!(Response::Integer(0).as_bytes(), b":0\r\n".to_vec());
    assert_eq!(
        Response::Integer(i64::MIN).as_bytes(),
        b":-9223372036854775808\r\n".to_vec()
    );
}

#[test]
fn data_wire_form() {
    assert_eq!(Response::Data(b"hello".to_vec()).as_bytes(), b"$5\r\nhello\r\n".to_vec());
    assert_eq!(Response::Data(vec![]).as_bytes(), b"$0\r\n\r\n".to_vec());
}

#[test]
fn error_and_status_wire_form() {
    assert_eq!(Response::Error("ERR bad".to_owned()).as_bytes(), b"-ERR bad\r\n".to_vec());
    assert_eq!(Response::Status("OK".to_owned()).as_bytes(), b"+OK\r\n".to_vec());
}

#[test]
fn array_wire_form() {
    let r = Response::Array(vec![
        Response::Data(b"a".to_vec()),
        Response::Nil,
        Response::Array(vec![Response::Integer(1)]),
    ]);
    assert_eq!(r.as_bytes(), b"*3\r\n$1\r\na\r\n$-1\r\n*1\r\n:1\r\n".to_vec());
    assert_eq!(Response::Array(vec![]).as_bytes(), b"*0\r\n".to_vec());
}

#[test]
fn kinds_of_replies() {
    assert!(Response::Error("x".to_owned()).is_error());
    assert!(!Response::Status("x".to_owned()).is_error());
    assert!(Response::Status("x".to_owned()).is_status());
    assert!(!Response::Nil.is_status());
    assert!(!Response::Integer(1).is_error());
}
