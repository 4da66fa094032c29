//! SMTP surface tests: command parsing, response building, line taking.

use smtp_tunnel::smtp::{parse_line, take_line, Command, LineResult, Response, ResponseCode};

fn line_of(r: LineResult) -> Option<Vec<u8>> {
    match r {
        LineResult::Line(l) => Some(l),
        LineResult::Pending => None,
        LineResult::Overlong => panic!("unexpected overlong line"),
    }
}

#[test]
fn test_command_parse() {
    assert_eq!(Command::parse("EHLO client.local").0, Command::Ehlo);
    assert_eq!(Command::parse("ehlo client.local").0, Command::Ehlo);
    assert_eq!(Command::parse("STARTTLS").0, Command::StartTls);
    assert_eq!(Command::parse("AUTH PLAIN token").0, Command::Auth);
    assert_eq!(Command::parse("BINARY").0, Command::Binary);
}

#[test]
fn test_response_greeting() {
    let resp = Response::greeting("mail.example.com");
    assert!(resp.contains("220"));
    assert!(resp.contains("mail.example.com"));
    assert!(resp.contains("Postfix"));
}

#[test]
fn test_response_multiline() {
    let resp = Response::ehlo("mail.example.com", true);
    assert!(resp.contains("250-mail.example.com"));
    assert!(resp.contains("250-STARTTLS"));
    assert!(resp.contains("250 8BITMIME"));
}

#[test]
fn test_command_parse_args() {
    let (cmd, arg) = Command::parse("  AUTH   PLAIN abc  ");
    assert_eq!(cmd, Command::Auth);
    assert_eq!(arg, "PLAIN abc");
    let (cmd, arg) = Command::parse("QUIT");
    assert_eq!(cmd, Command::Quit);
    assert_eq!(arg, "");
    assert_eq!(Command::parse("MAIL FROM:<a@b>").0, Command::Mail);
    assert_eq!(Command::parse("NOOP").0, Command::Unknown);
}

#[test]
fn test_parse_line_blank() {
    assert!(parse_line("").is_none());
    assert!(parse_line("   \r\n").is_none());
    let (cmd, arg) = parse_line("HELO box\r\n").unwrap();
    assert_eq!(cmd, Command::Helo);
    assert_eq!(arg, "box");
}

#[test]
fn test_response_exact_lines() {
    assert_eq!(
        Response::greeting("mail.example.com"),
        "220 mail.example.com ESMTP Postfix (Ubuntu)\r\n"
    );
    assert_eq!(Response::starttls(), "220 2.0.0 Ready to start TLS\r\n");
    assert_eq!(Response::auth_success(), "235 2.7.0 Authentication successful\r\n");
    assert_eq!(Response::auth_failed(), "535 5.7.8 Authentication failed\r\n");
    assert_eq!(Response::binary_mode(), "299 Binary mode activated\r\n");
    assert_eq!(Response::goodbye(), "221 Bye\r\n");
    assert_eq!(Response::syntax_error(), "500 Syntax error\r\n");
    assert_eq!(Response::command_unrecognized(), "502 Command not recognized\r\n");
    assert_eq!(Response::bad_sequence(), "503 Bad sequence of commands\r\n");
    assert_eq!(Response::auth_required(), "530 Authentication required\r\n");
    assert_eq!(
        Response::ehlo("mail.example.com", true),
        "250-mail.example.com\r\n250-STARTTLS\r\n250-AUTH PLAIN LOGIN\r\n250 8BITMIME\r\n"
    );
    assert_eq!(
        Response::ehlo("mail.example.com", false),
        "250-mail.example.com\r\n250-AUTH PLAIN LOGIN\r\n250 8BITMIME\r\n"
    );
    assert_eq!(Response::new(ResponseCode(421), "busy"), "421 busy\r\n");
    assert_eq!(Response::multi_line(ResponseCode(250), &[]), "250 \r\n");
    assert_eq!(Response::multi_line(ResponseCode(250), &["one"]), "250 one\r\n");
}

#[test]
fn test_take_line_chunked() {
    let mut buf: Vec<u8> = Vec::new();
    buf.extend_from_slice(b"EHLO box");
    assert!(line_of(take_line(&mut buf)).is_none());
    buf.extend_from_slice(b"\r\nQUIT\r\ntrailing");
    assert_eq!(line_of(take_line(&mut buf)).unwrap(), b"EHLO box");
    assert_eq!(line_of(take_line(&mut buf)).unwrap(), b"QUIT");
    assert!(line_of(take_line(&mut buf)).is_none());
    assert_eq!(buf, b"trailing");
    // A lone LF does not terminate a line.
    let mut buf: Vec<u8> = b"oops\nmore".to_vec();
    assert!(line_of(take_line(&mut buf)).is_none());
    assert_eq!(buf, b"oops\nmore");
}

#[test]
fn test_take_line_length_bound() {
    // A 1024-byte line is served; one byte more is refused.
    let mut buf: Vec<u8> = vec![b'a'; 1024];
    buf.extend_from_slice(b"\r\n");
    match take_line(&mut buf) {
        LineResult::Line(l) => assert_eq!(l.len(), 1024),
        other => panic!("expected a line, got {:?}", other),
    }
    let mut buf: Vec<u8> = vec![b'a'; 1025];
    buf.extend_from_slice(b"\r\n");
    assert!(matches!(take_line(&mut buf), LineResult::Overlong));
    // An unterminated line is refused as soon as it can no longer fit.
    let mut buf: Vec<u8> = vec![b'a'; 1025];
    assert!(matches!(take_line(&mut buf), LineResult::Pending));
    buf.push(b'a');
    assert!(matches!(take_line(&mut buf), LineResult::Overlong));
}
