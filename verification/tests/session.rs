//! End-to-end cover-phase scenarios: the two engines drive each other, the
//! allowlist is enforced, stale tokens are refused.

use smtp_tunnel::client::{ClientAction, ClientEngine, ClientPhase, Backoff};
use smtp_tunnel::config::{UserEntry, UsersConfig};
use smtp_tunnel::crypto::AuthToken;
use smtp_tunnel::server::{authenticate, ServerControl, ServerEngine};
use smtp_tunnel::smtp::State;
use smtp_tunnel::Error;

fn users_with(username: &str, secret: &str, whitelist: &[&str]) -> UsersConfig {
    let mut users = UsersConfig::new();
    users.set_user(
        username,
        UserEntry {
            secret: secret.to_string(),
            whitelist: whitelist.iter().map(|s| s.to_string()).collect(),
            logging: true,
        },
    );
    users
}

#[test]
fn test_handshake_happy_path() {
    let now: u64 = 1_700_000_000;
    let ip = "192.0.2.10";
    let users = users_with("alice", "s3cret", &[]);

    let mut server = ServerEngine::new("mail.example.com");
    let mut client = ClientEngine::new("alice", "s3cret");

    // Greeting.
    let greeting = server.greeting();
    assert_eq!(greeting, "220 mail.example.com ESMTP Postfix (Ubuntu)\r\n");

    // Feed server output to the client, client output to the server, until
    // both sides reach the binary phase.
    let mut to_client: Vec<String> =
        greeting.split_inclusive("\r\n").map(|s| s.to_string()).collect();
    let mut upgraded = false;
    let mut steps = 0;
    loop {
        steps += 1;
        assert!(steps < 100, "handshake did not converge");
        let mut to_server: Vec<String> = Vec::new();
        for line in to_client.drain(..) {
            let trimmed = line.trim_end_matches("\r\n");
            let (out, action) = client.on_line(trimmed, now);
            if let Some(msg) = out {
                to_server.push(msg);
            }
            match action {
                ClientAction::Continue => {}
                ClientAction::UpgradeTls => {
                    // The transport is TLS from here on.
                    assert!(!upgraded);
                    upgraded = true;
                    server.tls_established();
                    to_server.push(client.tls_done());
                }
                ClientAction::EnterBinary => {}
                ClientAction::Fail => panic!("client failed the handshake"),
            }
        }
        if client.phase == ClientPhase::Established {
            break;
        }
        for msg in to_server {
            let line = msg.trim_end_matches("\r\n");
            let (reply, control) = server.on_line(line, &users, now, ip);
            if let Some(r) = reply {
                for part in r.split_inclusive("\r\n") {
                    to_client.push(part.to_string());
                }
            }
            match control {
                ServerControl::Continue | ServerControl::StartTls => {}
                ServerControl::EnterBinary => {}
                ServerControl::Close => panic!("server closed during handshake"),
            }
        }
    }

    assert!(upgraded);
    assert_eq!(server.state, State::BinaryMode);
    assert_eq!(server.username.as_deref(), Some("alice"));
}

#[test]
fn test_handshake_line_trace() {
    // The literal dialogue of the cover phase, line by line.
    let now: u64 = 1_700_000_000;
    let users = users_with("alice", "s3cret", &[]);
    let mut server = ServerEngine::new("mail.example.com");

    assert_eq!(server.greeting(), "220 mail.example.com ESMTP Postfix (Ubuntu)\r\n");

    let (reply, control) = server.on_line("EHLO tunnel-client.local", &users, now, "192.0.2.1");
    assert_eq!(
        reply.unwrap(),
        "250-mail.example.com\r\n250-STARTTLS\r\n250-AUTH PLAIN LOGIN\r\n250 8BITMIME\r\n"
    );
    assert_eq!(control, ServerControl::Continue);

    let (reply, control) = server.on_line("STARTTLS", &users, now, "192.0.2.1");
    assert_eq!(reply.unwrap(), "220 2.0.0 Ready to start TLS\r\n");
    assert_eq!(control, ServerControl::StartTls);
    server.tls_established();

    let (reply, _) = server.on_line("EHLO tunnel-client.local", &users, now, "192.0.2.1");
    let reply = reply.unwrap();
    assert!(!reply.contains("STARTTLS"));
    assert!(reply.ends_with("250 8BITMIME\r\n"));

    let token = AuthToken::generate("s3cret", "alice", now);
    let (reply, _) = server.on_line(&format!("AUTH PLAIN {}", token), &users, now, "192.0.2.1");
    assert_eq!(reply.unwrap(), "235 2.7.0 Authentication successful\r\n");
    assert_eq!(server.state, State::Authenticated);

    let (reply, control) = server.on_line("BINARY", &users, now, "192.0.2.1");
    assert_eq!(reply.unwrap(), "299 Binary mode activated\r\n");
    assert_eq!(control, ServerControl::EnterBinary);
    assert_eq!(server.state, State::BinaryMode);
}

#[test]
fn test_stale_token_rejected() {
    let now: u64 = 1_700_000_000;
    let users = users_with("alice", "s3cret", &[]);
    let mut server = ServerEngine::new("mail.example.com");
    server.greeting();
    server.on_line("EHLO c", &users, now, "192.0.2.1");
    server.on_line("STARTTLS", &users, now, "192.0.2.1");
    server.tls_established();

    // Token minted an hour ago, max age 300 s.
    let token = AuthToken::generate("s3cret", "alice", now - 3600);
    let (reply, _) = server.on_line(&format!("AUTH PLAIN {}", token), &users, now, "192.0.2.1");
    assert_eq!(reply.unwrap(), "535 5.7.8 Authentication failed\r\n");
    assert_eq!(server.state, State::TlsStarted);
    assert!(server.username.is_none());
}

#[test]
fn test_ip_allowlist_enforced() {
    let now: u64 = 1_700_000_000;
    let users = users_with("bob", "hunter2", &["10.0.0.0/8"]);
    let token = AuthToken::generate("hunter2", "bob", now);

    // Valid token from outside the allowlist: refused.
    assert!(authenticate(&token, &users, 300, now, "203.0.113.5").is_none());
    // The same token from inside: accepted.
    assert_eq!(
        authenticate(&token, &users, 300, now, "10.1.2.3").as_deref(),
        Some("bob")
    );

    // Through the engine: 535 from the bad address, 235 from the good one.
    let mut server = ServerEngine::new("mail.example.com");
    server.greeting();
    server.on_line("EHLO c", &users, now, "203.0.113.5");
    server.on_line("STARTTLS", &users, now, "203.0.113.5");
    server.tls_established();
    let (reply, _) = server.on_line(&format!("AUTH PLAIN {}", token), &users, now, "203.0.113.5");
    assert_eq!(reply.unwrap(), "535 5.7.8 Authentication failed\r\n");
    let (reply, _) = server.on_line(&format!("AUTH PLAIN {}", token), &users, now, "10.1.2.3");
    assert_eq!(reply.unwrap(), "235 2.7.0 Authentication successful\r\n");
}

#[test]
fn test_auth_requires_tls() {
    let now: u64 = 1_700_000_000;
    let users = users_with("alice", "s3cret", &[]);
    let token = AuthToken::generate("s3cret", "alice", now);
    let mut server = ServerEngine::new("mail.example.com");
    server.greeting();
    // AUTH before STARTTLS: refused with 535, not granted.
    let (reply, _) = server.on_line(&format!("AUTH PLAIN {}", token), &users, now, "10.0.0.1");
    assert_eq!(reply.unwrap(), "535 5.7.8 Authentication failed\r\n");
    assert_eq!(server.state, State::Greeted);
    // BINARY before AUTH: out of order.
    let (reply, _) = server.on_line("BINARY", &users, now, "10.0.0.1");
    assert_eq!(reply.unwrap(), "503 Bad sequence of commands\r\n");
}

#[test]
fn test_unknown_and_quit() {
    let now: u64 = 1_700_000_000;
    let users = UsersConfig::new();
    let mut server = ServerEngine::new("mail.example.com");
    server.greeting();
    let (reply, control) = server.on_line("NOOP hi", &users, now, "10.0.0.1");
    assert_eq!(reply.unwrap(), "502 Command not recognized\r\n");
    assert_eq!(control, ServerControl::Continue);
    let (reply, control) = server.on_line("QUIT", &users, now, "10.0.0.1");
    assert_eq!(reply.unwrap(), "221 Bye\r\n");
    assert_eq!(control, ServerControl::Close);
    assert_eq!(server.state, State::Quit);
}

#[test]
fn test_error_messages() {
    assert_eq!(Error::Io.message(), "IO error");
    assert_eq!(Error::AuthFailed.message(), "Authentication failed");
    assert_eq!(Error::Tls("boom".to_string()).message(), "TLS error: boom");
    assert_eq!(
        Error::InvalidConfig("no port".to_string()).message(),
        "Invalid configuration: no port"
    );
    assert_eq!(Error::Protocol("bad frame".to_string()).message(), "Protocol error: bad frame");
}

#[test]
fn test_reconnect_backoff_sequence() {
    // Failures sleep 2, 4, 8, 16, then stay at the 30-second ceiling; a
    // graceful close resets the delay.
    let mut b = Backoff::new();
    assert_eq!(b.next_delay(), 2);
    assert_eq!(b.next_delay(), 4);
    assert_eq!(b.next_delay(), 8);
    assert_eq!(b.next_delay(), 16);
    assert_eq!(b.next_delay(), 30);
    assert_eq!(b.next_delay(), 30);
    b.reset();
    assert_eq!(b.next_delay(), 2);
}

#[test]
fn test_client_engine_failure_paths() {
    let mut c = ClientEngine::new("alice", "s3cret");
    let (out, action) = c.on_line("554 go away", 0);
    assert!(out.is_none());
    assert_eq!(action, ClientAction::Fail);
    assert_eq!(c.phase, ClientPhase::Failed);

    let mut c = ClientEngine::new("alice", "s3cret");
    c.on_line("220 hello", 0);
    let (out, _) = c.on_line("250-mail.example.com", 0);
    assert!(out.is_none());
    let (out, _) = c.on_line("250 8BITMIME", 0);
    assert_eq!(out.unwrap(), "STARTTLS\r\n");
    let (_, action) = c.on_line("454 not now", 0);
    assert_eq!(action, ClientAction::Fail);
}
