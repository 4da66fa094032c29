//! Server side of the masquerade: the command engine that drives the cover
//! phase, and the authentication decision against the user table.
//!
//! AUTH and BINARY are refused until TLS is active on the channel.  A
//! failed authentication answers 535 and keeps the transport open, so the
//! client may retry within the same connection.  Tokens must be at most 300
//! seconds old and not from the future.

use vstd::prelude::*;

verus! {

use vstd::string::StringExecFns;
use vstd::string::StringSliceAdditionalSpecFns;
use vstd::utf8::{valid_utf8, decode_utf8, encode_utf8};
use crate::b64::b64_decode;
use crate::config::{UsersConfig, UserEntry, spec_whitelist_allows, whitelist_allows};
use crate::crypto::{AuthToken, ct_eq, spec_token, spec_token_parts, spec_fresh};
use crate::smtp::{State, Command, Response, trim_str, spec_trim, spec_line_word, spec_line_arg,
    spec_command_of, spec_eq_ignore_case, eq_ignore_case, find_char, spec_find_char,
    spec_response, spec_multi_line, lemma_trim_idempotent};
use crate::text::{split_bytes, parse_dec_bytes, string_from_utf8};

/// How many seconds old a token may be.
pub const TOKEN_MAX_AGE_SECS: u64 = 300;

/// What the application must do after a server step.
#[derive(Debug, Clone, Copy, PartialEq, Eq, Structural)]
pub enum ServerControl {
    /// Send the reply, if any, and keep reading lines.
    Continue,
    /// Send the reply, run the TLS handshake, then call
    /// [`ServerEngine::tls_established`].
    StartTls,
    /// Send the reply, then hand the transport to the mux.
    EnterBinary,
    /// Send the reply, then close the transport.
    Close,
}

/// The token of an `AUTH PLAIN <token>` argument, if the argument has that
/// shape: the mechanism word matches PLAIN up to ASCII case, and the token
/// is the following word.
pub open spec fn spec_auth_token(arg: Seq<char>) -> Option<Seq<char>> {
    let t = spec_trim(arg);
    let w = spec_line_word(t);
    let rest = spec_line_arg(t);
    if spec_eq_ignore_case(w, "PLAIN"@) && rest.len() > 0 {
        Some(spec_line_word(rest))
    } else {
        None
    }
}

/// Pick the token out of an `AUTH PLAIN <token>` argument.
pub fn parse_auth_plain(arg: &str) -> (r: Option<&str>)
    ensures
        r is Some <==> spec_auth_token(arg@) is Some,
        r matches Some(tok) ==> tok@ == spec_auth_token(arg@)->Some_0,
{
    let t: &str = trim_str(arg);
    let n: usize = t.unicode_len();
    let sp: usize = find_char(t, ' ');
    let w: &str = vstd::string::StrSliceExecFns::substring_char(t, 0, sp);
    if !eq_ignore_case(w, "PLAIN") {
        return None;
    }
    if sp >= n {
        return None;
    }
    let rest: &str = trim_str(vstd::string::StrSliceExecFns::substring_char(t, sp + 1, n));
    let rn: usize = rest.unicode_len();
    if rn == 0 {
        return None;
    }
    let tsp: usize = find_char(rest, ' ');
    let tok: &str = vstd::string::StrSliceExecFns::substring_char(rest, 0, tsp);
    proof {
        assert(t@.skip(spec_find_char(t@, ' ') + 1) =~= t@.subrange(
            spec_find_char(t@, ' ') + 1,
            t@.len() as int,
        ));
    }
    Some(tok)
}

/// Whether a token authenticates a user from a source IP: it carries a
/// fresh timestamp, names a known user, equals the token generated from
/// that user's secret, and the user's allowlist admits the IP.
pub open spec fn spec_server_auth(
    users: UsersConfig,
    token: Seq<u8>,
    max_age: u64,
    now: u64,
    ip: Seq<char>,
) -> Option<Seq<char>> {
    match spec_token_parts(token) {
        None => None,
        Some((ub, ts)) => {
            if {
                &&& spec_fresh(ts, now, max_age)
                &&& valid_utf8(ub)
                &&& users.lookup(decode_utf8(ub)) is Some
                &&& token == spec_token(
                    encode_utf8(users.lookup(decode_utf8(ub))->Some_0.secret@),
                    ub,
                    ts,
                )
                &&& spec_whitelist_allows(users.lookup(decode_utf8(ub))->Some_0.whitelist@, ip)
            } {
                Some(decode_utf8(ub))
            } else {
                None
            }
        },
    }
}

/// Decide an authentication attempt: verify the token and enforce the
/// user's allowlist.
pub fn authenticate(
    token: &str,
    users: &UsersConfig,
    max_age_secs: u64,
    now: u64,
    client_ip: &str,
) -> (r: Option<String>)
    requires
        users.wf(),
    ensures
        match r {
            Some(u) => spec_server_auth(
                *users,
                token.spec_bytes(),
                max_age_secs,
                now,
                client_ip@,
            ) == Some(u@),
            None => spec_server_auth(
                *users,
                token.spec_bytes(),
                max_age_secs,
                now,
                client_ip@,
            ) is None,
        },
{
    let decoded: Vec<u8> = match b64_decode(token.as_bytes()) {
        Some(d) => d,
        None => {
            return None;
        },
    };
    let mut parts: Vec<Vec<u8>> = split_bytes(decoded.as_slice(), 58);
    if parts.len() != 3 {
        return None;
    }
    let ts: u64 = match parse_dec_bytes(parts[1].as_slice()) {
        Some(t) => t,
        None => {
            return None;
        },
    };
    if ts > now {
        return None;
    }
    if now - ts > max_age_secs {
        return None;
    }
    let p0: Vec<u8> = parts.remove(0);
    let username: String = match string_from_utf8(p0) {
        Some(u) => u,
        None => {
            return None;
        },
    };
    let user: &UserEntry = match users.get_user(username.as_str()) {
        Some(u) => u,
        None => {
            return None;
        },
    };
    let expected: String = AuthToken::generate(user.secret.as_str(), username.as_str(), ts);
    proof {
        vstd::utf8::decode_utf8_encode_utf8((spec_token_parts(token.spec_bytes())->Some_0).0);
    }
    if !ct_eq(expected.as_str().as_bytes(), token.as_bytes()) {
        return None;
    }
    if !whitelist_allows(&user.whitelist, client_ip) {
        return None;
    }
    Some(username)
}

/// Server command engine: the per-session handshake state.
pub struct ServerEngine {
    /// Hostname the masquerade advertises.
    pub hostname: String,
    /// Where the cover phase stands.
    pub state: State,
    /// Whether TLS is active on the channel.
    pub tls_active: bool,
    /// The authenticated username, once AUTH succeeds.
    pub username: Option<String>,
}

impl ServerEngine {
    /// The engine never grants or keeps an authenticated state on a
    /// plain-text channel: past `TlsStarted`, TLS is active.
    pub open spec fn wf(self) -> bool {
        (self.state == State::Authenticated || self.state == State::BinaryMode)
            ==> self.tls_active
    }

    /// Start a session: nothing sent yet.
    pub fn new(hostname: &str) -> (r: Self)
        ensures
            r.wf(),
            r.hostname@ == hostname@,
            r.state == State::Initial,
            !r.tls_active,
            r.username is None,
    {
        ServerEngine {
            hostname: String::from_str(hostname),
            state: State::Initial,
            tls_active: false,
            username: None,
        }
    }

    /// The greeting sent on accept.
    pub fn greeting(&mut self) -> (r: String)
        requires
            old(self).state == State::Initial,
        ensures
            final (self).wf(),
            final (self).state == State::Greeted,
            final (self).hostname == old(self).hostname,
            final (self).tls_active == old(self).tls_active,
            final (self).username == old(self).username,
            r@ == spec_response(220, old(self).hostname@ + " ESMTP Postfix (Ubuntu)"@),
    {
        self.state = State::Greeted;
        Response::greeting(self.hostname.as_str())
    }

    /// The TLS handshake finished; AUTH is accepted from here on.
    pub fn tls_established(&mut self)
        requires
            !old(self).tls_active,
        ensures
            final (self).wf(),
            final (self).state == State::TlsStarted,
            final (self).tls_active,
            final (self).hostname == old(self).hostname,
            final (self).username == old(self).username,
    {
        self.tls_active = true;
        self.state = State::TlsStarted;
    }

    /// Step the cover phase on one client line.
    ///
    /// `now` and `client_ip` feed the authentication decision; the user
    /// table is read under the 300-second token age bound.
    pub fn on_line(&mut self, line: &str, users: &UsersConfig, now: u64, client_ip: &str) -> (r: (
        Option<String>,
        ServerControl,
    ))
        requires
            users.wf(),
            old(self).wf(),
            old(self).state != State::Initial,
        ensures
            final (self).wf(),
            final (self).hostname == old(self).hostname,
            final (self).tls_active == old(self).tls_active,
            ({
                let t = spec_trim(line@);
                let cmd = spec_command_of(spec_line_word(t));
                let arg = spec_line_arg(t);
                &&& t.len() == 0 ==> (r.0 is None && r.1 == ServerControl::Continue
                    && *final (self) == *old(self))
                &&& t.len() > 0 && (cmd == Command::Ehlo || cmd == Command::Helo) ==> {
                    &&& r.1 == ServerControl::Continue
                    &&& *final (self) == *old(self)
                    &&& if old(self).state == State::Greeted || old(self).state
                        == State::TlsStarted {
                        r.0 matches Some(m) && m@ == (if old(self).tls_active {
                            spec_multi_line(
                                250,
                                seq![
                                    old(self).hostname@,
                                    "AUTH PLAIN LOGIN"@,
                                    "8BITMIME"@,
                                ],
                            )
                        } else {
                            spec_multi_line(
                                250,
                                seq![
                                    old(self).hostname@,
                                    "STARTTLS"@,
                                    "AUTH PLAIN LOGIN"@,
                                    "8BITMIME"@,
                                ],
                            )
                        })
                    } else {
                        r.0 matches Some(m) && m@ == spec_response(503, "Bad sequence of commands"@)
                    }
                }
                &&& t.len() > 0 && cmd == Command::StartTls ==> if old(self).state == State::Greeted
                    && !old(self).tls_active {
                    &&& r.1 == ServerControl::StartTls
                    &&& *final (self) == *old(self)
                    &&& (r.0 matches Some(m) && m@ == spec_response(220, "2.0.0 Ready to start TLS"@))
                } else {
                    &&& r.1 == ServerControl::Continue
                    &&& *final (self) == *old(self)
                    &&& (r.0 matches Some(m) && m@ == spec_response(503, "Bad sequence of commands"@))
                }
                &&& t.len() > 0 && cmd == Command::Auth ==> if !old(self).tls_active {
                    &&& r.1 == ServerControl::Continue
                    &&& *final (self) == *old(self)
                    &&& (r.0 matches Some(m) && m@ == spec_response(535, "5.7.8 Authentication failed"@))
                } else if old(self).state == State::TlsStarted {
                    &&& r.1 == ServerControl::Continue
                    &&& match spec_auth_token(arg) {
                        None => {
                            &&& *final (self) == *old(self)
                            &&& (r.0 matches Some(m) && m@ == spec_response(
                                535,
                                "5.7.8 Authentication failed"@,
                            ))
                        },
                        Some(tok) => match spec_server_auth(
                            *users,
                            encode_utf8(tok),
                            TOKEN_MAX_AGE_SECS,
                            now,
                            client_ip@,
                        ) {
                            Some(user) => {
                                &&& final (self).state == State::Authenticated
                                &&& (final (self).username matches Some(u) && u@ == user)
                                &&& (r.0 matches Some(m) && m@ == spec_response(
                                    235,
                                    "2.7.0 Authentication successful"@,
                                ))
                            },
                            None => {
                                &&& *final (self) == *old(self)
                                &&& (r.0 matches Some(m) && m@ == spec_response(
                                    535,
                                    "5.7.8 Authentication failed"@,
                                ))
                            },
                        },
                    }
                } else {
                    &&& r.1 == ServerControl::Continue
                    &&& *final (self) == *old(self)
                    &&& (r.0 matches Some(m) && m@ == spec_response(503, "Bad sequence of commands"@))
                }
                &&& t.len() > 0 && cmd == Command::Binary ==> if old(self).state
                    == State::Authenticated {
                    &&& r.1 == ServerControl::EnterBinary
                    &&& final (self).state == State::BinaryMode
                    &&& final (self).username == old(self).username
                    &&& (r.0 matches Some(m) && m@ == spec_response(299, "Binary mode activated"@))
                } else {
                    &&& r.1 == ServerControl::Continue
                    &&& *final (self) == *old(self)
                    &&& (r.0 matches Some(m) && m@ == spec_response(503, "Bad sequence of commands"@))
                }
                &&& t.len() > 0 && cmd == Command::Quit ==> {
                    &&& r.1 == ServerControl::Close
                    &&& final (self).state == State::Quit
                    &&& final (self).username == old(self).username
                    &&& (r.0 matches Some(m) && m@ == spec_response(221, "Bye"@))
                }
                &&& t.len() > 0 && (cmd == Command::Mail || cmd == Command::Rcpt || cmd
                    == Command::Data || cmd == Command::Unknown) ==> {
                    &&& r.1 == ServerControl::Continue
                    &&& *final (self) == *old(self)
                    &&& (r.0 matches Some(m) && m@ == spec_response(502, "Command not recognized"@))
                }
            }),
    {
        let parsed: Option<(Command, String)> = crate::smtp::parse_line(line);
        let (cmd, arg): (Command, String) = match parsed {
            Some(p) => p,
            None => {
                return (None, ServerControl::Continue);
            },
        };
        match cmd {
            Command::Ehlo | Command::Helo => {
                if self.state == State::Greeted || self.state == State::TlsStarted {
                    let reply: String = Response::ehlo(self.hostname.as_str(), !self.tls_active);
                    (Some(reply), ServerControl::Continue)
                } else {
                    (Some(Response::bad_sequence()), ServerControl::Continue)
                }
            },
            Command::StartTls => {
                if self.state == State::Greeted && !self.tls_active {
                    (Some(Response::starttls()), ServerControl::StartTls)
                } else {
                    (Some(Response::bad_sequence()), ServerControl::Continue)
                }
            },
            Command::Auth => {
                if !self.tls_active {
                    (Some(Response::auth_failed()), ServerControl::Continue)
                } else if self.state == State::TlsStarted {
                    let token: Option<&str> = parse_auth_plain(arg.as_str());
                    match token {
                        None => (Some(Response::auth_failed()), ServerControl::Continue),
                        Some(tok) => {
                            proof {
                                lemma_trim_idempotent(line@);
                            }
                            match authenticate(tok, users, TOKEN_MAX_AGE_SECS, now, client_ip) {
                                Some(user) => {
                                    self.state = State::Authenticated;
                                    self.username = Some(user);
                                    (Some(Response::auth_success()), ServerControl::Continue)
                                },
                                None => (Some(Response::auth_failed()), ServerControl::Continue),
                            }
                        },
                    }
                } else {
                    (Some(Response::bad_sequence()), ServerControl::Continue)
                }
            },
            Command::Binary => {
                if self.state == State::Authenticated {
                    self.state = State::BinaryMode;
                    (Some(Response::binary_mode()), ServerControl::EnterBinary)
                } else {
                    (Some(Response::bad_sequence()), ServerControl::Continue)
                }
            },
            Command::Quit => {
                self.state = State::Quit;
                (Some(Response::goodbye()), ServerControl::Close)
            },
            _ => (Some(Response::command_unrecognized()), ServerControl::Continue),
        }
    }
}

} // verus!
