//! Client side of the masquerade: the handshake state machine that drives
//! greeting, EHLO, STARTTLS, the second EHLO, AUTH, and BINARY, and the
//! reconnect backoff policy.
//!
//! The engine decides; the surrounding application moves the bytes, runs
//! the TLS handshake, and sleeps.

use vstd::prelude::*;

verus! {

use vstd::string::StringExecFns;
use vstd::string::StrSliceExecFns;
use vstd::string::StringSliceAdditionalSpecFns;
use vstd::utf8::encode_utf8;
use crate::crypto::{AuthToken, spec_token};

/// Where the client handshake stands.
#[derive(Debug, Clone, Copy, PartialEq, Eq, Structural)]
pub enum ClientPhase {
    /// Waiting for the server greeting.
    WaitGreeting,
    /// EHLO sent; draining the multi-line reply.
    SentEhlo,
    /// STARTTLS sent; waiting for the go-ahead.
    WaitStartTls,
    /// The application is running the TLS handshake.
    TlsHandshake,
    /// The post-TLS EHLO was sent; draining the reply.
    SentEhloTls,
    /// AUTH sent; waiting for the verdict.
    SentAuth,
    /// BINARY sent; waiting for the activation.
    SentBinary,
    /// The binary phase carries the traffic now.
    Established,
    /// The handshake failed; the transport is to be closed.
    Failed,
}

/// What the application must do after a handshake step.
#[derive(Debug, Clone, Copy, PartialEq, Eq, Structural)]
pub enum ClientAction {
    /// Send the returned line, if any, and keep reading.
    Continue,
    /// Run the TLS handshake, then call [`ClientEngine::tls_done`].
    UpgradeTls,
    /// The handshake is complete: hand the transport to the mux.
    EnterBinary,
    /// Close the transport and reconnect with backoff.
    Fail,
}

/// Whether a string starts with a prefix.
pub open spec fn spec_has_prefix(s: Seq<char>, p: Seq<char>) -> bool {
    s.len() >= p.len() && s.subrange(0, p.len() as int) == p
}

/// Test a string for a prefix.
pub fn str_has_prefix(s: &str, p: &str) -> (r: bool)
    ensures
        r == spec_has_prefix(s@, p@),
{
    let n: usize = s.unicode_len();
    let m: usize = p.unicode_len();
    if n < m {
        return false;
    }
    let mut i: usize = 0;
    while i < m
        invariant
            0 <= i <= m,
            m <= n,
            n == s@.len(),
            m == p@.len(),
            forall|j: int| 0 <= j < i ==> s@[j] == p@[j],
        decreases m - i,
    {
        if s.get_char(i) != p.get_char(i) {
            proof {
                assert(s@.subrange(0, p@.len() as int)[i as int] != p@[i as int]);
            }
            return false;
        }
        i = i + 1;
    }
    proof {
        assert(s@.subrange(0, p@.len() as int) =~= p@);
    }
    true
}

/// Client handshake engine: holds the credentials and the phase.
pub struct ClientEngine {
    /// Username to authenticate as.
    pub username: String,
    /// Shared secret the token is minted from.
    pub secret: String,
    /// Where the handshake stands.
    pub phase: ClientPhase,
}

impl ClientEngine {
    /// Start a handshake for a user.
    pub fn new(username: &str, secret: &str) -> (r: Self)
        ensures
            r.username@ == username@,
            r.secret@ == secret@,
            r.phase == ClientPhase::WaitGreeting,
    {
        ClientEngine {
            username: String::from_str(username),
            secret: String::from_str(secret),
            phase: ClientPhase::WaitGreeting,
        }
    }

    /// The TLS handshake finished: send the second EHLO.
    pub fn tls_done(&mut self) -> (r: String)
        requires
            old(self).phase == ClientPhase::TlsHandshake,
        ensures
            final (self).phase == ClientPhase::SentEhloTls,
            final (self).username == old(self).username,
            final (self).secret == old(self).secret,
            r@ == "EHLO tunnel-client.local\r\n"@,
    {
        self.phase = ClientPhase::SentEhloTls;
        String::from_str("EHLO tunnel-client.local\r\n")
    }

    /// Step the handshake on one server reply line.
    ///
    /// `now` stamps the authentication token when the AUTH step is reached.
    pub fn on_line(&mut self, line: &str, now: u64) -> (r: (Option<String>, ClientAction))
        requires
            old(self).phase != ClientPhase::TlsHandshake,
            old(self).phase != ClientPhase::Established,
            old(self).phase != ClientPhase::Failed,
        ensures
            final (self).username == old(self).username,
            final (self).secret == old(self).secret,
            old(self).phase == ClientPhase::WaitGreeting ==> if spec_has_prefix(line@, "220"@) {
                &&& final (self).phase == ClientPhase::SentEhlo
                &&& r.1 == ClientAction::Continue
                &&& (r.0 matches Some(m) && m@ == "EHLO tunnel-client.local\r\n"@)
            } else {
                &&& final (self).phase == ClientPhase::Failed
                &&& r.1 == ClientAction::Fail
                &&& r.0 is None
            },
            old(self).phase == ClientPhase::SentEhlo ==> if spec_has_prefix(line@, "250 "@) {
                &&& final (self).phase == ClientPhase::WaitStartTls
                &&& r.1 == ClientAction::Continue
                &&& (r.0 matches Some(m) && m@ == "STARTTLS\r\n"@)
            } else if spec_has_prefix(line@, "250-"@) {
                &&& final (self).phase == ClientPhase::SentEhlo
                &&& r.1 == ClientAction::Continue
                &&& r.0 is None
            } else {
                &&& final (self).phase == ClientPhase::Failed
                &&& r.1 == ClientAction::Fail
                &&& r.0 is None
            },
            old(self).phase == ClientPhase::WaitStartTls ==> if spec_has_prefix(line@, "220"@) {
                &&& final (self).phase == ClientPhase::TlsHandshake
                &&& r.1 == ClientAction::UpgradeTls
                &&& r.0 is None
            } else {
                &&& final (self).phase == ClientPhase::Failed
                &&& r.1 == ClientAction::Fail
                &&& r.0 is None
            },
            old(self).phase == ClientPhase::SentEhloTls ==> if spec_has_prefix(line@, "250 "@) {
                &&& final (self).phase == ClientPhase::SentAuth
                &&& r.1 == ClientAction::Continue
                &&& (r.0 matches Some(m) && exists|tc: Seq<char>|
                    m@ == "AUTH PLAIN "@ + tc + "\r\n"@ && #[trigger] encode_utf8(tc) == spec_token(
                        encode_utf8(old(self).secret@),
                        encode_utf8(old(self).username@),
                        now,
                    ))
            } else if spec_has_prefix(line@, "250-"@) {
                &&& final (self).phase == ClientPhase::SentEhloTls
                &&& r.1 == ClientAction::Continue
                &&& r.0 is None
            } else {
                &&& final (self).phase == ClientPhase::Failed
                &&& r.1 == ClientAction::Fail
                &&& r.0 is None
            },
            old(self).phase == ClientPhase::SentAuth ==> if spec_has_prefix(line@, "235"@) {
                &&& final (self).phase == ClientPhase::SentBinary
                &&& r.1 == ClientAction::Continue
                &&& (r.0 matches Some(m) && m@ == "BINARY\r\n"@)
            } else {
                &&& final (self).phase == ClientPhase::Failed
                &&& r.1 == ClientAction::Fail
                &&& r.0 is None
            },
            old(self).phase == ClientPhase::SentBinary ==> if spec_has_prefix(line@, "299"@) {
                &&& final (self).phase == ClientPhase::Established
                &&& r.1 == ClientAction::EnterBinary
                &&& r.0 is None
            } else {
                &&& final (self).phase == ClientPhase::Failed
                &&& r.1 == ClientAction::Fail
                &&& r.0 is None
            },
    {
        match self.phase {
            ClientPhase::WaitGreeting => {
                if str_has_prefix(line, "220") {
                    self.phase = ClientPhase::SentEhlo;
                    (Some(String::from_str("EHLO tunnel-client.local\r\n")), ClientAction::Continue)
                } else {
                    self.phase = ClientPhase::Failed;
                    (None, ClientAction::Fail)
                }
            },
            ClientPhase::SentEhlo => {
                if str_has_prefix(line, "250 ") {
                    self.phase = ClientPhase::WaitStartTls;
                    (Some(String::from_str("STARTTLS\r\n")), ClientAction::Continue)
                } else if str_has_prefix(line, "250-") {
                    (None, ClientAction::Continue)
                } else {
                    self.phase = ClientPhase::Failed;
                    (None, ClientAction::Fail)
                }
            },
            ClientPhase::WaitStartTls => {
                if str_has_prefix(line, "220") {
                    self.phase = ClientPhase::TlsHandshake;
                    (None, ClientAction::UpgradeTls)
                } else {
                    self.phase = ClientPhase::Failed;
                    (None, ClientAction::Fail)
                }
            },
            ClientPhase::SentEhloTls => {
                if str_has_prefix(line, "250 ") {
                    let token: String = AuthToken::generate(
                        self.secret.as_str(),
                        self.username.as_str(),
                        now,
                    );
                    let mut msg: String = String::from_str("AUTH PLAIN ");
                    msg.append(token.as_str());
                    msg.append("\r\n");
                    self.phase = ClientPhase::SentAuth;
                    (Some(msg), ClientAction::Continue)
                } else if str_has_prefix(line, "250-") {
                    (None, ClientAction::Continue)
                } else {
                    self.phase = ClientPhase::Failed;
                    (None, ClientAction::Fail)
                }
            },
            ClientPhase::SentAuth => {
                if str_has_prefix(line, "235") {
                    self.phase = ClientPhase::SentBinary;
                    (Some(String::from_str("BINARY\r\n")), ClientAction::Continue)
                } else {
                    self.phase = ClientPhase::Failed;
                    (None, ClientAction::Fail)
                }
            },
            ClientPhase::SentBinary => {
                if str_has_prefix(line, "299") {
                    self.phase = ClientPhase::Established;
                    (None, ClientAction::EnterBinary)
                } else {
                    self.phase = ClientPhase::Failed;
                    (None, ClientAction::Fail)
                }
            },
            _ => (None, ClientAction::Fail),
        }
    }
}

/// Reconnect backoff: delays start at 2 seconds and double to a ceiling of
/// 30; a graceful close resets them.
pub struct Backoff {
    delay: u64,
}

impl Backoff {
    /// The delay the next failure will sleep.
    pub closed spec fn spec_delay(self) -> u64 {
        self.delay
    }

    /// Start at the initial delay.
    pub fn new() -> (r: Self)
        ensures
            r.spec_delay() == 2,
    {
        Backoff { delay: 2 }
    }

    /// Take the current delay and double it, capped at the ceiling.
    pub fn next_delay(&mut self) -> (r: u64)
        ensures
            r == old(self).spec_delay(),
            final (self).spec_delay() == if old(self).spec_delay() * 2 <= 30 {
                old(self).spec_delay() * 2
            } else {
                30int
            },
    {
        let d: u64 = self.delay;
        if d <= 15 {
            self.delay = d * 2;
        } else {
            self.delay = 30;
        }
        d
    }

    /// A graceful close resets the delay.
    pub fn reset(&mut self)
        ensures
            final (self).spec_delay() == 2,
    {
        self.delay = 2;
    }
}

} // verus!
