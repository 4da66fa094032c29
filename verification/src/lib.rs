//! Covert TCP tunnel core: an SMTP-masquerading handshake, an authenticated
//! token scheme, and a binary channel-multiplexing frame protocol.
//!
//! The crate holds the verified protocol engines: the frame codec, the SMTP
//! state machines for both endpoints, token generation and verification, the
//! per-user allowlist authorization, the SOCKS5 ingress parser, and the
//! channel multiplexer.  Network I/O, TLS, and configuration files live in
//! the surrounding application.

pub mod b64;
pub mod client;
pub mod config;
pub mod crypto;
pub mod frames;
pub mod ipaddr;
pub mod mux;
pub mod server;
pub mod smtp;
pub mod socks5;
pub mod text;

use vstd::prelude::*;

verus! {

/// Error kinds of the tunnel library.
///
/// `Io` stands for a transport-level failure observed by the caller; the
/// caller keeps the underlying error itself.
#[derive(Debug, Clone)]
pub enum Error {
    Io,
    Tls(String),
    AuthFailed,
    InvalidConfig(String),
    Protocol(String),
}

impl Error {
    /// A readable description of the error.
    pub fn message(&self) -> (r: String)
        ensures
            match self {
                Error::Io => r@ == "IO error"@,
                Error::Tls(d) => r@ == "TLS error: "@ + d@,
                Error::AuthFailed => r@ == "Authentication failed"@,
                Error::InvalidConfig(d) => r@ == "Invalid configuration: "@ + d@,
                Error::Protocol(d) => r@ == "Protocol error: "@ + d@,
            },
    {
        match self {
            Error::Io => <String as vstd::string::StringExecFns>::from_str("IO error"),
            Error::Tls(d) => {
                let mut s: String = <String as vstd::string::StringExecFns>::from_str("TLS error: ");
                <String as vstd::string::StringExecFns>::append(&mut s, d.as_str());
                s
            },
            Error::AuthFailed => <String as vstd::string::StringExecFns>::from_str("Authentication failed"),
            Error::InvalidConfig(d) => {
                let mut s: String = <String as vstd::string::StringExecFns>::from_str(
                    "Invalid configuration: ",
                );
                <String as vstd::string::StringExecFns>::append(&mut s, d.as_str());
                s
            },
            Error::Protocol(d) => {
                let mut s: String = <String as vstd::string::StringExecFns>::from_str("Protocol error: ");
                <String as vstd::string::StringExecFns>::append(&mut s, d.as_str());
                s
            },
        }
    }
}

} // verus!
