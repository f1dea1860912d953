//! The library's error type.
use vstd::prelude::*;
use vstd::string::*;

use crate::text::{decimal, push_decimal};

verus! {

/// The operating system's I/O error, carried through unopened.
#[verifier::external_type_specification]
#[verifier::external_body]
pub struct ExIoError(std::io::Error);

/// The library's result type.
pub type Result<T> = std::result::Result<T, Error>;

/// What can go wrong on a CMPP 2.0 link.
#[derive(Debug)]
pub enum Error {
    /// The socket failed.
    Io(std::io::Error),
    /// A received frame is no valid PDU.
    Decode(String),
    /// The TCP connection or the login handshake could not be completed.
    Connect(String),
    /// CONNECT_RESP carried a non-zero status (1 = invalid structure, 2 = wrong source
    /// address, 3 = authentication error, 4 = version too high).
    Auth(u8),
    /// `AuthenticatorISMG` is not the expected MD5 digest.
    AuthenticatorMismatch,
    /// No response within the configured time.
    Timeout,
    /// The connection is closed, by this side or by the peer.
    Closed,
    /// An internal channel is closed.
    ChannelClosed,
    /// The peer sent CMPP_TERMINATE.
    Terminated,
    /// The caller passed an invalid configuration or message.
    Config(String),
}

impl Error {
    /// A decode error with this text.
    pub open spec fn is_decode(self, text: Seq<char>) -> bool {
        self matches Error::Decode(m) && m@ == text
    }

    /// A handshake error with this text.
    pub open spec fn is_connect(self, text: Seq<char>) -> bool {
        self matches Error::Connect(m) && m@ == text
    }

    /// A configuration error with this text.
    pub open spec fn is_config(self, text: Seq<char>) -> bool {
        self matches Error::Config(m) && m@ == text
    }

    /// The text shown to people. Of an I/O error only the prefix is stated: the rest is the
    /// operating system's own wording.
    pub fn message(&self) -> (text: String)
        ensures
            match *self {
                Error::Io(_) => "I/O 错误: "@.is_prefix_of(text@),
                Error::Decode(m) => text@ == "decode 错误: "@ + m@,
                Error::Connect(m) => text@ == "connect 失败: "@ + m@,
                Error::Auth(status) => text@ == "认证失败，status="@ + decimal(status as nat),
                Error::AuthenticatorMismatch => text@
                    == "CONNECT_RESP 中的 AuthenticatorISMG 不匹配"@,
                Error::Timeout => text@ == "response 超时"@,
                Error::Closed => text@ == "connection 已关闭"@,
                Error::ChannelClosed => text@ == "send channel 已关闭"@,
                Error::Terminated => text@ == "由 peer 终止"@,
                Error::Config(m) => text@ == "config 无效: "@ + m@,
            },
    {
        match self {
            Error::Io(e) => {
                let detail: String = io_error_text(e);
                "I/O 错误: ".to_string().concat(detail.as_str())
            },
            Error::Decode(m) => "decode 错误: ".to_string().concat(m.as_str()),
            Error::Connect(m) => "connect 失败: ".to_string().concat(m.as_str()),
            Error::Auth(status) => {
                let mut out: String = "认证失败，status=".to_string();
                push_decimal(&mut out, *status as u64);
                out
            },
            Error::AuthenticatorMismatch => {
                "CONNECT_RESP 中的 AuthenticatorISMG 不匹配".to_string()
            },
            Error::Timeout => "response 超时".to_string(),
            Error::Closed => "connection 已关闭".to_string(),
            Error::ChannelClosed => "send channel 已关闭".to_string(),
            Error::Terminated => "由 peer 终止".to_string(),
            Error::Config(m) => "config 无效: ".to_string().concat(m.as_str()),
        }
    }
}

/// `std::io::Error`'s `Display`. Its wording is the operating system's, so nothing is
/// promised of it.
#[verifier::external_body]
fn io_error_text(e: &std::io::Error) -> String {
    e.to_string()
}

impl vstd::std_specs::convert::FromSpecImpl<std::io::Error> for Error {
    open spec fn obeys_from_spec() -> bool {
        true
    }

    open spec fn from_spec(v: std::io::Error) -> Self {
        Error::Io(v)
    }
}

impl From<std::io::Error> for Error {
    fn from(v: std::io::Error) -> Self {
        Error::Io(v)
    }
}

} // verus!
