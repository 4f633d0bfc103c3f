//! Error types for the IoTDB client.

use thrift::Error as ThriftError;
use vstd::prelude::*;
use vstd::string::*;

use crate::text::{push_signed_decimal, signed_decimal};

verus! {

pub type Result<T> = std::result::Result<T, Error>;

/// The Thrift library's error type, carried through opaquely.
#[verifier::external_type_specification]
#[verifier::external_body]
pub struct ExThriftError(ThriftError);

#[derive(Debug)]
pub enum Error {
    /// Underlying Thrift transport/protocol failure.
    Thrift(thrift::Error),
    /// Non-success status code returned by the server (TSStatus).
    Server { code: i32, message: String },
    /// Client-side usage or state error (e.g. session not open).
    Client(String),
    /// Malformed binary payload received from the server (e.g. truncated TsBlock).
    Decode(String),
    /// TLS configuration or handshake failure.
    Tls(String),
}

/// What an error says, with its texts as character sequences.
#[verifier::ext_equal]
pub enum ErrorView {
    Thrift(thrift::Error),
    Server { code: i32, message: Seq<char> },
    Client(Seq<char>),
    Decode(Seq<char>),
    Tls(Seq<char>),
}

impl View for Error {
    type V = ErrorView;

    open spec fn view(&self) -> ErrorView {
        match *self {
            Error::Thrift(e) => ErrorView::Thrift(e),
            Error::Server { code, message } => ErrorView::Server { code, message: message@ },
            Error::Client(m) => ErrorView::Client(m@),
            Error::Decode(m) => ErrorView::Decode(m@),
            Error::Tls(m) => ErrorView::Tls(m@),
        }
    }
}

impl From<thrift::Error> for Error {
    fn from(e: thrift::Error) -> (r: Error) {
        Error::Thrift(e)
    }
}

impl vstd::std_specs::convert::FromSpecImpl<thrift::Error> for Error {
    open spec fn obeys_from_spec() -> bool {
        true
    }

    open spec fn from_spec(e: thrift::Error) -> Error {
        Error::Thrift(e)
    }
}

/// The `Display` text of `thrift::Error`. Nothing is claimed of the text: it
/// comes from whatever error the transport or the server raised.
#[verifier::external_body]
fn thrift_error_text(e: &thrift::Error) -> (text: String) {
    e.to_string()
}

impl Error {
    /// The error as a message for people.
    pub fn to_string(&self) -> (text: String)
        ensures
            match self@ {
                ErrorView::Thrift(_) => "thrift error: "@.is_prefix_of(text@),
                ErrorView::Server { code, message } => text@ == "server error "@ + signed_decimal(
                    code as int,
                ) + ": "@ + message,
                ErrorView::Client(m) => text@ == "client error: "@ + m,
                ErrorView::Decode(m) => text@ == "decode error: "@ + m,
                ErrorView::Tls(m) => text@ == "tls error: "@ + m,
            },
    {
        match self {
            Error::Thrift(e) => {
                let mut text = "thrift error: ".to_owned();
                let detail = thrift_error_text(e);
                text.append(detail.as_str());
                assert("thrift error: "@ + detail@ == text@);
                text
            },
            Error::Server { code, message } => {
                let mut text = "server error ".to_owned();
                push_signed_decimal(&mut text, *code as i64);
                text.append(": ");
                text.append(message.as_str());
                text
            },
            Error::Client(m) => {
                let mut text = "client error: ".to_owned();
                text.append(m.as_str());
                text
            },
            Error::Decode(m) => {
                let mut text = "decode error: ".to_owned();
                text.append(m.as_str());
                text
            },
            Error::Tls(m) => {
                let mut text = "tls error: ".to_owned();
                text.append(m.as_str());
                text
            },
        }
    }
}

} // verus!
