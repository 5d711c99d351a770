//! Error types of the emitter.
use vstd::prelude::*;
use vstd::string::*;

use crate::text::{dec_int, push_dec_int, quoted, quote_ident};

verus! {

#[derive(Debug)]
pub enum EmitterError {
    /// Transport fault.
    Io(String),
    /// Client library fault; `server_code` is zero unless the server sent one.
    Client { server_code: i32, message: String },
    ServerException { code: i32, message: String },
    /// An operation outlived its wall-clock limit.
    Timeout,
    Type(String),
    Config(String),
    NoTableMapping(String),
    CompressionUnsupported(&'static str),
    UnsupportedValue { target_column: String, kind: &'static str },
}

/// An error as a mathematical value.
pub enum ErrorView {
    Io(Seq<char>),
    Client(i32, Seq<char>),
    ServerException(i32, Seq<char>),
    Timeout,
    Type(Seq<char>),
    Config(Seq<char>),
    NoTableMapping(Seq<char>),
    CompressionUnsupported(Seq<char>),
    UnsupportedValue(Seq<char>, Seq<char>),
}

impl View for EmitterError {
    type V = ErrorView;

    open spec fn view(&self) -> ErrorView {
        match self {
            EmitterError::Io(m) => ErrorView::Io(m@),
            EmitterError::Client { server_code, message } => ErrorView::Client(
                *server_code,
                message@,
            ),
            EmitterError::ServerException { code, message } => ErrorView::ServerException(
                *code,
                message@,
            ),
            EmitterError::Timeout => ErrorView::Timeout,
            EmitterError::Type(m) => ErrorView::Type(m@),
            EmitterError::Config(m) => ErrorView::Config(m@),
            EmitterError::NoTableMapping(m) => ErrorView::NoTableMapping(m@),
            EmitterError::CompressionUnsupported(m) => ErrorView::CompressionUnsupported(m@),
            EmitterError::UnsupportedValue { target_column, kind } => ErrorView::UnsupportedValue(
                target_column@,
                kind@,
            ),
        }
    }
}

impl ErrorView {
    /// Transport and server faults pass with time; a semantic or
    /// configuration fault is terminal.
    pub open spec fn retryable(self) -> bool {
        match self {
            ErrorView::Io(_) => true,
            ErrorView::Client(_, _) => true,
            ErrorView::ServerException(_, _) => true,
            ErrorView::Timeout => true,
            _ => false,
        }
    }

    /// The error in words.
    pub open spec fn text(self) -> Seq<char> {
        match self {
            ErrorView::Io(m) => "io: "@ + m,
            ErrorView::Client(code, m) => "client: "@ + dec_int(code as int) + ": "@ + m,
            ErrorView::ServerException(code, m) => "server exception "@ + dec_int(code as int)
                + ": "@ + m,
            ErrorView::Timeout => "timeout"@,
            ErrorView::Type(m) => "type: "@ + m,
            ErrorView::Config(m) => "config: "@ + m,
            ErrorView::NoTableMapping(m) => "no table mapping for "@ + m,
            ErrorView::CompressionUnsupported(m) => "compression not built in: "@ + m,
            ErrorView::UnsupportedValue(c, k) => "unsupported value for column "@ + quoted(c)
                + ": "@ + k,
        }
    }
}

/// Whether a retry may help.
pub fn is_retryable(e: &EmitterError) -> (r: bool)
    ensures
        r == e@.retryable(),
{
    match e {
        EmitterError::Io(_) => true,
        EmitterError::Client { .. } => true,
        EmitterError::ServerException { .. } => true,
        EmitterError::Timeout => true,
        _ => false,
    }
}

impl EmitterError {
    /// The error in words.
    pub fn to_text(&self) -> (r: String)
        ensures
            r@ == self@.text(),
    {
        match self {
            EmitterError::Io(m) => String::from_str("io: ").concat(m.as_str()),
            EmitterError::Client { server_code, message } => {
                let mut s: String = String::from_str("client: ");
                push_dec_int(&mut s, *server_code as i64);
                s.append(": ");
                s.append(message.as_str());
                s
            },
            EmitterError::ServerException { code, message } => {
                let mut s: String = String::from_str("server exception ");
                push_dec_int(&mut s, *code as i64);
                s.append(": ");
                s.append(message.as_str());
                s
            },
            EmitterError::Timeout => String::from_str("timeout"),
            EmitterError::Type(m) => String::from_str("type: ").concat(m.as_str()),
            EmitterError::Config(m) => String::from_str("config: ").concat(m.as_str()),
            EmitterError::NoTableMapping(m) => String::from_str("no table mapping for ").concat(
                m.as_str(),
            ),
            EmitterError::CompressionUnsupported(m) => String::from_str(
                "compression not built in: ",
            ).concat(m),
            EmitterError::UnsupportedValue { target_column, kind } => {
                let mut s: String = String::from_str("unsupported value for column ");
                s.append(quote_ident(target_column.as_str()).as_str());
                s.append(": ");
                s.append(kind);
                s
            },
        }
    }

    pub fn config(m: &str) -> (e: EmitterError)
        ensures
            e@ == ErrorView::Config(m@),
    {
        EmitterError::Config(String::from_str(m))
    }
}

/// What a decoder's observer reports back to the decoder.
#[derive(Debug)]
pub enum DecoderSinkError {
    Observer(String),
}

impl DecoderSinkError {
    /// The decoder sees an emitter error as its observer's words.
    pub fn from_emitter(e: &EmitterError) -> (r: DecoderSinkError)
        ensures
            match r {
                DecoderSinkError::Observer(m) => m@ == e@.text(),
            },
    {
        DecoderSinkError::Observer(e.to_text())
    }
}

} // verus!
