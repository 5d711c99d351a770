//! Connection settings, and when a change of them needs a new connection.
use vstd::prelude::*;
use vstd::string::*;

use crate::errors::{EmitterError, ErrorView};
use crate::text::{lowered, str_eq, to_lower};

verus! {

/// Compression of the wire.
#[derive(Debug, Clone, Copy, PartialEq, Eq, Structural)]
pub enum CompressionChoice {
    Off,
    Lz4,
    Zstd,
}

/// The codecs that are built in.
#[derive(Debug, Clone, Copy, PartialEq, Eq, Structural)]
pub struct CodecSupport {
    pub lz4: bool,
    pub zstd: bool,
}

/// What a connection compresses with; any codec decodes what the server sends.
#[derive(Debug, Clone, Copy, PartialEq, Eq, Structural)]
pub enum Codec {
    DecodeOnly,
    Lz4,
    Zstd,
}

impl CompressionChoice {
    /// The codec of a connection, or why there is none.
    pub open spec fn codec(self, built: CodecSupport) -> Result<Option<Codec>, ErrorView> {
        match self {
            CompressionChoice::Off => Ok(
                if built.lz4 || built.zstd {
                    Some(Codec::DecodeOnly)
                } else {
                    None
                },
            ),
            CompressionChoice::Lz4 => if built.lz4 {
                Ok(Some(Codec::Lz4))
            } else {
                Err(ErrorView::CompressionUnsupported("lz4"@))
            },
            CompressionChoice::Zstd => if built.zstd {
                Ok(Some(Codec::Zstd))
            } else {
                Err(ErrorView::CompressionUnsupported("zstd"@))
            },
        }
    }

    /// The choice that `s` names, in any case; an empty name is no
    /// compression.
    pub open spec fn named(s: Seq<char>) -> Option<CompressionChoice> {
        let l = lowered(s);
        if l == "none"@ || l == ""@ {
            Some(CompressionChoice::Off)
        } else if l == "lz4"@ {
            Some(CompressionChoice::Lz4)
        } else if l == "zstd"@ {
            Some(CompressionChoice::Zstd)
        } else {
            None
        }
    }

    pub fn parse(s: &str) -> (r: Result<CompressionChoice, String>)
        ensures
            match r {
                Ok(c) => Self::named(s@) == Some(c),
                Err(m) => Self::named(s@) is None && m@ == "unknown compression `"@ + s@
                    + "`; expected none, lz4 or zstd"@,
            },
    {
        let l: String = to_lower(s);
        if str_eq(l.as_str(), "none") || str_eq(l.as_str(), "") {
            return Ok(CompressionChoice::Off);
        }
        if str_eq(l.as_str(), "lz4") {
            return Ok(CompressionChoice::Lz4);
        }
        if str_eq(l.as_str(), "zstd") {
            return Ok(CompressionChoice::Zstd);
        }
        let mut m: String = String::from_str("unknown compression `");
        m.append(s);
        m.append("`; expected none, lz4 or zstd");
        Err(m)
    }

    /// The codec of a connection. Without compression a decoder is installed
    /// all the same, because the server answers in whatever method it is
    /// configured for; a codec that is not built in is an error.
    pub fn build_codec(self, built: CodecSupport) -> (r: Result<Option<Codec>, EmitterError>)
        ensures
            match (r, self.codec(built)) {
                (Ok(c), Ok(d)) => c == d,
                (Err(e), Err(v)) => e@ == v,
                _ => false,
            },
    {
        match self {
            CompressionChoice::Off => if built.lz4 || built.zstd {
                Ok(Some(Codec::DecodeOnly))
            } else {
                Ok(None)
            },
            CompressionChoice::Lz4 => if built.lz4 {
                Ok(Some(Codec::Lz4))
            } else {
                Err(EmitterError::CompressionUnsupported("lz4"))
            },
            CompressionChoice::Zstd => if built.zstd {
                Ok(Some(Codec::Zstd))
            } else {
                Err(EmitterError::CompressionUnsupported("zstd"))
            },
        }
    }
}

/// Where and as whom to connect.
#[derive(Debug)]
pub struct ConnParams {
    pub host: String,
    pub port: u16,
    pub database: String,
    pub user: String,
    pub password: String,
    pub secure: bool,
}

pub struct ConnView {
    pub host: Seq<char>,
    pub port: u16,
    pub database: Seq<char>,
    pub user: Seq<char>,
    pub password: Seq<char>,
    pub secure: bool,
}

impl View for ConnParams {
    type V = ConnView;

    open spec fn view(&self) -> ConnView {
        ConnView {
            host: self.host@,
            port: self.port,
            database: self.database@,
            user: self.user@,
            password: self.password@,
            secure: self.secure,
        }
    }
}

impl ConnParams {
    pub fn same(&self, other: &ConnParams) -> (r: bool)
        ensures
            r == (self@ == other@),
    {
        str_eq(self.host.as_str(), other.host.as_str()) && self.port == other.port && str_eq(
            self.database.as_str(),
            other.database.as_str(),
        ) && str_eq(self.user.as_str(), other.user.as_str()) && str_eq(
            self.password.as_str(),
            other.password.as_str(),
        ) && self.secure == other.secure
    }

    pub fn copied(&self) -> (r: ConnParams)
        ensures
            r@ == self@,
    {
        ConnParams {
            host: self.host.clone(),
            port: self.port,
            database: self.database.clone(),
            user: self.user.clone(),
            password: self.password.clone(),
            secure: self.secure,
        }
    }

    /// Take over republished parameters; whether the connection has to be
    /// dialled anew.
    pub fn refresh(&mut self, live: &ConnParams) -> (redial: bool)
        ensures
            final(self)@ == live@,
            redial == (old(self)@ != live@),
    {
        if self.same(live) {
            return false;
        }
        *self = live.copied();
        true
    }
}

} // verus!
