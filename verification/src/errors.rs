//! Errors of the relay.

use vstd::prelude::*;
use vstd::string::StringExecFns;

verus! {

/// Why a frame could not be decoded.
#[derive(Clone, Copy, Debug, PartialEq, Eq, Structural)]
pub enum DecodeError {
    /// The frame ends before the message does.
    UnexpectedEnd,
    /// The frame starts with a variant tag that the message type lacks.
    UnknownVariant(u32),
    /// A text field is not UTF-8.
    InvalidText,
}

impl DecodeError {
    /// A line of text for the log.
    pub fn describe(&self) -> (text: &'static str)
        ensures
            text@ == (match *self {
                DecodeError::UnexpectedEnd => "unexpected end of frame"@,
                DecodeError::UnknownVariant(_) => "unknown variant tag"@,
                DecodeError::InvalidText => "text is not valid UTF-8"@,
            }),
    {
        match self {
            DecodeError::UnexpectedEnd => "unexpected end of frame",
            DecodeError::UnknownVariant(_) => "unknown variant tag",
            DecodeError::InvalidText => "text is not valid UTF-8",
        }
    }
}

/// What can go wrong in an agent or in the hub. Each variant carries the
/// text of the underlying failure.
#[derive(Clone, Debug, PartialEq, Eq)]
pub enum SwapError {
    /// The token table could not be read.
    ReadTokensFileError(String),
    /// The token table is not well-formed JSON.
    ParseTokensFileError(String),
    /// A request or a frame could not be sent.
    SendRequestError(String),
    /// The price source's answer could not be understood.
    ParseResponseError(String),
    /// A message could not be encoded.
    SerializeError(String),
    /// The web-socket transport failed.
    WsError(String),
}

impl SwapError {
    /// The words that every error of a kind starts with.
    pub open spec fn spec_headline(&self) -> Seq<char> {
        match *self {
            SwapError::ReadTokensFileError(_) => "Failed to read tokens file"@,
            SwapError::ParseTokensFileError(_) => "Failed to parse tokens file"@,
            SwapError::SendRequestError(_) => "Failed to send request to: "@,
            SwapError::ParseResponseError(_) => "Failed to parse response"@,
            SwapError::SerializeError(_) => "Failed to serialize response"@,
            SwapError::WsError(_) => "WS error"@,
        }
    }

    /// The error in words: its headline, followed for a failed send by what
    /// the error carries.
    pub open spec fn spec_text(&self) -> Seq<char> {
        match *self {
            SwapError::SendRequestError(detail) => self.spec_headline() + detail@,
            _ => self.spec_headline(),
        }
    }

    /// The words that every error of a kind starts with.
    pub fn headline(&self) -> (text: &'static str)
        ensures
            text@ == self.spec_headline(),
    {
        match self {
            SwapError::ReadTokensFileError(_) => "Failed to read tokens file",
            SwapError::ParseTokensFileError(_) => "Failed to parse tokens file",
            SwapError::SendRequestError(_) => "Failed to send request to: ",
            SwapError::ParseResponseError(_) => "Failed to parse response",
            SwapError::SerializeError(_) => "Failed to serialize response",
            SwapError::WsError(_) => "WS error",
        }
    }

    /// The error in words.
    pub fn to_text(&self) -> (text: String)
        ensures
            text@ == self.spec_text(),
    {
        let mut text = String::from_str(self.headline());
        match self {
            SwapError::SendRequestError(detail) => {
                text.append(detail.as_str());
            },
            _ => {},
        }
        text
    }
}

} // verus!
