//! Errors of the library's own logic.
use vstd::prelude::*;

use crate::strs::decimal;

verus! {

/// Failures of SWF reading, canvas parsing and canvas tree resolution.
#[derive(Debug)]
pub enum UiError {
    /// The SWF byte stream could not be parsed (decompression or structure).
    SwfParse(String),
    /// A SWF tag or feature variant that is not supported.
    UnsupportedTag(String),
    /// A canvas record could not be parsed from its JSON representation.
    ParseError(String),
    /// A cyclic sub-canvas reference: the GUID of the canvas met again.
    CycleDetected(String),
    /// The canvas fetch failed for a GUID, with the fetcher's message.
    FetchFailed { guid: String, source: String },
    /// The resolver went deeper than its maximum expansion depth.
    MaxDepthExceeded { guid: String, max_depth: usize },
}

/// The human-readable message of an error.
pub open spec fn message_view(e: UiError) -> Seq<char> {
    match e {
        UiError::SwfParse(m) => "SWF parse error: "@ + m@,
        UiError::UnsupportedTag(m) => "unsupported SWF tag/feature: "@ + m@,
        UiError::ParseError(m) => "canvas parse error: "@ + m@,
        UiError::CycleDetected(g) => "cyclic canvas reference detected for GUID "@ + g@,
        UiError::FetchFailed { guid, source } => "canvas fetch failed for GUID "@ + guid@ + ": "@ + source@,
        UiError::MaxDepthExceeded { guid, max_depth } => "canvas expansion exceeded max depth "@ + decimal(
            max_depth as nat,
        ) + " at GUID "@ + guid@,
    }
}

impl UiError {
    /// The human-readable message of the error (see [`message_view`]).
    pub fn message(&self) -> (r: String)
        ensures
            r@ == message_view(*self),
    {
        let mut out: Vec<char> = Vec::new();
        match self {
            UiError::SwfParse(m) => {
                crate::strs::append_str(&mut out, "SWF parse error: ");
                crate::strs::append_str(&mut out, m.as_str());
            },
            UiError::UnsupportedTag(m) => {
                crate::strs::append_str(&mut out, "unsupported SWF tag/feature: ");
                crate::strs::append_str(&mut out, m.as_str());
            },
            UiError::ParseError(m) => {
                crate::strs::append_str(&mut out, "canvas parse error: ");
                crate::strs::append_str(&mut out, m.as_str());
            },
            UiError::CycleDetected(g) => {
                crate::strs::append_str(&mut out, "cyclic canvas reference detected for GUID ");
                crate::strs::append_str(&mut out, g.as_str());
            },
            UiError::FetchFailed { guid, source } => {
                crate::strs::append_str(&mut out, "canvas fetch failed for GUID ");
                crate::strs::append_str(&mut out, guid.as_str());
                crate::strs::append_str(&mut out, ": ");
                crate::strs::append_str(&mut out, source.as_str());
            },
            UiError::MaxDepthExceeded { guid, max_depth } => {
                crate::strs::append_str(&mut out, "canvas expansion exceeded max depth ");
                crate::strs::push_decimal(&mut out, *max_depth as u64);
                crate::strs::append_str(&mut out, " at GUID ");
                crate::strs::append_str(&mut out, guid.as_str());
            },
        }
        crate::strs::string_of(out.as_slice())
    }
}

} // verus!
