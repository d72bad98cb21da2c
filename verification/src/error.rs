//! The errors of the converter.
use vstd::prelude::*;

use crate::text::push_str;

verus! {

/// Why a conversion did not happen.
#[derive(Debug, Clone)]
pub enum ConverterError {
    /// No adapter handles the pair.
    NotSupported { from: String, to: String, reason: String, hint: String },
    /// The pair needs an external tool that is not installed.
    ToolMissing { tool: String, install_hint: String },
    /// Reading or writing a file failed; holds the error's text.
    Io(String),
    /// An archive could not be read or written; holds the error's text.
    Zip(String),
    /// The input could not be parsed or the output could not be produced.
    Parse(String),
    /// The external tool ran and failed.
    ToolFailed { tool: String, stderr: String },
    /// The job was cancelled.
    Cancelled,
}

/// The text that describes an error.
pub open spec fn error_message(e: ConverterError) -> Seq<char> {
    match e {
        ConverterError::NotSupported { from, to, reason, hint } => "conversion "@ + from@
            + " -> "@ + to@ + " not supported: "@ + reason@ + ". Hint: "@ + hint@,
        ConverterError::ToolMissing { tool, install_hint } => "external tool '"@ + tool@
            + "' not found. Install: "@ + install_hint@,
        ConverterError::Io(m) => "io error: "@ + m@,
        ConverterError::Zip(m) => "archive error: "@ + m@,
        ConverterError::Parse(m) => "parse error: "@ + m@,
        ConverterError::ToolFailed { tool, stderr } => "external tool failed ("@ + tool@ + "): "@
            + stderr@,
        ConverterError::Cancelled => "cancelled"@,
    }
}

impl ConverterError {
    /// The text that describes the error.
    pub fn message(&self) -> (r: String)
        ensures
            r@ == error_message(*self),
    {
        let mut s = String::new();
        match self {
            ConverterError::NotSupported { from, to, reason, hint } => {
                push_str(&mut s, "conversion ");
                push_str(&mut s, from.as_str());
                push_str(&mut s, " -> ");
                push_str(&mut s, to.as_str());
                push_str(&mut s, " not supported: ");
                push_str(&mut s, reason.as_str());
                push_str(&mut s, ". Hint: ");
                push_str(&mut s, hint.as_str());
            },
            ConverterError::ToolMissing { tool, install_hint } => {
                push_str(&mut s, "external tool '");
                push_str(&mut s, tool.as_str());
                push_str(&mut s, "' not found. Install: ");
                push_str(&mut s, install_hint.as_str());
            },
            ConverterError::Io(m) => {
                push_str(&mut s, "io error: ");
                push_str(&mut s, m.as_str());
            },
            ConverterError::Zip(m) => {
                push_str(&mut s, "archive error: ");
                push_str(&mut s, m.as_str());
            },
            ConverterError::Parse(m) => {
                push_str(&mut s, "parse error: ");
                push_str(&mut s, m.as_str());
            },
            ConverterError::ToolFailed { tool, stderr } => {
                push_str(&mut s, "external tool failed (");
                push_str(&mut s, tool.as_str());
                push_str(&mut s, "): ");
                push_str(&mut s, stderr.as_str());
            },
            ConverterError::Cancelled => {
                push_str(&mut s, "cancelled");
            },
        }
        s
    }
}

} // verus!
