use vstd::prelude::*;

use crate::text::{concat, decimal_text, u64_text, usize_text};

verus! {

/// Largest nesting depth of elements accepted in an SVG document.
pub const MAX_SVG_DEPTH: usize = 100;

/// Largest number of elements accepted in an SVG document.
pub const MAX_SVG_ELEMENTS: usize = 100_000;

/// Errors of the SVG plugin.
#[derive(Debug, Clone, PartialEq, Eq)]
pub enum SvgoError {
    /// An extension override that is not a JSON object; holds the extension.
    InvalidExtensionOverride(String),
    /// Input that is not UTF-8; holds the decoder's description.
    InvalidUtf8(String),
    /// A value that could not be written as JSON; holds the description.
    JsonSerialization(String),
    /// The JavaScript runtime failed; holds its description.
    Runtime(String),
    /// The document nests elements deeper than `max`.
    MaxDepthExceeded { max: usize },
    /// The document holds more than `max` elements.
    MaxElementsExceeded { max: usize },
    /// Formatting took longer than `seconds`.
    Timeout { seconds: u64 },
    /// A `.svgz` input that could not be decompressed; holds the description.
    SvgzDecompression(String),
    /// The output could not be compressed to `.svgz`; holds the description.
    SvgzCompression(String),
}

/// The mathematical model of an error: the same variants, with texts as
/// sequences of characters.
pub enum ErrorModel {
    InvalidExtensionOverride(Seq<char>),
    InvalidUtf8(Seq<char>),
    JsonSerialization(Seq<char>),
    Runtime(Seq<char>),
    MaxDepthExceeded { max: usize },
    MaxElementsExceeded { max: usize },
    Timeout { seconds: u64 },
    SvgzDecompression(Seq<char>),
    SvgzCompression(Seq<char>),
}

impl View for SvgoError {
    type V = ErrorModel;

    open spec fn view(&self) -> ErrorModel {
        match self {
            SvgoError::InvalidExtensionOverride(s) => ErrorModel::InvalidExtensionOverride(s@),
            SvgoError::InvalidUtf8(s) => ErrorModel::InvalidUtf8(s@),
            SvgoError::JsonSerialization(s) => ErrorModel::JsonSerialization(s@),
            SvgoError::Runtime(s) => ErrorModel::Runtime(s@),
            SvgoError::MaxDepthExceeded { max } => ErrorModel::MaxDepthExceeded { max: *max },
            SvgoError::MaxElementsExceeded { max } => ErrorModel::MaxElementsExceeded { max: *max },
            SvgoError::Timeout { seconds } => ErrorModel::Timeout { seconds: *seconds },
            SvgoError::SvgzDecompression(s) => ErrorModel::SvgzDecompression(s@),
            SvgoError::SvgzCompression(s) => ErrorModel::SvgzCompression(s@),
        }
    }
}

/// The model of a result that carries nothing on success.
pub open spec fn unit_result(r: Result<(), SvgoError>) -> Result<(), ErrorModel> {
    match r {
        Ok(()) => Ok(()),
        Err(e) => Err(e@),
    }
}

/// The text of an error, as the host shows it.
pub open spec fn error_message(e: ErrorModel) -> Seq<char> {
    match e {
        ErrorModel::InvalidExtensionOverride(ext) => "Invalid config: expected object for extension override '"@ + ext + "'"@,
        ErrorModel::InvalidUtf8(m) => "Invalid UTF-8 in input: "@ + m,
        ErrorModel::JsonSerialization(m) => "JSON serialization failed: "@ + m,
        ErrorModel::Runtime(m) => "Formatting failed: "@ + m,
        ErrorModel::MaxDepthExceeded { max } => "SVG structure too deep: maximum depth "@ + decimal_text(max as int) + " exceeded"@,
        ErrorModel::MaxElementsExceeded { max } => "SVG has too many elements: maximum "@ + decimal_text(max as int) + " exceeded"@,
        ErrorModel::Timeout { seconds } => "Format operation timed out after "@ + decimal_text(seconds as int) + " seconds"@,
        ErrorModel::SvgzDecompression(m) => "SVGZ decompression failed: "@ + m,
        ErrorModel::SvgzCompression(m) => "SVGZ compression failed: "@ + m,
    }
}

impl SvgoError {
    /// The text of the error.
    pub fn message(&self) -> (r: String)
        ensures
            r@ == error_message(self@),
    {
        match self {
            SvgoError::InvalidExtensionOverride(ext) => concat(
                concat("Invalid config: expected object for extension override '", ext.as_str()).as_str(),
                "'",
            ),
            SvgoError::InvalidUtf8(m) => concat("Invalid UTF-8 in input: ", m.as_str()),
            SvgoError::JsonSerialization(m) => concat("JSON serialization failed: ", m.as_str()),
            SvgoError::Runtime(m) => concat("Formatting failed: ", m.as_str()),
            SvgoError::MaxDepthExceeded { max } => concat(
                concat("SVG structure too deep: maximum depth ", usize_text(*max).as_str()).as_str(),
                " exceeded",
            ),
            SvgoError::MaxElementsExceeded { max } => concat(
                concat("SVG has too many elements: maximum ", usize_text(*max).as_str()).as_str(),
                " exceeded",
            ),
            SvgoError::Timeout { seconds } => concat(
                concat("Format operation timed out after ", u64_text(*seconds).as_str()).as_str(),
                " seconds",
            ),
            SvgoError::SvgzDecompression(m) => concat("SVGZ decompression failed: ", m.as_str()),
            SvgoError::SvgzCompression(m) => concat("SVGZ compression failed: ", m.as_str()),
        }
    }
}

} // verus!
