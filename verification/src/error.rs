//! Errors of prompt generation.
use vstd::prelude::*;

verus! {

/// Why a part of a prompt script cannot be generated.
#[derive(Debug)]
pub enum GenerateError {
    /// The configuration has no first line.
    MissingFirstLine,
    /// The configuration has no second line with a span for the prompt character.
    MissingPromptSpan,
    /// The first span of the second line is not a `text` span.
    PromptSpanNotText,
    /// The first line has no `os` span.
    MissingOsSpan,
    /// The first line has no `path` span.
    MissingPathSpan,
    /// The built-in icon document is not valid TOML.
    IconsParse,
    /// The icon document has no `os.nerdfont` table.
    MissingOsIcons,
    /// The icon document has no `git_upstream.nerdfont` table.
    MissingUpstreamIcons,
    /// The icon document has no table for the requested group and set.
    MissingIconTable,
    /// A color is neither a palette index, a `#rrggbb` value nor a known name.
    UnsupportedColor(String),
    /// A `#rrggbb` color holds something other than hexadecimal digits.
    InvalidHexColor,
}

} // verus!
