//! A repairer for malformed JSON-like text: unquoted or single-quoted
//! keys, missing, duplicate or trailing commas, lenient number forms and
//! arbitrary whitespace are fixed, and the result is rendered compactly,
//! space-padded, pretty-printed, or with the original layout preserved.
//!
//! The whole pipeline — tokenizer, recovering parser and formatter — is
//! stated exactly by spec functions, and every executable function is
//! proved to return precisely what they say: `fix` returns exactly
//! `spec_fix` of the input characters.

use vstd::prelude::*;

pub mod chars;
pub mod jsonformatter;
pub mod jsonparser;
pub mod json_tokenizer;
pub mod jsonfixer_config;
pub mod jsonfixer_error;
pub mod laws;

pub use json_tokenizer::JsonTokenizer;
pub use json_tokenizer::Token;
pub use json_tokenizer::Position;
pub use jsonfixer_config::JsonFixerConfig;
pub use jsonfixer_config::IndentStyle;
pub use jsonfixer_error::JsonFixerError;
pub use jsonfixer_error::JsonFormatError;
pub use jsonfixer_error::SyntaxError;
pub use jsonformatter::Formatter;
pub use jsonformatter::JsonFormatter;
pub use jsonparser::JsonParser;
pub use jsonparser::JsonValue;
pub use jsonparser::JsonEntryValue;

use crate::jsonfixer_error::err_model;
use crate::jsonparser::spec_fix;

verus! {

/// The default configuration: compact output, nothing preserved.
pub open spec fn compact_config() -> JsonFixerConfig {
    JsonFixerConfig {
        preserve: false,
        space_between: false,
        beautify: false,
        indent_style: IndentStyle::Spaces,
        indent_size: 0,
        sort_keys: false,
    }
}

/// The single-space padding preset.
pub open spec fn space_between_config() -> JsonFixerConfig {
    JsonFixerConfig {
        preserve: false,
        space_between: true,
        beautify: false,
        indent_style: IndentStyle::Spaces,
        indent_size: 0,
        sort_keys: false,
    }
}

/// The pretty-printing preset: beautified, indented by four spaces.
pub open spec fn pretty_config() -> JsonFixerConfig {
    JsonFixerConfig {
        preserve: false,
        space_between: false,
        beautify: true,
        indent_style: IndentStyle::Spaces,
        indent_size: 4,
        sort_keys: false,
    }
}

/// How a fixing run's result relates to its specification: the same text
/// on success, the same syntax error on failure.
pub open spec fn fix_matches(
    input: Seq<char>,
    config: JsonFixerConfig,
    r: Result<String, JsonFixerError>,
) -> bool {
    match spec_fix(input, config) {
        Ok(t) => r matches Ok(out) && out@ == t,
        Err(e) => r matches Err(JsonFixerError::Syntax(se)) && err_model(se) == e,
    }
}

/// The entry point for parsing and fixing malformed JSON text.
pub struct JsonFixer;

impl JsonFixer {
    /// Fixes the input under the given configuration; the result is
    /// exactly `spec_fix` of the input characters.
    pub fn fix_with_config(input: &str, config: JsonFixerConfig) -> (r: Result<
        String,
        JsonFixerError,
    >)
        ensures
            fix_matches(input@, config, r),
    {
        let mut parser = JsonParser::new(input, config);
        parser.parse()
    }

    /// Fixes the input under the default configuration: compact output.
    pub fn fix(input: &str) -> (r: Result<String, JsonFixerError>)
        ensures
            fix_matches(input@, compact_config(), r),
    {
        let mut parser = JsonParser::new(input, JsonFixerConfig::default());
        parser.parse()
    }

    /// Fixes the input and pads punctuation with single spaces, on one
    /// line.
    pub fn fix_with_space_between(input: &str) -> (r: Result<String, JsonFixerError>)
        ensures
            fix_matches(input@, space_between_config(), r),
    {
        let mut config = JsonFixerConfig::default();
        config.space_between = true;
        config.beautify = false;
        config.preserve = false;
        let mut parser = JsonParser::new(input, config);
        parser.parse()
    }

    /// Fixes the input and pretty-prints it: one element per line,
    /// indented by four spaces per nesting depth.
    pub fn fix_pretty(input: &str) -> (r: Result<String, JsonFixerError>)
        ensures
            fix_matches(input@, pretty_config(), r),
    {
        let mut config = JsonFixerConfig::default();
        config.beautify = true;
        config.preserve = false;
        config.space_between = false;
        config.indent_size = 4;
        let mut parser = JsonParser::new(input, config);
        parser.parse()
    }
}

} // verus!
