//! The formatting and recovery configuration: an immutable set of toggles
//! consulted by both the parser and the formatter.

use vstd::prelude::*;

verus! {

/// The rendering style of the indentation unit used when beautifying.
#[derive(Debug, Clone, Copy)]
pub enum IndentStyle {
    Spaces,
    Tabs,
}

/// The configuration of one fixing run.  `space_between` and `beautify`
/// are suppressed while `preserve` is set; the raw flags stay inspectable
/// and the derived values come from the methods below.
#[derive(Debug, Clone, Copy)]
pub struct JsonFixerConfig {
    /// Keep the original whitespace and layout.
    pub preserve: bool,
    /// Pad punctuation with single spaces on one line.
    pub space_between: bool,
    /// Pretty-print: one element per line, indented by depth.
    pub beautify: bool,
    pub indent_style: IndentStyle,
    pub indent_size: usize,
    /// Render object entries in ascending key order.
    pub sort_keys: bool,
}

impl Default for JsonFixerConfig {
    /// The default configuration: compact output, nothing preserved.
    fn default() -> (r: Self)
        ensures
            !r.preserve,
            !r.space_between,
            !r.beautify,
            r.indent_style is Spaces,
            r.indent_size == 0,
            !r.sort_keys,
    {
        JsonFixerConfig {
            preserve: false,
            space_between: false,
            beautify: false,
            indent_style: IndentStyle::Spaces,
            indent_size: 0,
            sort_keys: false,
        }
    }
}

impl JsonFixerConfig {
    pub open spec fn spec_preserve(&self) -> bool {
        self.preserve
    }

    pub open spec fn spec_space_between(&self) -> bool {
        self.space_between && !self.preserve
    }

    pub open spec fn spec_beautify(&self) -> bool {
        self.beautify && !self.preserve
    }

    /// Whether the original layout is reproduced.
    pub fn preserve(&self) -> (r: bool)
        ensures
            r == self.spec_preserve(),
    {
        self.preserve
    }

    /// Whether single-space padding applies; preserving suppresses it.
    pub fn space_between(&self) -> (r: bool)
        ensures
            r == self.spec_space_between(),
    {
        self.space_between && self.preserve == false
    }

    /// Whether pretty-printing applies; preserving suppresses it.
    pub fn beautify(&self) -> (r: bool)
        ensures
            r == self.spec_beautify(),
    {
        self.beautify && self.preserve == false
    }
}

} // verus!
