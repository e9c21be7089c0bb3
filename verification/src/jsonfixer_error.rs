//! The error taxonomy: syntax errors raised by the tokenizer and parser,
//! format errors reserved for the formatter, and a wrapper for failures of
//! an outside serializer bridge.

use vstd::prelude::*;

use crate::chars::chars_to_string;
use crate::chars::str_to_chars;
use crate::json_tokenizer::Position;

verus! {

/// Errors that may occur while fixing a malformed JSON text.
#[derive(Debug)]
pub enum JsonFixerError {
    Syntax(SyntaxError),
    Format(JsonFormatError),
    /// A failure of an outside serializer or deserializer bridge.
    SerdeError(String),
}

#[derive(Debug)]
pub enum JsonFormatError {
    LineTooLong { line: usize, length: usize, max: usize },
    InvalidIndentation { line: usize },
}

#[derive(Debug)]
pub enum SyntaxError {
    /// Unexpected character found in input.
    UnexpectedCharacter(char, Position),
    /// Unmatched quotes in a string.
    UnmatchedQuotes(Position),
    /// Input ended unexpectedly.
    UnexpectedEndOfInput(Position),
    /// Comma is missing between elements.
    MissingComma(Position),
    /// Invalid number format encountered.
    InvalidNumber(String, Position),
    /// Unexpected token in the input.
    UnexpectedToken(String, Position),
}

/// The mathematical shape of a syntax error: the same variants with text
/// as a character sequence.
pub enum SyntaxErrorModel {
    UnexpectedCharacter(char, Position),
    UnmatchedQuotes(Position),
    UnexpectedEndOfInput(Position),
    MissingComma(Position),
    InvalidNumber(Seq<char>, Position),
    UnexpectedToken(Seq<char>, Position),
}

pub open spec fn err_model(e: SyntaxError) -> SyntaxErrorModel {
    match e {
        SyntaxError::UnexpectedCharacter(c, p) => SyntaxErrorModel::UnexpectedCharacter(c, p),
        SyntaxError::UnmatchedQuotes(p) => SyntaxErrorModel::UnmatchedQuotes(p),
        SyntaxError::UnexpectedEndOfInput(p) => SyntaxErrorModel::UnexpectedEndOfInput(p),
        SyntaxError::MissingComma(p) => SyntaxErrorModel::MissingComma(p),
        SyntaxError::InvalidNumber(s, p) => SyntaxErrorModel::InvalidNumber(s@, p),
        SyntaxError::UnexpectedToken(s, p) => SyntaxErrorModel::UnexpectedToken(s@, p),
    }
}


impl Clone for SyntaxError {
    /// A copy naming the same error at the same position.
    fn clone(&self) -> (r: Self)
        ensures
            err_model(r) == err_model(*self),
    {
        match self {
            SyntaxError::UnexpectedCharacter(c, p) => SyntaxError::UnexpectedCharacter(*c, *p),
            SyntaxError::UnmatchedQuotes(p) => SyntaxError::UnmatchedQuotes(*p),
            SyntaxError::UnexpectedEndOfInput(p) => SyntaxError::UnexpectedEndOfInput(*p),
            SyntaxError::MissingComma(p) => SyntaxError::MissingComma(*p),
            SyntaxError::InvalidNumber(t, p) => SyntaxError::InvalidNumber(t.clone(), *p),
            SyntaxError::UnexpectedToken(t, p) => SyntaxError::UnexpectedToken(t.clone(), *p),
        }
    }
}

/// The decimal text of a number, most significant digit first.
pub open spec fn dec_digits(n: nat) -> Seq<char>
    decreases n,
{
    if n < 10 {
        seq![dec_digit(n)]
    } else {
        dec_digits(n / 10).push(dec_digit(n % 10))
    }
}

/// The character of one decimal digit.
pub open spec fn dec_digit(n: nat) -> char {
    if n == 0 {
        '0'
    } else if n == 1 {
        '1'
    } else if n == 2 {
        '2'
    } else if n == 3 {
        '3'
    } else if n == 4 {
        '4'
    } else if n == 5 {
        '5'
    } else if n == 6 {
        '6'
    } else if n == 7 {
        '7'
    } else if n == 8 {
        '8'
    } else {
        '9'
    }
}

/// Writes a number in decimal, as the standard formatter would.
fn push_usize(out: &mut Vec<char>, n: usize)
    ensures
        final(out)@ == old(out)@ + dec_digits(n as nat),
    decreases n,
{
    if n < 10 {
        let d: char = match n {
            0 => '0',
            1 => '1',
            2 => '2',
            3 => '3',
            4 => '4',
            5 => '5',
            6 => '6',
            7 => '7',
            8 => '8',
            _ => '9',
        };
        out.push(d);
        proof {
            assert(out@ =~= old(out)@ + dec_digits(n as nat));
        }
    } else {
        push_usize(out, n / 10);
        let r = n % 10;
        let d: char = match r {
            0 => '0',
            1 => '1',
            2 => '2',
            3 => '3',
            4 => '4',
            5 => '5',
            6 => '6',
            7 => '7',
            8 => '8',
            _ => '9',
        };
        out.push(d);
        proof {
            assert(dec_digit((n % 10) as nat) == d);
            assert(out@ =~= old(out)@ + dec_digits(n as nat));
        }
    }
}

/// The "at line L, column C" tail of a diagnostic.
pub open spec fn position_text(p: Position) -> Seq<char> {
    " at line "@ + dec_digits(p.line as nat) + ", column "@ + dec_digits(p.column as nat)
}

fn push_position(out: &mut Vec<char>, p: &Position)
    ensures
        final(out)@ == old(out)@ + position_text(*p),
{
    let mut part = str_to_chars(" at line ");
    out.append(&mut part);
    push_usize(out, p.line);
    let mut part2 = str_to_chars(", column ");
    out.append(&mut part2);
    push_usize(out, p.column);
    proof {
        assert(out@ =~= old(out)@ + position_text(*p));
    }
}

/// The human-readable text of a syntax error: its kind, the offending
/// text, and the line and column.
pub open spec fn syntax_error_text(e: SyntaxErrorModel) -> Seq<char> {
    match e {
        SyntaxErrorModel::UnexpectedToken(t, p) => "Unexpected Token : '"@ + t + "'"@
            + position_text(p),
        SyntaxErrorModel::UnexpectedCharacter(c, p) => "Unexpected character '"@ + seq![c] + "'"@
            + position_text(p),
        SyntaxErrorModel::UnmatchedQuotes(p) => "Unmatched quotes"@ + position_text(p),
        SyntaxErrorModel::UnexpectedEndOfInput(p) => "Unexpected end of input"@ + position_text(p),
        SyntaxErrorModel::MissingComma(p) => "Missing comma"@ + position_text(p),
        SyntaxErrorModel::InvalidNumber(t, p) => "Invalid number '"@ + t + "'"@ + position_text(p),
    }
}

/// The human-readable text of a format error.
pub open spec fn format_error_text(e: JsonFormatError) -> Seq<char> {
    match e {
        JsonFormatError::LineTooLong { line, length, max } => "Line "@ + dec_digits(line as nat)
            + " is too long of length: "@ + dec_digits(length as nat)
            + " \nExpeced max length: "@ + dec_digits(max as nat),
        JsonFormatError::InvalidIndentation { line } => "Invalid Indentation at line: "@
            + dec_digits(line as nat),
    }
}

/// The human-readable text of any fixing error: the kind, then the text
/// of the underlying error.
pub open spec fn fixer_error_text(e: JsonFixerError) -> Seq<char> {
    match e {
        JsonFixerError::Syntax(se) => "Syntax error: "@ + syntax_error_text(err_model(se)),
        JsonFixerError::Format(fe) => "Format error: "@ + format_error_text(fe),
        JsonFixerError::SerdeError(t) => "Serde error: "@ + t@,
    }
}

impl SyntaxError {
    /// The diagnostic text of this error.
    pub fn message(&self) -> (r: String)
        ensures
            r@ == syntax_error_text(err_model(*self)),
    {
        let mut out: Vec<char> = Vec::new();
        match self {
            SyntaxError::UnexpectedToken(t, p) => {
                let mut part = str_to_chars("Unexpected Token : '");
                out.append(&mut part);
                let mut body = str_to_chars(t.as_str());
                out.append(&mut body);
                let mut part2 = str_to_chars("'");
                out.append(&mut part2);
                push_position(&mut out, p);
                proof {
                    assert(out@ =~= syntax_error_text(err_model(*self)));
                }
            },
            SyntaxError::UnexpectedCharacter(c, p) => {
                let mut part = str_to_chars("Unexpected character '");
                out.append(&mut part);
                out.push(*c);
                let mut part2 = str_to_chars("'");
                out.append(&mut part2);
                push_position(&mut out, p);
                proof {
                    assert(out@ =~= syntax_error_text(err_model(*self)));
                }
            },
            SyntaxError::UnmatchedQuotes(p) => {
                let mut part = str_to_chars("Unmatched quotes");
                out.append(&mut part);
                push_position(&mut out, p);
                proof {
                    assert(out@ =~= syntax_error_text(err_model(*self)));
                }
            },
            SyntaxError::UnexpectedEndOfInput(p) => {
                let mut part = str_to_chars("Unexpected end of input");
                out.append(&mut part);
                push_position(&mut out, p);
                proof {
                    assert(out@ =~= syntax_error_text(err_model(*self)));
                }
            },
            SyntaxError::MissingComma(p) => {
                let mut part = str_to_chars("Missing comma");
                out.append(&mut part);
                push_position(&mut out, p);
                proof {
                    assert(out@ =~= syntax_error_text(err_model(*self)));
                }
            },
            SyntaxError::InvalidNumber(t, p) => {
                let mut part = str_to_chars("Invalid number '");
                out.append(&mut part);
                let mut body = str_to_chars(t.as_str());
                out.append(&mut body);
                let mut part2 = str_to_chars("'");
                out.append(&mut part2);
                push_position(&mut out, p);
                proof {
                    assert(out@ =~= syntax_error_text(err_model(*self)));
                }
            },
        }
        chars_to_string(&out)
    }
}

impl JsonFormatError {
    /// The diagnostic text of this error.
    pub fn message(&self) -> (r: String)
        ensures
            r@ == format_error_text(*self),
    {
        let mut out: Vec<char> = Vec::new();
        match self {
            JsonFormatError::LineTooLong { line, length, max } => {
                let mut part = str_to_chars("Line ");
                out.append(&mut part);
                push_usize(&mut out, *line);
                let mut part2 = str_to_chars(" is too long of length: ");
                out.append(&mut part2);
                push_usize(&mut out, *length);
                let mut part3 = str_to_chars(" \nExpeced max length: ");
                out.append(&mut part3);
                push_usize(&mut out, *max);
                proof {
                    assert(out@ =~= format_error_text(*self));
                }
            },
            JsonFormatError::InvalidIndentation { line } => {
                let mut part = str_to_chars("Invalid Indentation at line: ");
                out.append(&mut part);
                push_usize(&mut out, *line);
                proof {
                    assert(out@ =~= format_error_text(*self));
                }
            },
        }
        chars_to_string(&out)
    }
}

impl JsonFixerError {
    /// The diagnostic text of this error: the kind, then the underlying
    /// error's text.
    pub fn message(&self) -> (r: String)
        ensures
            r@ == fixer_error_text(*self),
    {
        let mut out: Vec<char> = Vec::new();
        match self {
            JsonFixerError::Syntax(se) => {
                let mut part = str_to_chars("Syntax error: ");
                out.append(&mut part);
                let mut body = str_to_chars(se.message().as_str());
                out.append(&mut body);
                proof {
                    assert(out@ =~= fixer_error_text(*self));
                }
            },
            JsonFixerError::Format(fe) => {
                let mut part = str_to_chars("Format error: ");
                out.append(&mut part);
                let mut body = str_to_chars(fe.message().as_str());
                out.append(&mut body);
                proof {
                    assert(out@ =~= fixer_error_text(*self));
                }
            },
            JsonFixerError::SerdeError(t) => {
                let mut part = str_to_chars("Serde error: ");
                out.append(&mut part);
                let mut body = str_to_chars(t.as_str());
                out.append(&mut body);
                proof {
                    assert(out@ =~= fixer_error_text(*self));
                }
            },
        }
        chars_to_string(&out)
    }
}

} // verus!
